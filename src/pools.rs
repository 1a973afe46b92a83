//! Pool registry and liquidity: creating pools and depositing into them.
use vstd::prelude::*;
use crate::dex::{lemma_lp_sum_bounds, lemma_lp_sum_nonneg, lemma_lp_sum_push, lemma_lp_sum_update, lp_held, lp_total, mint_amount, mint_error};
use crate::dex::{pool_fee_type, Dex, DexError, LpPosition, Pool, PoolId, ShareFilter};
use crate::fee_engine::{AccountId, Balance, TransactionType};
use crate::fee_engine::{TX_TYPE_POOL_LARGE, TX_TYPE_POOL_MEDIUM, TX_TYPE_POOL_SMALL};
use crate::math::{integer_sqrt, isqrt_spec};
use crate::pair::{pair_key, pair_key_spec, MAX_PAIR_LEN, MAX_SYMBOL_LEN};

verus! {

impl Dex {
    /// Registers `key` as a pair, unless it already is, and returns its index.
    pub fn intern_pair(&mut self, key: Vec<u8>) -> (r: usize)
        requires
            old(self).pairs_wf(),
        ensures
            final(self).pairs_wf(),
            r < final(self).pairs@.len(),
            final(self).pairs@[r as int]@ == key@,
            old(self).pairs@.len() <= final(self).pairs@.len() <= old(self).pairs@.len() + 1,
            final(self).pairs@.subrange(0, old(self).pairs@.len() as int) == old(self).pairs@,
            final(self).trading_volume@.subrange(0, old(self).pairs@.len() as int)
                == old(self).trading_volume@,
            forall|i: int|
                old(self).pairs@.len() <= i < final(self).pairs@.len() ==> final(self).trading_volume@[i] == 0,
            final(self).config == old(self).config,
            final(self).fee_engine == old(self).fee_engine,
            final(self).pools == old(self).pools,
            final(self).lp_positions == old(self).lp_positions,
            final(self).orders == old(self).orders,
            final(self).book == old(self).book,
    {
        match self.find_pair(key.as_slice()) {
            Some(i) => {
                assert(self.pairs@.subrange(0, self.pairs@.len() as int) =~= self.pairs@);
                assert(self.trading_volume@.subrange(0, self.pairs@.len() as int) =~= self.trading_volume@);
                i
            },
            None => {
                let ghost old_key = key@;
                let i = self.pairs.len();
                self.pairs.push(key);
                self.trading_volume.push(0);
                assert(self.pairs@.subrange(0, i as int) =~= old(self).pairs@);
                assert(self.trading_volume@.subrange(0, i as int) =~= old(self).trading_volume@);
                assert forall|a: int, b: int| 0 <= a < b < self.pairs@.len() implies #[trigger] self.pairs@[a]@
                    != #[trigger] self.pairs@[b]@ by {
                    if b == i {
                        assert(old(self).pairs@[a]@ != old_key);
                    } else {
                        assert(old(self).pairs@[a]@ != old(self).pairs@[b]@);
                    }
                }
                i
            },
        }
    }

    /// Whether any pool trades the pair with key `key`.
    pub fn pool_exists_for(&self, key: &[u8]) -> (r: bool)
        requires
            self.pairs_wf(),
            self.pools_wf(),
        ensures
            r == self.has_pool_for(key@),
    {
        match self.find_pair(key) {
            None => {
                assert(!self.has_pool_for(key@)) by {
                    if self.has_pool_for(key@) {
                        let i = choose|i: int| 0 <= i < self.pools@.len() && self.pairs@[self.pools@[i].pair as int]@ == key@;
                        assert(self.pools@[i].pair < self.pairs@.len());
                    }
                }
                false
            },
            Some(pi) => {
                match self.find_pool_of_pair(pi as u64) {
                    Some(i) => true,
                    None => {
                        assert(!self.has_pool_for(key@)) by {
                            if self.has_pool_for(key@) {
                                let i = choose|i: int| 0 <= i < self.pools@.len() && self.pairs@[self.pools@[i].pair as int]@ == key@;
                                let q = self.pools@[i].pair as int;
                                assert(q < self.pairs@.len());
                                if q != pi as int {
                                    if q < pi as int {
                                        assert(self.pairs@[q]@ != self.pairs@[pi as int]@);
                                    } else {
                                        assert(self.pairs@[pi as int]@ != self.pairs@[q]@);
                                    }
                                }
                            }
                        }
                        false
                    },
                }
            },
        }
    }

    /// Fee type that a new pool pays, by the sum of its initial amounts.
    pub fn pool_fee_type_exec(&self, total: Balance) -> (r: TransactionType)
        ensures
            r == pool_fee_type(self.config, total as int),
    {
        if total < self.config.small_pool_limit {
            TX_TYPE_POOL_SMALL
        } else if total < self.config.medium_pool_limit {
            TX_TYPE_POOL_MEDIUM
        } else {
            TX_TYPE_POOL_LARGE
        }
    }

    /// Why `create_pool` refuses its arguments, in the order the rules are
    /// applied; `None` when it succeeds.
    pub open spec fn create_pool_error(
        &self,
        token_a: Seq<u8>,
        token_b: Seq<u8>,
        initial_liquidity_a: Balance,
        initial_liquidity_b: Balance,
    ) -> Option<DexError> {
        let key = pair_key_spec(token_a, token_b);
        let total = initial_liquidity_a + initial_liquidity_b;
        if token_a.len() > MAX_SYMBOL_LEN || token_b.len() > MAX_SYMBOL_LEN {
            Some(DexError::InvalidTokenPair)
        } else if initial_liquidity_a < self.config.min_liquidity || initial_liquidity_b
            < self.config.min_liquidity {
            Some(DexError::AmountBelowMinimum)
        } else if key.len() > MAX_PAIR_LEN {
            Some(DexError::InvalidTokenPair)
        } else if self.has_pool_for(key) {
            Some(DexError::PoolAlreadyExists)
        } else if self.pools@.len() >= u64::MAX {
            Some(DexError::Overflow)
        } else if total > u128::MAX {
            Some(DexError::Overflow)
        } else if !self.fee_engine.can_collect_spec(
            self.fee_engine.fee_of(pool_fee_type(self.config, total)),
        ) {
            Some(DexError::InsufficientFee)
        } else if initial_liquidity_a * initial_liquidity_b > u128::MAX {
            Some(DexError::Overflow)
        } else {
            None
        }
    }

    /// Creates the pool of the pair `token_a`-`token_b` with the given
    /// initial reserves, charging `creator` the creation fee of its size
    /// tier, and gives the creator all of its first liquidity shares: the
    /// integer square root of the product of the two amounts. Fails when a
    /// symbol is longer than `MAX_SYMBOL_LEN` or the key longer than
    /// `MAX_PAIR_LEN`, an amount is below the configured minimum, the pair
    /// already has a pool, the fee cannot be collected, or the arithmetic
    /// overflows (see `create_pool_error`); a failed call changes nothing.
    pub fn create_pool(
        &mut self,
        token_a: &[u8],
        token_b: &[u8],
        initial_liquidity_a: Balance,
        initial_liquidity_b: Balance,
        creator: AccountId,
    ) -> (r: Result<PoolId, DexError>)
        requires
            old(self).wf(),
        ensures
            final(self).wf(),
            r is Err <==> old(self).create_pool_error(token_a@, token_b@, initial_liquidity_a, initial_liquidity_b) is Some,
            old(self).create_pool_error(token_a@, token_b@, initial_liquidity_a, initial_liquidity_b) matches Some(e)
                ==> r == Err::<PoolId, DexError>(e) && *final(self) == *old(self),
            r matches Ok(id) ==> {
                let n = old(self).pools@.len();
                let p = final(self).pools@[n as int];
                let fee_type = pool_fee_type(old(self).config, initial_liquidity_a + initial_liquidity_b);
                &&& id == n
                &&& final(self).pools@.len() == n + 1
                &&& final(self).pools@.subrange(0, n as int) == old(self).pools@
                &&& p.id == id
                &&& final(self).pool_key(n as int) == pair_key_spec(token_a@, token_b@)
                &&& p.reserve_a == initial_liquidity_a
                &&& p.reserve_b == initial_liquidity_b
                &&& p.lp_token_supply == isqrt_spec(initial_liquidity_a * initial_liquidity_b)
                &&& p.total_liquidity == p.lp_token_supply
                &&& p.fee_collector == creator
                &&& final(self).lp_positions@ == old(self).lp_positions@.push(
                    LpPosition { pool_id: id, account: creator, amount: p.lp_token_supply },
                )
                &&& final(self).fee_engine == old(self).fee_engine.after_collect(
                    old(self).fee_engine.fee_of(fee_type),
                )
                &&& final(self).pairs@.subrange(0, old(self).pairs@.len() as int) == old(self).pairs@
                &&& final(self).pairs@.len() <= old(self).pairs@.len() + 1
                &&& final(self).trading_volume@.subrange(0, old(self).pairs@.len() as int)
                    == old(self).trading_volume@
                &&& forall|i: int|
                    old(self).pairs@.len() <= i < final(self).pairs@.len() ==> final(self).trading_volume@[i] == 0
                &&& final(self).config == old(self).config
                &&& final(self).orders == old(self).orders
                &&& final(self).book == old(self).book
            },
    {
        if token_a.len() > MAX_SYMBOL_LEN || token_b.len() > MAX_SYMBOL_LEN {
            return Err(DexError::InvalidTokenPair);
        }
        if initial_liquidity_a < self.config.min_liquidity || initial_liquidity_b < self.config.min_liquidity {
            return Err(DexError::AmountBelowMinimum);
        }
        let key = pair_key(token_a, token_b);
        if key.len() > MAX_PAIR_LEN {
            return Err(DexError::InvalidTokenPair);
        }
        if self.pool_exists_for(key.as_slice()) {
            return Err(DexError::PoolAlreadyExists);
        }
        let n = self.pools.len();
        if n as u64 >= u64::MAX {
            return Err(DexError::Overflow);
        }
        let total = match initial_liquidity_a.checked_add(initial_liquidity_b) {
            Some(v) => v,
            None => return Err(DexError::Overflow),
        };
        let fee_type = self.pool_fee_type_exec(total);
        let fee = self.fee_engine.get_fee(fee_type);
        if !self.fee_engine.can_collect(fee) {
            return Err(DexError::InsufficientFee);
        }
        let product = match initial_liquidity_a.checked_mul(initial_liquidity_b) {
            Some(v) => v,
            None => return Err(DexError::Overflow),
        };
        let lp = integer_sqrt(product);
        let collected = self.fee_engine.collect_fee(creator, fee_type, fee);
        assert(collected is Ok);
        let ghost before = *self;
        let pair = self.intern_pair(key);
        let id = n as u64;
        let pool = Pool {
            id,
            pair: pair as u64,
            reserve_a: initial_liquidity_a,
            reserve_b: initial_liquidity_b,
            total_liquidity: lp,
            lp_token_supply: lp,
            fee_collector: creator,
        };
        self.pools.push(pool);
        let position = LpPosition { pool_id: id, account: creator, amount: lp };
        self.lp_positions.push(position);
        proof {
            assert(self.pools@.subrange(0, n as int) =~= old(self).pools@);
            let old_positions = old(self).lp_positions@;
            assert forall|i: int| 0 <= i < self.pools@.len() implies {
                let p = #[trigger] self.pools@[i];
                &&& p.id == i
                &&& p.pair < self.pairs@.len()
                &&& p.total_liquidity == p.lp_token_supply
                &&& lp_total(self.lp_positions@, i as u64) == p.lp_token_supply
            } by {
                let pid = i as u64;
                lemma_lp_sum_push(old_positions, position, ShareFilter { pool_id: pid, account: None });
                if i < n {
                    assert(self.pools@[i] == old(self).pools@[i]);
                    assert(lp_total(old_positions, pid) == old(self).pools@[i].lp_token_supply);
                } else {
                    assert(lp_total(old_positions, pid) == 0) by {
                        lemma_no_positions_sum_zero(old_positions, pid);
                    }
                }
            }
            assert forall|i: int, j: int| 0 <= i < j < self.pools@.len() implies #[trigger] self.pools@[i].pair
                != #[trigger] self.pools@[j].pair by {
                if j == n {
                    if self.pools@[i].pair == pair as u64 {
                        assert(old(self).pairs@[old(self).pools@[i].pair as int]@ == key@);
                        assert(old(self).has_pool_for(key@));
                    }
                }
            }
        }
        Ok(id)
    }

    /// Why `add_liquidity` refuses its arguments, in the order the rules are
    /// applied; `None` when it succeeds.
    pub open spec fn add_liquidity_error(&self, pool_id: PoolId, amount_a: Balance, amount_b: Balance) -> Option<DexError> {
        if pool_id >= self.pools@.len() {
            Some(DexError::PoolNotFound)
        } else {
            let p = self.pools@[pool_id as int];
            if mint_error(p.lp_token_supply, p.reserve_a, p.reserve_b, amount_a, amount_b) is Some {
                mint_error(p.lp_token_supply, p.reserve_a, p.reserve_b, amount_a, amount_b)
            } else if p.reserve_a + amount_a > u128::MAX || p.reserve_b + amount_b > u128::MAX
                || p.lp_token_supply + mint_amount(p.lp_token_supply, p.reserve_a, p.reserve_b, amount_a, amount_b)
                > u128::MAX {
                Some(DexError::Overflow)
            } else {
                None
            }
        }
    }

    /// Liquidity shares that a deposit mints (see `mint_amount`).
    pub fn compute_mint(supply: Balance, reserve_a: Balance, reserve_b: Balance, amount_a: Balance, amount_b: Balance) -> (r: Result<Balance, DexError>)
        ensures
            mint_error(supply, reserve_a, reserve_b, amount_a, amount_b) matches Some(e) ==> r == Err::<Balance, DexError>(e),
            mint_error(supply, reserve_a, reserve_b, amount_a, amount_b) is None ==> r == Ok::<Balance, DexError>(
                mint_amount(supply, reserve_a, reserve_b, amount_a, amount_b) as Balance,
            ) && 0 <= mint_amount(supply, reserve_a, reserve_b, amount_a, amount_b) <= u128::MAX,
    {
        if supply == 0 {
            let product = match amount_a.checked_mul(amount_b) {
                Some(v) => v,
                None => return Err(DexError::Overflow),
            };
            return Ok(integer_sqrt(product));
        }
        let scaled_a = match amount_a.checked_mul(supply) {
            Some(v) => v,
            None => return Err(DexError::Overflow),
        };
        if reserve_a == 0 {
            return Err(DexError::Underflow);
        }
        let share_a = scaled_a / reserve_a;
        let scaled_b = match amount_b.checked_mul(supply) {
            Some(v) => v,
            None => return Err(DexError::Overflow),
        };
        if reserve_b == 0 {
            return Err(DexError::Underflow);
        }
        let share_b = scaled_b / reserve_b;
        assert(0 <= (amount_a as int) * (supply as int)) by (nonlinear_arith);
        assert(0 <= (amount_b as int) * (supply as int)) by (nonlinear_arith);
        if share_a <= share_b {
            Ok(share_a)
        } else {
            Ok(share_b)
        }
    }

    /// Deposits `amount_a` and `amount_b` into pool `pool_id` and credits
    /// `provider` with the liquidity shares minted for them (see
    /// `mint_amount`), which are returned.
    pub fn add_liquidity(
        &mut self,
        pool_id: PoolId,
        amount_a: Balance,
        amount_b: Balance,
        provider: AccountId,
    ) -> (r: Result<Balance, DexError>)
        requires
            old(self).wf(),
        ensures
            final(self).wf(),
            r is Err <==> old(self).add_liquidity_error(pool_id, amount_a, amount_b) is Some,
            old(self).add_liquidity_error(pool_id, amount_a, amount_b) matches Some(e) ==> r
                == Err::<Balance, DexError>(e) && *final(self) == *old(self),
            r matches Ok(minted) ==> {
                let p = old(self).pools@[pool_id as int];
                let q = final(self).pools@[pool_id as int];
                &&& minted == mint_amount(p.lp_token_supply, p.reserve_a, p.reserve_b, amount_a, amount_b)
                &&& final(self).pools@ == old(self).pools@.update(pool_id as int, q)
                &&& q == (Pool {
                    reserve_a: (p.reserve_a + amount_a) as Balance,
                    reserve_b: (p.reserve_b + amount_b) as Balance,
                    total_liquidity: (p.lp_token_supply + minted) as Balance,
                    lp_token_supply: (p.lp_token_supply + minted) as Balance,
                    ..p
                })
                &&& lp_total(final(self).lp_positions@, pool_id) == q.lp_token_supply
                &&& lp_held(final(self).lp_positions@, pool_id, provider) == lp_held(
                    old(self).lp_positions@,
                    pool_id,
                    provider,
                ) + minted
                &&& forall|other_pool: PoolId, account: AccountId|
                    !(other_pool == pool_id && account == provider) ==> #[trigger] lp_held(
                        final(self).lp_positions@,
                        other_pool,
                        account,
                    ) == lp_held(old(self).lp_positions@, other_pool, account)
                &&& final(self).config == old(self).config
                &&& final(self).fee_engine == old(self).fee_engine
                &&& final(self).pairs == old(self).pairs
                &&& final(self).trading_volume == old(self).trading_volume
                &&& final(self).orders == old(self).orders
                &&& final(self).book == old(self).book
            },
    {
        if pool_id >= self.pools.len() as u64 {
            return Err(DexError::PoolNotFound);
        }
        let i = pool_id as usize;
        let p = self.pools[i];
        let minted = match Self::compute_mint(p.lp_token_supply, p.reserve_a, p.reserve_b, amount_a, amount_b) {
            Ok(v) => v,
            Err(e) => return Err(e),
        };
        let reserve_a = match p.reserve_a.checked_add(amount_a) {
            Some(v) => v,
            None => return Err(DexError::Overflow),
        };
        let reserve_b = match p.reserve_b.checked_add(amount_b) {
            Some(v) => v,
            None => return Err(DexError::Overflow),
        };
        let supply = match p.lp_token_supply.checked_add(minted) {
            Some(v) => v,
            None => return Err(DexError::Overflow),
        };
        let q = Pool { reserve_a, reserve_b, total_liquidity: supply, lp_token_supply: supply, ..p };
        self.pools.set(i, q);
        self.credit_shares(pool_id, provider, minted);
        assert(self.pools@ =~= old(self).pools@.update(i as int, q));
        Ok(minted)
    }

    /// Index of the position of `account` in pool `pool_id`, if it has one.
    pub fn find_position(&self, pool_id: PoolId, account: AccountId) -> (r: Option<usize>)
        ensures
            r matches Some(j) ==> j < self.lp_positions@.len() && self.lp_positions@[j as int].pool_id == pool_id
                && self.lp_positions@[j as int].account == account,
            r is None ==> forall|k: int|
                0 <= k < self.lp_positions@.len() ==> !((#[trigger] self.lp_positions@[k]).pool_id == pool_id
                    && self.lp_positions@[k].account == account),
    {
        let mut j: usize = 0;
        while j < self.lp_positions.len()
            invariant
                j <= self.lp_positions@.len(),
                forall|k: int|
                    0 <= k < j ==> !((#[trigger] self.lp_positions@[k]).pool_id == pool_id
                        && self.lp_positions@[k].account == account),
            decreases self.lp_positions@.len() - j,
        {
            let e = self.lp_positions[j];
            if e.pool_id == pool_id && e.account == account {
                return Some(j);
            }
            j = j + 1;
        }
        None
    }

    /// Adds `amount` shares of pool `pool_id` to the position of `account`,
    /// opening the position if the account has none.
    fn credit_shares(&mut self, pool_id: PoolId, account: AccountId, amount: Balance)
        requires
            pool_id < old(self).pools@.len(),
            lp_total(old(self).lp_positions@, pool_id) + amount <= u128::MAX,
            forall|k: int|
                0 <= k < old(self).lp_positions@.len() ==> #[trigger] old(self).lp_positions@[k].pool_id
                    < old(self).pools@.len(),
        ensures
            final(self).pools == old(self).pools,
            final(self).config == old(self).config,
            final(self).fee_engine == old(self).fee_engine,
            final(self).pairs == old(self).pairs,
            final(self).trading_volume == old(self).trading_volume,
            final(self).orders == old(self).orders,
            final(self).book == old(self).book,
            forall|k: int|
                0 <= k < final(self).lp_positions@.len() ==> #[trigger] final(self).lp_positions@[k].pool_id
                    < final(self).pools@.len(),
            lp_held(final(self).lp_positions@, pool_id, account) == lp_held(old(self).lp_positions@, pool_id, account)
                + amount,
            forall|other_pool: PoolId, other: AccountId|
                !(other_pool == pool_id && other == account) ==> #[trigger] lp_held(
                    final(self).lp_positions@,
                    other_pool,
                    other,
                ) == lp_held(old(self).lp_positions@, other_pool, other),
            forall|other_pool: PoolId|
                #[trigger] lp_total(final(self).lp_positions@, other_pool) == lp_total(
                    old(self).lp_positions@,
                    other_pool,
                ) + if other_pool == pool_id { amount as int } else { 0 },
    {
        let ghost s = self.lp_positions@;
        match self.find_position(pool_id, account) {
            Some(j) => {
                let e = self.lp_positions[j];
                proof {
                    lemma_lp_sum_bounds(s, j as int, ShareFilter { pool_id, account: None });
                }
                let updated = LpPosition { amount: e.amount + amount, ..e };
                self.lp_positions.set(j, updated);
                proof {
                    assert forall|other_pool: PoolId, other: AccountId| true implies #[trigger] lp_held(
                        self.lp_positions@,
                        other_pool,
                        other,
                    ) == lp_held(s, other_pool, other) + if other_pool == pool_id && other == account {
                        amount as int
                    } else {
                        0
                    } by {
                        lemma_lp_sum_update(s, j as int, updated, ShareFilter { pool_id: other_pool, account: Some(other) });
                    }
                    assert forall|other_pool: PoolId| true implies #[trigger] lp_total(
                        self.lp_positions@,
                        other_pool,
                    ) == lp_total(s, other_pool) + if other_pool == pool_id { amount as int } else { 0 } by {
                        lemma_lp_sum_update(s, j as int, updated, ShareFilter { pool_id: other_pool, account: None });
                    }
                }
                return;
            },
            None => {},
        }
        let position = LpPosition { pool_id, account, amount };
        self.lp_positions.push(position);
        proof {
            assert forall|other_pool: PoolId, other: AccountId| true implies #[trigger] lp_held(
                self.lp_positions@,
                other_pool,
                other,
            ) == lp_held(s, other_pool, other) + if other_pool == pool_id && other == account {
                amount as int
            } else {
                0
            } by {
                lemma_lp_sum_push(s, position, ShareFilter { pool_id: other_pool, account: Some(other) });
            }
            assert forall|other_pool: PoolId| true implies #[trigger] lp_total(
                self.lp_positions@,
                other_pool,
            ) == lp_total(s, other_pool) + if other_pool == pool_id { amount as int } else { 0 } by {
                lemma_lp_sum_push(s, position, ShareFilter { pool_id: other_pool, account: None });
            }
        }
    }

    /// Pool `pool_id`, if it exists.
    pub fn get_pool(&self, pool_id: PoolId) -> (r: Option<Pool>)
        ensures
            pool_id < self.pools@.len() ==> r == Some(self.pools@[pool_id as int]),
            pool_id >= self.pools@.len() ==> r is None,
    {
        if pool_id >= self.pools.len() as u64 {
            return None;
        }
        Some(self.pools[pool_id as usize])
    }

    /// Id that the next pool created will get.
    pub fn next_pool_id(&self) -> (r: usize)
        ensures
            r == self.pools@.len(),
    {
        self.pools.len()
    }

    /// Liquidity shares that `account` holds in pool `pool_id`.
    pub fn get_lp_balance(&self, pool_id: PoolId, account: AccountId) -> (r: Balance)
        requires
            self.wf(),
        ensures
            r == lp_held(self.lp_positions@, pool_id, account),
    {
        let ghost s = self.lp_positions@;
        let mut total: Balance = 0;
        let mut i: usize = 0;
        while i < self.lp_positions.len()
            invariant
                self.wf(),
                s == self.lp_positions@,
                i <= s.len(),
                total == lp_held(s.subrange(0, i as int), pool_id, account),
            decreases s.len() - i,
        {
            let e = self.lp_positions[i];
            proof {
                assert(s.subrange(0, i + 1).drop_last() =~= s.subrange(0, i as int));
                lemma_held_prefix_bounded(s, i + 1, pool_id, account);
                if e.pool_id == pool_id {
                    assert(lp_total(s, pool_id) == self.pools@[pool_id as int].lp_token_supply);
                } else {
                    lemma_lp_sum_nonneg(s.subrange(0, i as int), ShareFilter { pool_id, account: Some(account) });
                }
            }
            if e.pool_id == pool_id && e.account == account {
                total = total + e.amount;
            }
            i = i + 1;
        }
        assert(s.subrange(0, s.len() as int) =~= s);
        total
    }

    /// Cumulative amount traded through the pools of the pair with key
    /// `token_pair`; 0 for a pair never used.
    pub fn get_trading_volume(&self, token_pair: &[u8]) -> (r: Balance)
        requires
            self.wf(),
        ensures
            forall|i: int| 0 <= i < self.pairs@.len() && self.pairs@[i]@ == token_pair@ ==> r
                == self.trading_volume@[i],
            (forall|i: int| 0 <= i < self.pairs@.len() ==> self.pairs@[i]@ != token_pair@) ==> r == 0,
    {
        match self.find_pair(token_pair) {
            Some(i) => {
                proof {
                    assert forall|j: int| 0 <= j < self.pairs@.len() && self.pairs@[j]@ == token_pair@ implies j
                        == i by {
                        if j < i {
                            assert(self.pairs@[j]@ != self.pairs@[i as int]@);
                        } else if j > i {
                            assert(self.pairs@[i as int]@ != self.pairs@[j]@);
                        }
                    }
                }
                self.trading_volume[i]
            },
            None => 0,
        }
    }
}

/// Shares held by one account in a prefix of the positions never exceed the
/// pool's total.
pub proof fn lemma_held_prefix_bounded(s: Seq<LpPosition>, i: int, pool_id: PoolId, account: AccountId)
    requires
        0 <= i <= s.len(),
    ensures
        lp_held(s.subrange(0, i), pool_id, account) <= lp_total(s, pool_id),
    decreases s.len(),
{
    if i == s.len() {
        assert(s.subrange(0, i) =~= s);
        lemma_held_le_total(s, pool_id, account);
    } else {
        lemma_held_prefix_bounded(s.drop_last(), i, pool_id, account);
        assert(s.drop_last().subrange(0, i) =~= s.subrange(0, i));
    }
}

/// One account's shares in a pool never exceed the pool's total.
pub proof fn lemma_held_le_total(s: Seq<LpPosition>, pool_id: PoolId, account: AccountId)
    ensures
        lp_held(s, pool_id, account) <= lp_total(s, pool_id),
    decreases s.len(),
{
    if s.len() > 0 {
        lemma_held_le_total(s.drop_last(), pool_id, account);
    }
}

/// A pool that no position belongs to holds no shares.
pub proof fn lemma_no_positions_sum_zero(s: Seq<LpPosition>, pool_id: PoolId)
    requires
        forall|k: int| 0 <= k < s.len() ==> (#[trigger] s[k]).pool_id != pool_id,
    ensures
        lp_total(s, pool_id) == 0,
    decreases s.len(),
{
    if s.len() > 0 {
        lemma_no_positions_sum_zero(s.drop_last(), pool_id);
    }
}

} // verus!
