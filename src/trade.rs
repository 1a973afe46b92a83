//! Constant-product swaps against a pool.
use vstd::prelude::*;
use crate::dex::{Dex, DexError, Pool, PoolId, TradeReceipt};
use crate::fee_engine::{AccountId, Balance, TX_TYPE_DEX_TRADING};
use crate::math::{lemma_swap_keeps_product, quote_spec, quote_swap, QuoteError};
use crate::pair::{find_direction, trade_direction};

verus! {

/// The reserves of a pool ordered as (paid in, paid out) for a trade in
/// the given direction.
pub open spec fn oriented(p: Pool, a_to_b: bool) -> (Balance, Balance) {
    if a_to_b { (p.reserve_a, p.reserve_b) } else { (p.reserve_b, p.reserve_a) }
}

/// The pool after a swap in the given direction took `amount_in` and paid
/// `amount_out`: the whole input, fee included, stays in the pool.
pub open spec fn after_swap(p: Pool, a_to_b: bool, amount_in: Balance, amount_out: Balance) -> Pool {
    if a_to_b {
        Pool { reserve_a: (p.reserve_a + amount_in) as Balance, reserve_b: (p.reserve_b - amount_out) as Balance, ..p }
    } else {
        Pool { reserve_a: (p.reserve_a - amount_out) as Balance, reserve_b: (p.reserve_b + amount_in) as Balance, ..p }
    }
}

impl Dex {
    /// Why `amm_trade` refuses its arguments, in the order the rules are
    /// applied; `None` when it succeeds.
    pub open spec fn amm_trade_error(
        &self,
        pool_id: PoolId,
        token_in: Seq<u8>,
        amount_in: Balance,
        min_amount_out: Balance,
    ) -> Option<DexError> {
        if pool_id >= self.pools@.len() {
            Some(DexError::PoolNotFound)
        } else {
            let p = self.pools@[pool_id as int];
            match trade_direction(self.pool_key(pool_id as int), token_in) {
                None => Some(DexError::InvalidTokenPair),
                Some(a_to_b) => {
                    let (reserve_in, reserve_out) = oriented(p, a_to_b);
                    match quote_spec(reserve_in, reserve_out, amount_in, self.config.trading_fee_bps) {
                        Err(QuoteError::Overflow) => Some(DexError::Overflow),
                        Err(QuoteError::Underflow) => Some(DexError::Underflow),
                        Ok(q) => {
                            if q.amount_out < min_amount_out {
                                Some(DexError::SlippageExceeded)
                            } else if !self.fee_engine.can_collect_spec(
                                self.fee_engine.fee_of(TX_TYPE_DEX_TRADING),
                            ) {
                                Some(DexError::InsufficientFee)
                            } else if reserve_in + amount_in > u128::MAX {
                                Some(DexError::Overflow)
                            } else if self.trading_volume@[p.pair as int] + amount_in > u128::MAX {
                                Some(DexError::Overflow)
                            } else {
                                None
                            }
                        },
                    }
                },
            }
        }
    }

    /// Swaps `amount_in` of `token_in` through pool `pool_id` for the pool's
    /// other token. The trading fee (`trading_fee_bps` of the input, rounded
    /// down) is taken off the input before pricing, the output is
    /// `reserve_out * net / (reserve_in + net)` rounded down, and the whole
    /// input stays in the pool. Fails when the output is below
    /// `min_amount_out`. Charges `trader` the protocol's trading fee and adds
    /// `amount_in` to the pair's trading volume.
    pub fn amm_trade(
        &mut self,
        pool_id: PoolId,
        token_in: &[u8],
        amount_in: Balance,
        min_amount_out: Balance,
        trader: AccountId,
    ) -> (r: Result<TradeReceipt, DexError>)
        requires
            old(self).wf(),
        ensures
            final(self).wf(),
            r is Err <==> old(self).amm_trade_error(pool_id, token_in@, amount_in, min_amount_out) is Some,
            old(self).amm_trade_error(pool_id, token_in@, amount_in, min_amount_out) matches Some(e) ==> r
                == Err::<TradeReceipt, DexError>(e) && *final(self) == *old(self),
            r matches Ok(receipt) ==> {
                let p = old(self).pools@[pool_id as int];
                let a_to_b = trade_direction(old(self).pool_key(pool_id as int), token_in@)->Some_0;
                let (reserve_in, reserve_out) = oriented(p, a_to_b);
                let q = quote_spec(reserve_in, reserve_out, amount_in, old(self).config.trading_fee_bps)->Ok_0;
                let p2 = final(self).pools@[pool_id as int];
                &&& receipt == TradeReceipt { amount_out: q.amount_out, fee: q.fee }
                &&& p2 == after_swap(p, a_to_b, amount_in, q.amount_out)
                &&& p2.reserve_a * p2.reserve_b >= p.reserve_a * p.reserve_b
                &&& final(self).pools@ == old(self).pools@.update(pool_id as int, p2)
                &&& final(self).trading_volume@ == old(self).trading_volume@.update(
                    p.pair as int,
                    (old(self).trading_volume@[p.pair as int] + amount_in) as Balance,
                )
                &&& final(self).fee_engine == old(self).fee_engine.after_collect(
                    old(self).fee_engine.fee_of(TX_TYPE_DEX_TRADING),
                )
                &&& final(self).config == old(self).config
                &&& final(self).pairs == old(self).pairs
                &&& final(self).lp_positions == old(self).lp_positions
                &&& final(self).orders == old(self).orders
                &&& final(self).book == old(self).book
            },
    {
        if pool_id >= self.pools.len() as u64 {
            return Err(DexError::PoolNotFound);
        }
        let i = pool_id as usize;
        let p = self.pools[i];
        let num_pairs = self.pairs.len();
        assert(p.pair < num_pairs);
        let pair = p.pair as usize;
        let a_to_b = match find_direction(self.pairs[pair].as_slice(), token_in) {
            Some(d) => d,
            None => return Err(DexError::InvalidTokenPair),
        };
        let (reserve_in, reserve_out) = if a_to_b {
            (p.reserve_a, p.reserve_b)
        } else {
            (p.reserve_b, p.reserve_a)
        };
        let q = match quote_swap(reserve_in, reserve_out, amount_in, self.config.trading_fee_bps) {
            Ok(q) => q,
            Err(QuoteError::Overflow) => return Err(DexError::Overflow),
            Err(QuoteError::Underflow) => return Err(DexError::Underflow),
        };
        if q.amount_out < min_amount_out {
            return Err(DexError::SlippageExceeded);
        }
        let protocol_fee = self.fee_engine.get_fee(TX_TYPE_DEX_TRADING);
        if !self.fee_engine.can_collect(protocol_fee) {
            return Err(DexError::InsufficientFee);
        }
        let new_reserve_in = match reserve_in.checked_add(amount_in) {
            Some(v) => v,
            None => return Err(DexError::Overflow),
        };
        proof {
            lemma_swap_keeps_product(reserve_in, reserve_out, amount_in, self.config.trading_fee_bps);
        }
        let new_reserve_out = reserve_out - q.amount_out;
        let volume = match self.trading_volume[pair].checked_add(amount_in) {
            Some(v) => v,
            None => return Err(DexError::Overflow),
        };
        let collected = self.fee_engine.collect_fee(trader, TX_TYPE_DEX_TRADING, protocol_fee);
        assert(collected is Ok);
        self.trading_volume.set(pair, volume);
        let updated = if a_to_b {
            Pool { reserve_a: new_reserve_in, reserve_b: new_reserve_out, ..p }
        } else {
            Pool { reserve_a: new_reserve_out, reserve_b: new_reserve_in, ..p }
        };
        self.pools.set(i, updated);
        proof {
            assert(updated.reserve_a * updated.reserve_b == new_reserve_in * new_reserve_out) by (nonlinear_arith)
                requires
                    (a_to_b && updated.reserve_a == new_reserve_in && updated.reserve_b == new_reserve_out) || (!a_to_b
                        && updated.reserve_a == new_reserve_out && updated.reserve_b == new_reserve_in),
            ;
            assert(p.reserve_a * p.reserve_b == reserve_in * reserve_out) by (nonlinear_arith)
                requires
                    (a_to_b && p.reserve_a == reserve_in && p.reserve_b == reserve_out) || (!a_to_b && p.reserve_a
                        == reserve_out && p.reserve_b == reserve_in),
            ;
        }
        Ok(TradeReceipt { amount_out: q.amount_out, fee: q.fee })
    }

    /// Output of swapping `amount_in` against reserves `reserve_in` /
    /// `reserve_out` at this exchange's trading fee, or `None` where the
    /// arithmetic leaves the balance type or divides by zero.
    pub fn calculate_amm_output(&self, reserve_in: Balance, reserve_out: Balance, amount_in: Balance) -> (r: Option<Balance>)
        ensures
            r == match quote_spec(reserve_in, reserve_out, amount_in, self.config.trading_fee_bps) {
                Ok(q) => Some(q.amount_out),
                Err(_) => None::<Balance>,
            },
    {
        match quote_swap(reserve_in, reserve_out, amount_in, self.config.trading_fee_bps) {
            Ok(q) => Some(q.amount_out),
            Err(_) => None,
        }
    }

    /// The reserves `(reserve_a, reserve_b)` of pool `pool_id`, which price
    /// its pair, or `None` if there is no such pool.
    pub fn get_amm_price(&self, pool_id: PoolId) -> (r: Option<(Balance, Balance)>)
        ensures
            pool_id < self.pools@.len() ==> r == Some(
                (self.pools@[pool_id as int].reserve_a, self.pools@[pool_id as int].reserve_b),
            ),
            pool_id >= self.pools@.len() ==> r is None,
    {
        if pool_id >= self.pools.len() as u64 {
            return None;
        }
        let p = self.pools[pool_id as usize];
        Some((p.reserve_a, p.reserve_b))
    }
}

} // verus!
