//! The exchange state: liquidity pools with their providers' shares, and the
//! registry of token pairs that pools and orders trade.
use vstd::prelude::*;
use crate::fee_engine::{AccountId, Balance, FeeEngine, TransactionType};
use crate::fee_engine::{TX_TYPE_POOL_LARGE, TX_TYPE_POOL_MEDIUM, TX_TYPE_POOL_SMALL};
use crate::math::isqrt_spec;
use crate::pair::bytes_eq;

verus! {

/// Pool identifier: pools are numbered from 0 in order of creation.
pub type PoolId = u64;

/// Order identifier: orders are numbered from 0 in order of placement.
pub type OrderId = u64;

/// Side of an order: `ORDER_SIDE_BUY` or `ORDER_SIDE_SELL`.
pub type OrderSide = u8;

pub const ORDER_SIDE_BUY: OrderSide = 0;
pub const ORDER_SIDE_SELL: OrderSide = 1;

/// Status of an order.
pub type OrderStatus = u8;

pub const ORDER_STATUS_OPEN: OrderStatus = 0;
pub const ORDER_STATUS_PARTIALLY_FILLED: OrderStatus = 1;
pub const ORDER_STATUS_FILLED: OrderStatus = 2;
pub const ORDER_STATUS_CANCELLED: OrderStatus = 3;

/// Most orders that one price level of one side may hold.
pub const MAX_ORDERS_PER_LEVEL: usize = 100;

/// Errors of the exchange.
#[derive(Clone, Copy, Debug, PartialEq, Eq, Structural)]
pub enum DexError {
    /// Pool already exists for this token pair.
    PoolAlreadyExists,
    /// Pool does not exist.
    PoolNotFound,
    /// Insufficient liquidity in pool.
    InsufficientLiquidity,
    /// The caller does not own the order.
    InsufficientBalance,
    /// Amount is below minimum required.
    AmountBelowMinimum,
    /// Slippage tolerance exceeded.
    SlippageExceeded,
    /// Invalid token pair (or order side).
    InvalidTokenPair,
    /// Order not found.
    OrderNotFound,
    /// Order is not open.
    OrderNotOpen,
    /// Insufficient order amount.
    InsufficientOrderAmount,
    /// Price impact too high.
    PriceImpactTooHigh,
    /// Operation would overflow (or a price level is full).
    Overflow,
    /// Operation would underflow.
    Underflow,
    /// The protocol fee could not be collected.
    InsufficientFee,
}

/// Parameters of the exchange.
#[derive(Clone, Copy, Debug, PartialEq, Eq, Structural)]
pub struct DexConfig {
    /// Trading fee kept in the pool on each swap, in basis points.
    pub trading_fee_bps: u32,
    /// Liquidity providers' fee, in basis points.
    pub lp_fee_bps: u32,
    /// Least amount of each token that a new pool must start with; at
    /// least 1, so that no pool starts with an empty reserve.
    pub min_liquidity: Balance,
    /// Largest slippage tolerance, in basis points.
    pub max_slippage_bps: u32,
    /// Pools whose two initial amounts sum below this pay the small creation fee.
    pub small_pool_limit: Balance,
    /// Pools below this (and not small) pay the medium creation fee; the rest the large one.
    pub medium_pool_limit: Balance,
}

/// A constant-product liquidity pool.
#[derive(Clone, Copy, Debug, PartialEq, Eq, Structural)]
pub struct Pool {
    pub id: PoolId,
    /// Index of the pool's token pair in the pair registry.
    pub pair: u64,
    pub reserve_a: Balance,
    pub reserve_b: Balance,
    pub total_liquidity: Balance,
    pub lp_token_supply: Balance,
    pub fee_collector: AccountId,
}

/// The liquidity shares of one account in one pool.
#[derive(Clone, Copy, Debug, PartialEq, Eq, Structural)]
pub struct LpPosition {
    pub pool_id: PoolId,
    pub account: AccountId,
    pub amount: Balance,
}

/// A limit order.
#[derive(Clone, Copy, Debug, PartialEq, Eq, Structural)]
pub struct Order {
    pub id: OrderId,
    pub trader: AccountId,
    /// Index of the order's token pair in the pair registry.
    pub pair: u64,
    pub side: OrderSide,
    pub amount: Balance,
    pub price: Balance,
    pub filled_amount: Balance,
    pub status: OrderStatus,
}

/// An order resting in the book, under its pair, side and price level.
#[derive(Clone, Copy, Debug, PartialEq, Eq, Structural)]
pub struct BookEntry {
    pub pair: u64,
    pub side: OrderSide,
    pub price: Balance,
    pub order_id: OrderId,
}

/// What a swap paid out, and the trading fee it kept in the pool.
#[derive(Clone, Copy, Debug, PartialEq, Eq, Structural)]
pub struct TradeReceipt {
    pub amount_out: Balance,
    pub fee: Balance,
}

/// The whole state of the exchange.
pub struct Dex {
    pub config: DexConfig,
    /// The fee module that pool creation and trades pay protocol fees to.
    pub fee_engine: FeeEngine,
    /// Every token-pair key that a pool or an order has used, each once.
    pub pairs: Vec<Vec<u8>>,
    /// Cumulative amount traded through the pools of each pair, by pair index.
    pub trading_volume: Vec<Balance>,
    /// Pools by id.
    pub pools: Vec<Pool>,
    /// Liquidity shares held by accounts.
    pub lp_positions: Vec<LpPosition>,
    /// Orders by id.
    pub orders: Vec<Order>,
    /// Resting orders, in order of placement.
    pub book: Vec<BookEntry>,
}

/// An order that may still be filled or cancelled.
pub open spec fn is_live(status: OrderStatus) -> bool {
    status == ORDER_STATUS_OPEN || status == ORDER_STATUS_PARTIALLY_FILLED
}

/// Which positions a sum of shares counts: those of one pool, or of one
/// account in one pool.
#[derive(Clone, Copy, Debug, PartialEq, Eq, Structural)]
pub struct ShareFilter {
    pub pool_id: PoolId,
    pub account: Option<AccountId>,
}

/// Whether `f` counts position `e`.
pub open spec fn counts(f: ShareFilter, e: LpPosition) -> bool {
    &&& e.pool_id == f.pool_id
    &&& (f.account matches Some(a) ==> e.account == a)
}

/// Sum of the shares in `s` that `f` counts.
pub open spec fn lp_sum_where(s: Seq<LpPosition>, f: ShareFilter) -> int
    decreases s.len(),
{
    if s.len() == 0 {
        0
    } else {
        lp_sum_where(s.drop_last(), f) + if counts(f, s.last()) { s.last().amount as int } else { 0 }
    }
}

/// Sum of the shares in `s` of pool `pool_id`.
pub open spec fn lp_total(s: Seq<LpPosition>, pool_id: PoolId) -> int {
    lp_sum_where(s, ShareFilter { pool_id, account: None })
}

/// Shares that `account` holds in pool `pool_id` according to `s`.
pub open spec fn lp_held(s: Seq<LpPosition>, pool_id: PoolId, account: AccountId) -> int {
    lp_sum_where(s, ShareFilter { pool_id, account: Some(account) })
}

/// Appending a position adds its amount to every sum that selects it.
pub proof fn lemma_lp_sum_push(s: Seq<LpPosition>, x: LpPosition, f: ShareFilter)
    ensures
        lp_sum_where(s.push(x), f) == lp_sum_where(s, f) + if counts(f, x) { x.amount as int } else { 0 },
{
    assert(s.push(x).drop_last() =~= s);
}

/// Replacing one position changes a sum by the difference of the two
/// amounts, when the sum selects both of them.
pub proof fn lemma_lp_sum_update(s: Seq<LpPosition>, j: int, x: LpPosition, f: ShareFilter)
    requires
        0 <= j < s.len(),
        counts(f, x) == counts(f, s[j]),
    ensures
        lp_sum_where(s.update(j, x), f) == lp_sum_where(s, f) + if counts(f, x) { x.amount - s[j].amount } else { 0 },
    decreases s.len(),
{
    if j == s.len() - 1 {
        assert(s.update(j, x).drop_last() =~= s.drop_last());
    } else {
        lemma_lp_sum_update(s.drop_last(), j, x, f);
        assert(s.update(j, x).drop_last() =~= s.drop_last().update(j, x));
    }
}

/// A selected position is part of the sum, which is never negative.
pub proof fn lemma_lp_sum_bounds(s: Seq<LpPosition>, j: int, f: ShareFilter)
    requires
        0 <= j < s.len(),
        counts(f, s[j]),
    ensures
        s[j].amount <= lp_sum_where(s, f),
    decreases s.len(),
{
    lemma_lp_sum_nonneg(s.drop_last(), f);
    if j < s.len() - 1 {
        lemma_lp_sum_bounds(s.drop_last(), j, f);
    }
}

/// Sums of shares are never negative.
pub proof fn lemma_lp_sum_nonneg(s: Seq<LpPosition>, f: ShareFilter)
    ensures
        0 <= lp_sum_where(s, f),
    decreases s.len(),
{
    if s.len() > 0 {
        lemma_lp_sum_nonneg(s.drop_last(), f);
    }
}

/// Fee type of a new pool, by the sum of its two initial amounts.
pub open spec fn pool_fee_type(config: DexConfig, total: int) -> TransactionType {
    if total < config.small_pool_limit {
        TX_TYPE_POOL_SMALL
    } else if total < config.medium_pool_limit {
        TX_TYPE_POOL_MEDIUM
    } else {
        TX_TYPE_POOL_LARGE
    }
}

/// Why a deposit of `amount_a` and `amount_b` into a pool with the given
/// share supply and reserves cannot be priced, if it cannot: a product
/// that exceeds the balance type, or a zero reserve to divide by.
pub open spec fn mint_error(supply: Balance, reserve_a: Balance, reserve_b: Balance, amount_a: Balance, amount_b: Balance) -> Option<DexError> {
    if supply == 0 {
        if amount_a * amount_b > u128::MAX { Some(DexError::Overflow) } else { None }
    } else if amount_a * supply > u128::MAX {
        Some(DexError::Overflow)
    } else if reserve_a == 0 {
        Some(DexError::Underflow)
    } else if amount_b * supply > u128::MAX {
        Some(DexError::Overflow)
    } else if reserve_b == 0 {
        Some(DexError::Underflow)
    } else {
        None
    }
}

/// Liquidity shares minted for depositing `amount_a` and `amount_b`: with
/// no shares out, the geometric mean of the amounts; otherwise each side is
/// priced against the supply and the smaller share count is minted (what
/// the larger side brings beyond it stays in the pool).
pub open spec fn mint_amount(supply: Balance, reserve_a: Balance, reserve_b: Balance, amount_a: Balance, amount_b: Balance) -> int {
    if supply == 0 {
        isqrt_spec(amount_a * amount_b)
    } else {
        let share_a = amount_a * supply / (reserve_a as int);
        let share_b = amount_b * supply / (reserve_b as int);
        if share_a <= share_b { share_a } else { share_b }
    }
}

impl Dex {
    /// The pool invariant: ids match positions, the share supply equals the
    /// total liquidity and the sum of the providers' shares, and no two
    /// pools trade the same pair.
    pub open spec fn pools_wf(&self) -> bool {
        &&& forall|i: int|
            0 <= i < self.pools@.len() ==> {
                let p = #[trigger] self.pools@[i];
                &&& p.id == i
                &&& p.pair < self.pairs@.len()
                &&& p.total_liquidity == p.lp_token_supply
                &&& p.reserve_a > 0
                &&& p.reserve_b > 0
                &&& lp_total(self.lp_positions@, i as u64) == p.lp_token_supply
            }
        &&& forall|i: int, j: int|
            0 <= i < j < self.pools@.len() ==> #[trigger] self.pools@[i].pair != #[trigger] self.pools@[j].pair
        &&& forall|k: int|
            0 <= k < self.lp_positions@.len() ==> #[trigger] self.lp_positions@[k].pool_id < self.pools@.len()
    }

    /// The pair registry holds each key once, with a volume counter each.
    pub open spec fn pairs_wf(&self) -> bool {
        &&& self.trading_volume@.len() == self.pairs@.len()
        &&& forall|i: int, j: int|
            0 <= i < j < self.pairs@.len() ==> #[trigger] self.pairs@[i]@ != #[trigger] self.pairs@[j]@
    }

    /// The order invariant: ids match positions, fills never exceed the
    /// amount, and the status agrees with the fill.
    pub open spec fn orders_wf(&self) -> bool {
        forall|k: int|
            0 <= k < self.orders@.len() ==> {
                let o = #[trigger] self.orders@[k];
                &&& o.id == k
                &&& o.pair < self.pairs@.len()
                &&& o.side == ORDER_SIDE_BUY || o.side == ORDER_SIDE_SELL
                &&& o.amount > 0
                &&& o.price > 0
                &&& o.filled_amount <= o.amount
                &&& o.status <= ORDER_STATUS_CANCELLED
                &&& o.status == ORDER_STATUS_OPEN ==> o.filled_amount == 0
                &&& o.status == ORDER_STATUS_PARTIALLY_FILLED ==> 0 < o.filled_amount < o.amount
                &&& o.status == ORDER_STATUS_FILLED ==> o.filled_amount == o.amount
            }
    }

    /// The book invariant: each entry is a live order, filed under its own
    /// pair, side and price, each order at most once, every live order rests
    /// in the book, and no resting buy of a pair is priced at or above a
    /// resting sell of that pair.
    pub open spec fn book_wf(&self) -> bool {
        &&& forall|i: int|
            0 <= i < self.book@.len() ==> {
                let e = #[trigger] self.book@[i];
                &&& e.order_id < self.orders@.len()
                &&& self.orders@[e.order_id as int].pair == e.pair
                &&& self.orders@[e.order_id as int].side == e.side
                &&& self.orders@[e.order_id as int].price == e.price
                &&& is_live(self.orders@[e.order_id as int].status)
            }
        &&& forall|i: int, j: int|
            0 <= i < j < self.book@.len() ==> #[trigger] self.book@[i].order_id != #[trigger] self.book@[j].order_id
        &&& forall|k: int|
            0 <= k < self.orders@.len() && is_live(#[trigger] self.orders@[k].status) ==> exists|i: int|
                0 <= i < self.book@.len() && self.book@[i].order_id == k
        &&& forall|i: int, j: int|
            0 <= i < self.book@.len() && 0 <= j < self.book@.len() && #[trigger] self.book@[i].pair
                == #[trigger] self.book@[j].pair && self.book@[i].side == ORDER_SIDE_BUY && self.book@[j].side
                == ORDER_SIDE_SELL ==> self.book@[i].price < self.book@[j].price
    }

    /// Well-formed exchange state.
    pub open spec fn wf(&self) -> bool {
        &&& self.config.min_liquidity >= 1
        &&& self.fee_engine.wf()
        &&& self.pairs_wf()
        &&& self.pools_wf()
        &&& self.orders_wf()
        &&& self.book_wf()
    }

    /// Some pool trades the pair with key `key`.
    pub open spec fn has_pool_for(&self, key: Seq<u8>) -> bool {
        exists|i: int| 0 <= i < self.pools@.len() && self.pairs@[self.pools@[i].pair as int]@ == key
    }

    /// Key of the pair of pool `pool_id`.
    pub open spec fn pool_key(&self, pool_id: int) -> Seq<u8> {
        self.pairs@[self.pools@[pool_id].pair as int]@
    }

    /// An empty exchange with the given parameters and fee module.
    pub fn new(config: DexConfig, fee_engine: FeeEngine) -> (r: Dex)
        requires
            fee_engine.wf(),
            config.min_liquidity >= 1,
        ensures
            r.wf(),
            r.config == config,
            r.fee_engine == fee_engine,
            r.pairs@.len() == 0,
            r.pools@.len() == 0,
            r.lp_positions@.len() == 0,
            r.orders@.len() == 0,
            r.book@.len() == 0,
    {
        Dex {
            config,
            fee_engine,
            pairs: Vec::new(),
            trading_volume: Vec::new(),
            pools: Vec::new(),
            lp_positions: Vec::new(),
            orders: Vec::new(),
            book: Vec::new(),
        }
    }

    /// Index of the pair with key `key`, if registered.
    pub fn find_pair(&self, key: &[u8]) -> (r: Option<usize>)
        requires
            self.pairs_wf(),
        ensures
            r matches Some(i) ==> i < self.pairs@.len() && self.pairs@[i as int]@ == key@,
            r is None ==> forall|i: int| 0 <= i < self.pairs@.len() ==> self.pairs@[i]@ != key@,
    {
        let mut i: usize = 0;
        while i < self.pairs.len()
            invariant
                i <= self.pairs@.len(),
                forall|j: int| 0 <= j < i ==> self.pairs@[j]@ != key@,
            decreases self.pairs@.len() - i,
        {
            if bytes_eq(self.pairs[i].as_slice(), key) {
                return Some(i);
            }
            i = i + 1;
        }
        None
    }

    /// Id of the pool that trades pair `pair`, if any.
    pub fn find_pool_of_pair(&self, pair: u64) -> (r: Option<usize>)
        requires
            self.pools_wf(),
        ensures
            r matches Some(i) ==> i < self.pools@.len() && self.pools@[i as int].pair == pair,
            r is None ==> forall|i: int| 0 <= i < self.pools@.len() ==> self.pools@[i].pair != pair,
    {
        let mut i: usize = 0;
        while i < self.pools.len()
            invariant
                i <= self.pools@.len(),
                forall|j: int| 0 <= j < i ==> self.pools@[j].pair != pair,
            decreases self.pools@.len() - i,
        {
            if self.pools[i].pair == pair {
                return Some(i);
            }
            i = i + 1;
        }
        None
    }
}

} // verus!
