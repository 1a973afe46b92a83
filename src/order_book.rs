//! The limit order book: placement with price-time priority matching, and
//! cancellation.
use vstd::prelude::*;
use crate::dex::{is_live, BookEntry, Dex, DexError, Order, OrderId, OrderSide, OrderStatus};
use crate::dex::{MAX_ORDERS_PER_LEVEL, ORDER_SIDE_BUY, ORDER_SIDE_SELL};
use crate::dex::{ORDER_STATUS_CANCELLED, ORDER_STATUS_FILLED, ORDER_STATUS_OPEN, ORDER_STATUS_PARTIALLY_FILLED};
use crate::fee_engine::{AccountId, Balance, FeeEngine, TX_TYPE_DEX_TRADING};
use crate::pair::MAX_PAIR_LEN;

verus! {

/// The side that trades against `side`.
pub open spec fn opposite(side: OrderSide) -> OrderSide {
    if side == ORDER_SIDE_BUY { ORDER_SIDE_SELL } else { ORDER_SIDE_BUY }
}

/// Whether a resting order at `maker_price` can trade with an incoming
/// order of side `taker_side` limited at `limit`.
pub open spec fn crosses(taker_side: OrderSide, limit: Balance, maker_price: Balance) -> bool {
    if taker_side == ORDER_SIDE_BUY { maker_price <= limit } else { maker_price >= limit }
}

/// Entry `i` of `book` can trade with an incoming order of the given pair,
/// side and limit price.
pub open spec fn eligible(book: Seq<BookEntry>, i: int, pair: u64, taker_side: OrderSide, limit: Balance) -> bool {
    &&& 0 <= i < book.len()
    &&& book[i].pair == pair
    &&& book[i].side == opposite(taker_side)
    &&& crosses(taker_side, limit, book[i].price)
}

/// Entry `i` of `book` comes before entry `j` for an incoming order of side
/// `taker_side`: at a better price (lower for a buyer, higher for a seller),
/// or at the same price and placed no later.
pub open spec fn ahead(book: Seq<BookEntry>, taker_side: OrderSide, i: int, j: int) -> bool {
    if taker_side == ORDER_SIDE_BUY {
        book[i].price < book[j].price || (book[i].price == book[j].price && i <= j)
    } else {
        book[i].price > book[j].price || (book[i].price == book[j].price && i <= j)
    }
}

/// Status of an order of `amount` of which `filled` has traded.
pub open spec fn fill_status(filled: Balance, amount: Balance) -> OrderStatus {
    if filled == 0 {
        ORDER_STATUS_OPEN
    } else if filled < amount {
        ORDER_STATUS_PARTIALLY_FILLED
    } else {
        ORDER_STATUS_FILLED
    }
}

/// `o2` is `o1` or a further fill of it: only a live order trades, only its
/// fill and status change, the fill grows, and the status follows the fill.
pub open spec fn filled_from(o1: Order, o2: Order) -> bool {
    ||| o2 == o1
    ||| {
        &&& is_live(o1.status)
        &&& o2 == (Order { filled_amount: o2.filled_amount, status: o2.status, ..o1 })
        &&& o2.filled_amount > o1.filled_amount
        &&& o2.status == fill_status(o2.filled_amount, o2.amount)
    }
}

/// Price-time priority of a round of matching: every entry of `book` whose
/// order traded (its record differs between `before` and `after`) was ahead
/// of every entry that could have traded and did not.
pub open spec fn traded_in_priority(
    book: Seq<BookEntry>,
    before: Seq<Order>,
    after: Seq<Order>,
    pair: u64,
    side: OrderSide,
    limit: Balance,
) -> bool {
    forall|j: int, i: int|
        0 <= j < book.len() && after[book[j].order_id as int] != before[book[j].order_id as int]
            && after[book[i].order_id as int] == before[book[i].order_id as int] && #[trigger] eligible(
            book,
            i,
            pair,
            side,
            limit,
        ) ==> #[trigger] ahead(book, side, j, i)
}

/// `idx` gives, for each entry of `book`, its position in the original
/// book `ob`: the entries keep their original order, and every original
/// entry whose order is still live in `orders` still rests.
pub open spec fn resting_positions(ob: Seq<BookEntry>, book: Seq<BookEntry>, orders: Seq<Order>, idx: Seq<int>) -> bool {
    &&& idx.len() == book.len()
    &&& forall|k: int| 0 <= k < idx.len() ==> 0 <= #[trigger] idx[k] < ob.len() && book[k] == ob[idx[k]]
    &&& forall|k1: int, k2: int| 0 <= k1 < k2 < idx.len() ==> #[trigger] idx[k1] < #[trigger] idx[k2]
    &&& forall|i: int|
        0 <= i < ob.len() && ob[i].order_id < orders.len() && is_live(#[trigger] orders[ob[i].order_id as int].status)
            ==> exists|k: int| 0 <= k < idx.len() && #[trigger] idx[k] == i
}

/// Recording one more trade, with a resting order that had not traded yet,
/// keeps the record exact.
pub proof fn lemma_record_step(fills: Seq<MatchFill>, fill: MatchFill, oo: Seq<Order>, before: Seq<Order>, after: Seq<Order>, k: int)
    requires
        fills_record(fills, oo, before),
        0 <= k < before.len(),
        before.len() == oo.len(),
        before[k] == oo[k],
        after == before.update(k, after[k]),
        after[k] != oo[k],
        fill == (MatchFill {
            maker_order_id: k as u64,
            amount: (after[k].filled_amount - before[k].filled_amount) as Balance,
            price: before[k].price,
        }),
        after[k].filled_amount >= before[k].filled_amount,
        k <= u64::MAX,
    ensures
        fills_record(fills.push(fill), oo, after),
{
    let f2 = fills.push(fill);
    assert forall|t: int| 0 <= t < fills.len() implies (#[trigger] fills[t]).maker_order_id != k by {
        if fills[t].maker_order_id == k {
            assert(before[k] != oo[k]);
        }
    }
    assert forall|t: int| 0 <= t < f2.len() implies {
        let m = (#[trigger] f2[t]).maker_order_id as int;
        &&& m < oo.len()
        &&& after[m] != oo[m]
        &&& f2[t].amount == after[m].filled_amount - oo[m].filled_amount
        &&& f2[t].price == oo[m].price
    } by {
        if t < fills.len() {
            assert(f2[t] == fills[t]);
        }
    }
    assert forall|t1: int, t2: int| 0 <= t1 < t2 < f2.len() implies #[trigger] f2[t1].maker_order_id
        != #[trigger] f2[t2].maker_order_id by {
        assert(f2[t1] == fills[t1]);
        if t2 < fills.len() {
            assert(f2[t2] == fills[t2]);
        }
    }
    assert forall|x: int| 0 <= x < oo.len() && #[trigger] after[x] != oo[x] implies exists|t: int|
        0 <= t < f2.len() && f2[t].maker_order_id == x by {
        if x == k {
            assert(f2[fills.len() as int].maker_order_id == x);
        } else {
            assert(after[x] == before[x]);
            let t = choose|t: int| 0 <= t < fills.len() && fills[t].maker_order_id == x;
            assert(f2[t] == fills[t]);
        }
    }
}

/// Orders appended after `mid` leave the trade record and the priority of
/// partial fills as they were.
pub proof fn lemma_record_extend(
    fills: Seq<MatchFill>,
    ob: Seq<BookEntry>,
    oo: Seq<Order>,
    mid: Seq<Order>,
    fin: Seq<Order>,
    side: OrderSide,
)
    requires
        fills_record(fills, oo, mid),
        partial_last(ob, oo, mid, side),
        mid.len() == oo.len(),
        fin.len() >= mid.len(),
        forall|x: int| 0 <= x < mid.len() ==> #[trigger] fin[x] == mid[x],
        forall|x: int| 0 <= x < ob.len() ==> (#[trigger] ob[x]).order_id < oo.len(),
    ensures
        fills_record(fills, oo, fin),
        partial_last(ob, oo, fin, side),
{
    assert forall|t: int| 0 <= t < fills.len() implies fin[(#[trigger] fills[t]).maker_order_id as int]
        == mid[fills[t].maker_order_id as int] by {
    }
    assert forall|k: int| 0 <= k < oo.len() && #[trigger] fin[k] != oo[k] implies exists|t: int|
        0 <= t < fills.len() && fills[t].maker_order_id == k by {
        assert(mid[k] != oo[k]);
    }
    assert forall|j: int, i: int|
        0 <= j < ob.len() && 0 <= i < ob.len() && fin[ob[j].order_id as int] != oo[ob[j].order_id as int]
            && #[trigger] fin[ob[i].order_id as int] != oo[ob[i].order_id as int]
            && fin[ob[i].order_id as int].status != ORDER_STATUS_FILLED implies #[trigger] ahead(ob, side, j, i) by {
        assert(fin[ob[j].order_id as int] == mid[ob[j].order_id as int]);
        assert(fin[ob[i].order_id as int] == mid[ob[i].order_id as int]);
    }
}

/// A trade with the best crossing entry, while every earlier trade filled
/// its resting order in full, keeps a partly filled order last in priority.
pub proof fn lemma_partial_last_step(
    ob: Seq<BookEntry>,
    oo: Seq<Order>,
    before: Seq<Order>,
    after: Seq<Order>,
    q_pos: int,
    pair: u64,
    side: OrderSide,
    limit: Balance,
)
    requires
        0 <= q_pos < ob.len(),
        traded_in_priority(ob, oo, before, pair, side, limit),
        eligible(ob, q_pos, pair, side, limit),
        forall|a: int, b: int| 0 <= a < b < ob.len() ==> #[trigger] ob[a].order_id != #[trigger] ob[b].order_id,
        forall|x: int| 0 <= x < ob.len() ==> (#[trigger] ob[x]).order_id < before.len(),
        after == before.update(ob[q_pos].order_id as int, after[ob[q_pos].order_id as int]),
        before[ob[q_pos].order_id as int] == oo[ob[q_pos].order_id as int],
        forall|x: int|
            0 <= x < ob.len() && before[(#[trigger] ob[x]).order_id as int] != oo[ob[x].order_id as int] ==> before[ob[x].order_id as int].status == ORDER_STATUS_FILLED,
    ensures
        partial_last(ob, oo, after, side),
{
    assert forall|j: int, i: int|
        0 <= j < ob.len() && 0 <= i < ob.len() && after[ob[j].order_id as int] != oo[ob[j].order_id as int]
            && #[trigger] after[ob[i].order_id as int] != oo[ob[i].order_id as int]
            && after[ob[i].order_id as int].status != ORDER_STATUS_FILLED implies #[trigger] ahead(ob, side, j, i) by {
        if i != q_pos {
            if i < q_pos {
                assert(ob[i].order_id != ob[q_pos].order_id);
            } else {
                assert(ob[q_pos].order_id != ob[i].order_id);
            }
            assert(after[ob[i].order_id as int] == before[ob[i].order_id as int]);
            assert(before[ob[i].order_id as int].status == ORDER_STATUS_FILLED);
        } else if j != q_pos {
            if j < q_pos {
                assert(ob[j].order_id != ob[q_pos].order_id);
            } else {
                assert(ob[q_pos].order_id != ob[j].order_id);
            }
            assert(after[ob[j].order_id as int] == before[ob[j].order_id as int]);
        }
    }
}

/// The entries of `book` whose orders are live in `orders`, in book order.
pub open spec fn live_entries(book: Seq<BookEntry>, orders: Seq<Order>) -> Seq<BookEntry>
    decreases book.len(),
{
    if book.len() == 0 {
        Seq::empty()
    } else {
        let rest = live_entries(book.drop_last(), orders);
        if is_live(orders[book.last().order_id as int].status) { rest.push(book.last()) } else { rest }
    }
}

/// A book that keeps, in order, exactly the entries of `ob` whose orders are
/// live is `live_entries(ob, orders)`.
pub proof fn lemma_live_entries(ob: Seq<BookEntry>, orders: Seq<Order>, book: Seq<BookEntry>, idx: Seq<int>)
    requires
        resting_positions(ob, book, orders, idx),
        forall|i: int| 0 <= i < ob.len() ==> (#[trigger] ob[i]).order_id < orders.len(),
        forall|k: int| 0 <= k < book.len() ==> is_live(orders[(#[trigger] book[k]).order_id as int].status),
    ensures
        book == live_entries(ob, orders),
    decreases ob.len(),
{
    if ob.len() == 0 {
        if idx.len() > 0 {
            assert(0 <= idx[0] < ob.len());
        }
        assert(book =~= Seq::<BookEntry>::empty());
    } else {
        let last = ob.len() - 1;
        let ob2 = ob.drop_last();
        if is_live(orders[ob[last].order_id as int].status) {
            let k = choose|k: int| 0 <= k < idx.len() && #[trigger] idx[k] == last;
            if k < idx.len() - 1 {
                assert(idx[k] < idx[k + 1]);
                assert(false);
            }
            let idx2 = idx.drop_last();
            let book2 = book.drop_last();
            assert forall|k2: int| 0 <= k2 < idx2.len() implies 0 <= #[trigger] idx2[k2] < ob2.len() && book2[k2]
                == ob2[idx2[k2]] by {
                assert(idx[k2] < idx[k]);
            }
            assert forall|i: int|
                0 <= i < ob2.len() && ob2[i].order_id < orders.len() && is_live(
                    #[trigger] orders[ob2[i].order_id as int].status,
                ) implies exists|k2: int| 0 <= k2 < idx2.len() && #[trigger] idx2[k2] == i by {
                assert(ob2[i] == ob[i]);
                let k2 = choose|k2: int| 0 <= k2 < idx.len() && #[trigger] idx[k2] == i;
                assert(k2 != k);
                assert(idx2[k2] == i);
            }
            assert forall|j: int| 0 <= j < book2.len() implies is_live(orders[(#[trigger] book2[j]).order_id as int].status) by {
                assert(book2[j] == book[j]);
            }
            lemma_live_entries(ob2, orders, book2, idx2);
            assert(book =~= book2.push(book.last()));
        } else {
            assert forall|k2: int| 0 <= k2 < idx.len() implies 0 <= #[trigger] idx[k2] < ob2.len() && book[k2]
                == ob2[idx[k2]] by {
                if idx[k2] == last {
                    assert(book[k2] == ob[last]);
                }
            }
            assert forall|i: int|
                0 <= i < ob2.len() && ob2[i].order_id < orders.len() && is_live(
                    #[trigger] orders[ob2[i].order_id as int].status,
                ) implies exists|k2: int| 0 <= k2 < idx.len() && #[trigger] idx[k2] == i by {
                assert(ob2[i] == ob[i]);
            }
            lemma_live_entries(ob2, orders, book, idx);
        }
    }
}

/// When every entry's order is live, all of them stay.
pub proof fn lemma_live_entries_all_live(ob: Seq<BookEntry>, orders: Seq<Order>)
    requires
        forall|i: int| 0 <= i < ob.len() ==> is_live(orders[(#[trigger] ob[i]).order_id as int].status),
    ensures
        live_entries(ob, orders) == ob,
    decreases ob.len(),
{
    if ob.len() > 0 {
        let ob2 = ob.drop_last();
        assert forall|i: int| 0 <= i < ob2.len() implies is_live(orders[(#[trigger] ob2[i]).order_id as int].status) by {
            assert(ob2[i] == ob[i]);
        }
        lemma_live_entries_all_live(ob2, orders);
        assert(ob2.push(ob.last()) =~= ob);
    }
}

/// `live_entries` reads the orders of the book's entries only.
pub proof fn lemma_live_entries_agree(ob: Seq<BookEntry>, s1: Seq<Order>, s2: Seq<Order>)
    requires
        forall|i: int| 0 <= i < ob.len() ==> s1[(#[trigger] ob[i]).order_id as int] == s2[ob[i].order_id as int],
    ensures
        live_entries(ob, s1) == live_entries(ob, s2),
    decreases ob.len(),
{
    if ob.len() > 0 {
        let ob2 = ob.drop_last();
        assert forall|i: int| 0 <= i < ob2.len() implies s1[(#[trigger] ob2[i]).order_id as int] == s2[ob2[i].order_id as int] by {
            assert(ob2[i] == ob[i]);
        }
        lemma_live_entries_agree(ob2, s1, s2);
        assert(s1[ob[ob.len() - 1].order_id as int] == s2[ob[ob.len() - 1].order_id as int]);
    }
}

/// Number of entries of `book` at the given pair, side and price.
pub open spec fn level_size(book: Seq<BookEntry>, pair: u64, side: OrderSide, price: Balance) -> int
    decreases book.len(),
{
    if book.len() == 0 {
        0
    } else {
        level_size(book.drop_last(), pair, side, price) + if book.last().pair == pair && book.last().side == side
            && book.last().price == price { 1int } else { 0 }
    }
}

/// Sum of the fills of the orders in `s`.
pub open spec fn fills_sum(s: Seq<Order>) -> int
    decreases s.len(),
{
    if s.len() == 0 { 0 } else { fills_sum(s.drop_last()) + s.last().filled_amount }
}

/// The fee engine after collecting `fee` `n` times.
pub open spec fn collected_times(fe: FeeEngine, fee: Balance, n: nat) -> FeeEngine
    decreases n,
{
    if n == 0 { fe } else { collected_times(fe, fee, (n - 1) as nat).after_collect(fee) }
}

/// Changing one order's fill changes the sum by the difference.
pub proof fn lemma_fills_sum_update(s: Seq<Order>, k: int, o: Order)
    requires
        0 <= k < s.len(),
    ensures
        fills_sum(s.update(k, o)) == fills_sum(s) + o.filled_amount - s[k].filled_amount,
    decreases s.len(),
{
    if k == s.len() - 1 {
        assert(s.update(k, o).drop_last() =~= s.drop_last());
    } else {
        lemma_fills_sum_update(s.drop_last(), k, o);
        assert(s.update(k, o).drop_last() =~= s.drop_last().update(k, o));
    }
}

/// Cancelling an order that is open and has not traded reports its whole
/// amount as the remainder, and leaves it cancelled, which is no longer a
/// live status: a second cancellation of it is refused.
pub proof fn lemma_cancel_untraded_order(o: Order, remaining: Balance)
    requires
        o.status == ORDER_STATUS_OPEN,
        o.filled_amount == 0,
        remaining == o.amount - o.filled_amount,
    ensures
        remaining == o.amount,
        !is_live((Order { status: ORDER_STATUS_CANCELLED, ..o }).status),
{
}

/// In a well-formed exchange no live buy order of a pair is priced at or
/// above a live sell order of the same pair: matching leaves no crossing
/// orders behind.
pub proof fn lemma_live_orders_uncrossed(dex: &Dex, b: int, s: int)
    requires
        dex.wf(),
        0 <= b < dex.orders@.len(),
        0 <= s < dex.orders@.len(),
        is_live(dex.orders@[b].status),
        is_live(dex.orders@[s].status),
        dex.orders@[b].pair == dex.orders@[s].pair,
        dex.orders@[b].side == ORDER_SIDE_BUY,
        dex.orders@[s].side == ORDER_SIDE_SELL,
    ensures
        dex.orders@[b].price < dex.orders@[s].price,
{
    let i = choose|i: int| 0 <= i < dex.book@.len() && dex.book@[i].order_id == b;
    let j = choose|j: int| 0 <= j < dex.book@.len() && dex.book@[j].order_id == s;
    assert(dex.book@[i].pair == dex.book@[j].pair);
}

/// One trade of an incoming order with a resting order.
#[derive(Clone, Copy, Debug, PartialEq, Eq, Structural)]
pub struct MatchFill {
    /// The resting order traded with.
    pub maker_order_id: OrderId,
    /// Amount traded.
    pub amount: Balance,
    /// Price of the trade: the resting order's price.
    pub price: Balance,
}

/// What a placement did.
#[derive(Clone, Debug, PartialEq, Eq)]
pub struct PlaceReceipt {
    /// Id given to the new order.
    pub order_id: OrderId,
    /// How much of it traded on placement.
    pub filled: Balance,
    /// With how many resting orders it traded.
    pub matches: u64,
    /// Its trades, in the order they were made.
    pub fills: Vec<MatchFill>,
}

/// The trades `fills` record, one per resting order, exactly the orders
/// whose records differ between `before` and `after`: the amount each
/// order's fill grew by, at its price.
pub open spec fn fills_record(fills: Seq<MatchFill>, before: Seq<Order>, after: Seq<Order>) -> bool {
    &&& forall|t: int|
        0 <= t < fills.len() ==> {
            let k = (#[trigger] fills[t]).maker_order_id as int;
            &&& k < before.len()
            &&& after[k] != before[k]
            &&& fills[t].amount == after[k].filled_amount - before[k].filled_amount
            &&& fills[t].price == before[k].price
        }
    &&& forall|t1: int, t2: int|
        0 <= t1 < t2 < fills.len() ==> #[trigger] fills[t1].maker_order_id != #[trigger] fills[t2].maker_order_id
    &&& forall|k: int|
        0 <= k < before.len() && #[trigger] after[k] != before[k] ==> exists|t: int|
            0 <= t < fills.len() && fills[t].maker_order_id == k
}

/// Of the entries of `ob` whose orders traded, one left not filled in full
/// comes after all the others in priority: each trade took the smaller of
/// the two remainders.
pub open spec fn partial_last(ob: Seq<BookEntry>, before: Seq<Order>, after: Seq<Order>, side: OrderSide) -> bool {
    forall|j: int, i: int|
        0 <= j < ob.len() && 0 <= i < ob.len() && after[ob[j].order_id as int] != before[ob[j].order_id as int]
            && #[trigger] after[ob[i].order_id as int] != before[ob[i].order_id as int]
            && after[ob[i].order_id as int].status != ORDER_STATUS_FILLED ==> #[trigger] ahead(ob, side, j, i)
}

impl Dex {
    /// The price level of key `key`, side `side` and price `price` already
    /// holds as many orders as a level may.
    /// Entry `j` of the book rests on the other side of the pair with key
    /// `key` from an incoming order of side `side`, at a price that crosses
    /// the incoming limit `price`.
    pub open spec fn crossing_entry(&self, j: int, key: Seq<u8>, side: OrderSide, price: Balance) -> bool {
        &&& 0 <= j < self.book@.len()
        &&& self.pairs@[self.book@[j].pair as int]@ == key
        &&& self.book@[j].side == opposite(side)
        &&& crosses(side, price, self.book@[j].price)
    }

    pub open spec fn level_full(&self, key: Seq<u8>, side: OrderSide, price: Balance) -> bool {
        exists|pi: int|
            0 <= pi < self.pairs@.len() && self.pairs@[pi]@ == key && level_size(self.book@, pi as u64, side, price)
                >= MAX_ORDERS_PER_LEVEL
    }

    /// Why `place_order` refuses its arguments before any matching, in the
    /// order the rules are applied; `None` when they are accepted.
    pub open spec fn place_order_error(&self, key: Seq<u8>, side: OrderSide, amount: Balance, price: Balance) -> Option<DexError> {
        if key.len() > MAX_PAIR_LEN {
            Some(DexError::InvalidTokenPair)
        } else if amount == 0 || price == 0 {
            Some(DexError::AmountBelowMinimum)
        } else if self.orders@.len() >= u64::MAX {
            Some(DexError::Overflow)
        } else if side != ORDER_SIDE_BUY && side != ORDER_SIDE_SELL {
            Some(DexError::InvalidTokenPair)
        } else if self.level_full(key, side, price) {
            Some(DexError::Overflow)
        } else {
            None
        }
    }

    /// Number of resting orders at the given pair, side and price.
    pub fn level_count(&self, pair: u64, side: OrderSide, price: Balance) -> (r: usize)
        ensures
            r == level_size(self.book@, pair, side, price),
    {
        let mut count: usize = 0;
        let mut i: usize = 0;
        while i < self.book.len()
            invariant
                i <= self.book@.len(),
                count <= i,
                count == level_size(self.book@.subrange(0, i as int), pair, side, price),
            decreases self.book@.len() - i,
        {
            let e = self.book[i];
            assert(self.book@.subrange(0, i + 1).drop_last() =~= self.book@.subrange(0, i as int));
            if e.pair == pair && e.side == side && e.price == price {
                count = count + 1;
            }
            i = i + 1;
        }
        assert(self.book@.subrange(0, self.book@.len() as int) =~= self.book@);
        count
    }

    /// Whether the price level of key `key`, side and price is full.
    pub fn level_is_full(&self, key: &[u8], side: OrderSide, price: Balance) -> (r: bool)
        requires
            self.pairs_wf(),
        ensures
            r == self.level_full(key@, side, price),
    {
        match self.find_pair(key) {
            None => false,
            Some(pi) => {
                let full = self.level_count(pi as u64, side, price) >= MAX_ORDERS_PER_LEVEL;
                proof {
                    if !full && self.level_full(key@, side, price) {
                        let q = choose|q: int|
                            0 <= q < self.pairs@.len() && self.pairs@[q]@ == key@ && level_size(
                                self.book@,
                                q as u64,
                                side,
                                price,
                            ) >= MAX_ORDERS_PER_LEVEL;
                        if q < pi {
                            assert(self.pairs@[q]@ != self.pairs@[pi as int]@);
                        } else if q > pi {
                            assert(self.pairs@[pi as int]@ != self.pairs@[q]@);
                        }
                    }
                }
                full
            },
        }
    }

    /// Index of the resting order that an incoming order of the given pair,
    /// side and limit trades with first: the best price, then the earliest.
    pub fn find_best(&self, pair: u64, taker_side: OrderSide, limit: Balance) -> (r: Option<usize>)
        ensures
            r matches Some(i) ==> eligible(self.book@, i as int, pair, taker_side, limit) && forall|j: int|
                eligible(self.book@, j, pair, taker_side, limit) ==> ahead(self.book@, taker_side, i as int, j),
            r is None ==> forall|j: int| !eligible(self.book@, j, pair, taker_side, limit),
    {
        let maker_side = if taker_side == ORDER_SIDE_BUY { ORDER_SIDE_SELL } else { ORDER_SIDE_BUY };
        let mut best: Option<usize> = None;
        let mut i: usize = 0;
        while i < self.book.len()
            invariant
                i <= self.book@.len(),
                maker_side == opposite(taker_side),
                best matches Some(b) ==> b < i && eligible(self.book@, b as int, pair, taker_side, limit) && forall|j: int|
                    0 <= j < i && eligible(self.book@, j, pair, taker_side, limit) ==> ahead(self.book@, taker_side, b as int, j),
                best is None ==> forall|j: int| 0 <= j < i ==> !eligible(self.book@, j, pair, taker_side, limit),
            decreases self.book@.len() - i,
        {
            let e = self.book[i];
            let ghost prev = best;
            let crossing = if taker_side == ORDER_SIDE_BUY { e.price <= limit } else { e.price >= limit };
            if e.pair == pair && e.side == maker_side && crossing {
                let better = match best {
                    None => true,
                    Some(b) => {
                        let pb = self.book[b].price;
                        if taker_side == ORDER_SIDE_BUY { e.price < pb } else { e.price > pb }
                    },
                };
                if better {
                    best = Some(i);
                }
            }
            proof {
                if let Some(b) = best {
                    assert forall|j: int|
                        0 <= j < i + 1 && eligible(self.book@, j, pair, taker_side, limit) implies ahead(
                        self.book@,
                        taker_side,
                        b as int,
                        j,
                    ) by {
                        if j < i && b == i {
                            if let Some(pb) = prev {
                                assert(ahead(self.book@, taker_side, pb as int, j));
                            }
                        }
                    }
                }
            }
            i = i + 1;
        }
        best
    }

    /// Trades an incoming order of the given pair, side, limit price and
    /// amount against the book, best price first and earliest first at one
    /// price, while its limit crosses and it is not filled. Each trade fills
    /// the smaller of the two remainders; a resting order filled in full
    /// leaves the book, one filled in part stays where it is. Each trade
    /// charges `trader` the protocol's trading fee. Returns the amount
    /// filled, the number of trades and the trades themselves; fails,
    /// changing nothing, if a fee cannot be collected.
    #[verifier::rlimit(60)]
    fn match_against_book(
        &mut self,
        pair: u64,
        side: OrderSide,
        limit: Balance,
        amount: Balance,
        trader: AccountId,
    ) -> (r: Result<(Balance, u64, Vec<MatchFill>), ()>)
        requires
            old(self).wf(),
            pair < old(self).pairs@.len(),
            side == ORDER_SIDE_BUY || side == ORDER_SIDE_SELL,
            amount > 0,
        ensures
            final(self).wf(),
            final(self).config == old(self).config,
            final(self).pairs == old(self).pairs,
            final(self).trading_volume == old(self).trading_volume,
            final(self).pools == old(self).pools,
            final(self).lp_positions == old(self).lp_positions,
            r is Err ==> {
                &&& final(self).orders@ == old(self).orders@
                &&& final(self).book@ == old(self).book@
                &&& final(self).fee_engine == old(self).fee_engine
                &&& old(self).fee_engine.fee_of(TX_TYPE_DEX_TRADING) > 0
            },
            ({
                let fee = old(self).fee_engine.fee_of(TX_TYPE_DEX_TRADING);
                fee * 15 <= u128::MAX && old(self).fee_engine.total_fees_collected + fee * old(self).book@.len()
                    <= u128::MAX
            }) ==> r is Ok,
            r matches Ok((filled, matches, fills)) ==> {
                &&& fills@.len() == matches
                &&& fills_record(fills@, old(self).orders@, final(self).orders@)
                &&& partial_last(old(self).book@, old(self).orders@, final(self).orders@, side)
                &&& filled <= amount
                &&& matches <= old(self).book@.len()
                &&& final(self).orders@.len() == old(self).orders@.len()
                &&& forall|k: int|
                    0 <= k < old(self).orders@.len() ==> {
                        let o1 = #[trigger] old(self).orders@[k];
                        let o2 = final(self).orders@[k];
                        &&& filled_from(o1, o2)
                        &&& o2 != o1 ==> o1.pair == pair && o1.side == opposite(side) && crosses(
                            side,
                            limit,
                            o1.price,
                        )
                        &&& o2 != o1 ==> o2.status == ORDER_STATUS_FILLED || filled == amount
                    }
                &&& fills_sum(final(self).orders@) == fills_sum(old(self).orders@) + filled
                &&& final(self).fee_engine == collected_times(
                    old(self).fee_engine,
                    old(self).fee_engine.fee_of(TX_TYPE_DEX_TRADING),
                    matches as nat,
                )
                &&& filled < amount ==> forall|j: int| !eligible(final(self).book@, j, pair, side, limit)
                &&& traded_in_priority(old(self).book@, old(self).orders@, final(self).orders@, pair, side, limit)
                &&& final(self).book@ == live_entries(old(self).book@, final(self).orders@)
            },
            (forall|j: int| !eligible(old(self).book@, j, pair, side, limit)) ==> {
                &&& r matches Ok((f, m, v)) && f == 0 && m == 0
                &&& final(self).orders@ == old(self).orders@
                &&& final(self).book@ == old(self).book@
                &&& final(self).fee_engine == old(self).fee_engine
            },
    {
        let fee = self.fee_engine.get_fee(TX_TYPE_DEX_TRADING);
        let book_len = self.book.len();
        let saved_orders = self.orders.clone();
        let saved_book = self.book.clone();
        assert(saved_orders@ =~= old(self).orders@);
        assert(saved_book@ =~= old(self).book@);
        let saved_total = self.fee_engine.total_fees_collected;
        let saved_founder = self.fee_engine.founder_fees;
        let saved_dao = self.fee_engine.dao_fees;
        let mut filled: Balance = 0;
        let mut matches: u64 = 0;
        let mut fills: Vec<MatchFill> = Vec::new();
        let mut exhausted = false;
        let ghost ob = old(self).book@;
        let ghost oo = old(self).orders@;
        // position in the original book of each entry still resting
        let ghost mut idx: Seq<int> = Seq::new(ob.len(), |k: int| k);
        let ghost none_cross = forall|j: int| !eligible(ob, j, pair, side, limit);
        assert forall|i: int|
            0 <= i < ob.len() && ob[i].order_id < self.orders@.len() && #[trigger] self.orders@[ob[i].order_id as int]
                == oo[ob[i].order_id as int] implies exists|k: int| 0 <= k < idx.len() && #[trigger] idx[k] == i by {
            assert(idx[i] == i);
        }
        while !exhausted && filled < amount
            invariant
                old(self).wf(),
                self.wf(),
                self.config == old(self).config,
                self.pairs == old(self).pairs,
                self.trading_volume == old(self).trading_volume,
                self.pools == old(self).pools,
                self.lp_positions == old(self).lp_positions,
                pair < self.pairs@.len(),
                side == ORDER_SIDE_BUY || side == ORDER_SIDE_SELL,
                saved_orders@ == old(self).orders@,
                book_len == old(self).book@.len(),
                saved_book@ == old(self).book@,
                fee == old(self).fee_engine.fee_of(TX_TYPE_DEX_TRADING),
                saved_total == old(self).fee_engine.total_fees_collected,
                saved_founder == old(self).fee_engine.founder_fees,
                saved_dao == old(self).fee_engine.dao_fees,
                self.fee_engine.fixed_fees == old(self).fee_engine.fixed_fees,
                self.fee_engine.founder_account == old(self).fee_engine.founder_account,
                self.fee_engine.dao_treasury_account == old(self).fee_engine.dao_treasury_account,
                self.fee_engine.total_fees_collected == saved_total + matches * fee,
                self.fee_engine == collected_times(old(self).fee_engine, fee, matches as nat),
                self.orders@.len() == old(self).orders@.len(),
                filled <= amount,
                matches <= old(self).book@.len(),
                matches + self.book@.len() <= old(self).book@.len() + if filled == amount { 1int } else { 0 },
                forall|k: int|
                    0 <= k < old(self).orders@.len() ==> {
                        let o1 = #[trigger] old(self).orders@[k];
                        let o2 = self.orders@[k];
                        &&& filled_from(o1, o2)
                        &&& o2 != o1 ==> o1.pair == pair && o1.side == opposite(side) && crosses(
                            side,
                            limit,
                            o1.price,
                        )
                        &&& o2 != o1 ==> o2.status == ORDER_STATUS_FILLED || filled == amount
                    },
                fills_sum(self.orders@) == fills_sum(old(self).orders@) + filled,
                exhausted ==> forall|j: int| !eligible(self.book@, j, pair, side, limit),
                ob == old(self).book@,
                oo == old(self).orders@,
                resting_positions(ob, self.book@, self.orders@, idx),
                fills@.len() == matches,
                fills_record(fills@, oo, self.orders@),
                partial_last(ob, oo, self.orders@, side),
                none_cross == (forall|j: int| !eligible(ob, j, pair, side, limit)),
                none_cross ==> {
                    &&& matches == 0
                    &&& filled == 0
                    &&& self.orders@ == oo
                    &&& self.book@ == ob
                    &&& self.fee_engine == old(self).fee_engine
                },
                traded_in_priority(ob, oo, self.orders@, pair, side, limit),
            decreases self.book@.len() + (if filled < amount { 1int } else { 0 }) + (if exhausted { 0int } else { 1 }),
        {
            match self.find_best(pair, side, limit) {
                None => {
                    exhausted = true;
                },
                Some(i) => {
                    proof {
                        if none_cross {
                            assert(eligible(ob, i as int, pair, side, limit));
                        }
                    }
                    let e = self.book[i];
                    let num_orders = self.orders.len();
                    assert(e.order_id < num_orders);
                    let k = e.order_id as usize;
                    let maker = self.orders[k];
                    let rest = maker.amount - maker.filled_amount;
                    let want = amount - filled;
                    let q = if want < rest { want } else { rest };
                    proof {
                        let len0 = old(self).book@.len();
                        assert(matches + 1 <= len0);
                        assert((matches + 1) * fee <= len0 * fee) by (nonlinear_arith)
                            requires
                                matches + 1 <= len0,
                                fee >= 0,
                        ;
                        assert(matches * fee + fee == (matches + 1) * fee) by (nonlinear_arith);
                    }
                    let collected = self.fee_engine.collect_fee(trader, TX_TYPE_DEX_TRADING, fee);
                    if collected.is_err() {
                        self.orders = saved_orders;
                        self.book = saved_book;
                        self.fee_engine.total_fees_collected = saved_total;
                        self.fee_engine.founder_fees = saved_founder;
                        self.fee_engine.dao_fees = saved_dao;
                        proof {
                            if fee == 0 {
                                assert(fee * 15 == 0);
                            }
                            assert(self.fee_engine == old(self).fee_engine);
                        }
                        return Err(());
                    }
                    let ghost before = self.orders@;
                    let ghost before_book = self.book@;
                    let ghost idx_before = idx;
                    let ghost q_pos = idx[i as int];
                    assert(forall|x: int|
                        0 <= x < before.len() && is_live(#[trigger] before[x].status) ==> exists|y: int|
                            0 <= y < before_book.len() && before_book[y].order_id == x);
                    let maker_filled = maker.filled_amount + q;
                    let status = if maker_filled == maker.amount {
                        ORDER_STATUS_FILLED
                    } else {
                        ORDER_STATUS_PARTIALLY_FILLED
                    };
                    let updated = Order { filled_amount: maker_filled, status, ..maker };
                    proof {
                        assert(self.orders@[k as int] == before[k as int]);
                        assert(is_live(before[k as int].status));
                        assert(before[k as int] == oo[k as int]) by {
                            if before[k as int] != oo[k as int] {
                                assert(before[k as int].status == ORDER_STATUS_FILLED);
                            }
                        }
                        assert(before_book[i as int] == ob[q_pos]);
                        assert(eligible(ob, q_pos, pair, side, limit));
                        assert forall|x: int|
                            0 <= x < ob.len() && before[(#[trigger] ob[x]).order_id as int] != oo[ob[x].order_id as int]
                                implies before[ob[x].order_id as int].status == ORDER_STATUS_FILLED by {
                            assert(ob[x].order_id < oo.len());
                        }
                    }
                    self.orders.set(k, updated);
                    let fill = MatchFill { maker_order_id: e.order_id, amount: q, price: maker.price };
                    let ghost fills_before = fills@;
                    fills.push(fill);
                    proof {
                        lemma_record_step(fills_before, fill, oo, before, self.orders@, k as int);
                        lemma_partial_last_step(ob, oo, before, self.orders@, q_pos, pair, side, limit);
                    }
                    proof {
                        lemma_fills_sum_update(before, k as int, updated);
                        assert(self.fee_engine == collected_times(old(self).fee_engine, fee, (matches + 1) as nat));
                    }
                    if maker_filled == maker.amount {
                        self.book.remove(i);
                        proof {
                            idx = idx_before.remove(i as int);
                        }
                    }
                    proof {
                        self.lemma_priority_step(
                            ob,
                            oo,
                            before,
                            before_book,
                            idx_before,
                            i as int,
                            q_pos,
                            pair,
                            side,
                            limit,
                            maker_filled == maker.amount,
                        );
                        assert forall|x: int|
                            0 <= x < self.orders@.len() && is_live(#[trigger] self.orders@[x].status) implies exists|y: int|
                                0 <= y < self.book@.len() && self.book@[y].order_id == x by {
                            if x == k {
                                assert(self.book@[i as int].order_id == x);
                            } else {
                                assert(self.orders@[x] == before[x]);
                                let y0 = choose|y: int| 0 <= y < before_book.len() && before_book[y].order_id == x;
                                assert(y0 != i);
                                if maker_filled == maker.amount {
                                    if y0 < i {
                                        assert(self.book@[y0].order_id == x);
                                    } else {
                                        assert(self.book@[y0 - 1].order_id == x);
                                    }
                                } else {
                                    assert(self.book@[y0].order_id == x);
                                }
                            }
                        }
                    }
                    filled = filled + q;
                    matches = matches + 1;
                },
            }
        }
        proof {
            lemma_live_entries(ob, self.orders@, self.book@, idx);
        }
        Ok((filled, matches, fills))
    }

    /// Places an order of `amount` at limit `price` on `side` of the pair
    /// with key `token_pair` for `trader`, under the next order id. The
    /// order first trades against the resting orders of the other side (see
    /// `match_against_book`); resting orders filled in full leave the book,
    /// the others keep their places, and what is left of the new order rests
    /// at the end of the book. The receipt lists the trades made. Fails when the amount or price is zero, the
    /// side is unknown, or the order's price level is full (see
    /// `place_order_error`), and when a trading fee cannot be collected; a
    /// failed call changes nothing.
    #[verifier::rlimit(100)]
    pub fn place_order(
        &mut self,
        token_pair: Vec<u8>,
        side: OrderSide,
        amount: Balance,
        price: Balance,
        trader: AccountId,
    ) -> (r: Result<PlaceReceipt, DexError>)
        requires
            old(self).wf(),
        ensures
            final(self).wf(),
            old(self).place_order_error(token_pair@, side, amount, price) matches Some(e) ==> r == Err::<
                PlaceReceipt,
                DexError,
            >(e) && *final(self) == *old(self),
            old(self).place_order_error(token_pair@, side, amount, price) is None ==> r is Ok || r == Err::<
                PlaceReceipt,
                DexError,
            >(DexError::InsufficientFee),
            ({
                let fee = old(self).fee_engine.fee_of(TX_TYPE_DEX_TRADING);
                &&& old(self).place_order_error(token_pair@, side, amount, price) is None
                &&& fee * 15 <= u128::MAX
                &&& old(self).fee_engine.total_fees_collected + fee * old(self).book@.len() <= u128::MAX
            }) ==> r is Ok,
            old(self).place_order_error(token_pair@, side, amount, price) is None && (forall|j: int|
                !old(self).crossing_entry(j, token_pair@, side, price)) ==> r is Ok,
            r == Err::<PlaceReceipt, DexError>(DexError::InsufficientFee) ==> {
                &&& old(self).fee_engine.fee_of(TX_TYPE_DEX_TRADING) > 0
                &&& final(self).orders@ == old(self).orders@
                &&& final(self).book@ == old(self).book@
                &&& final(self).fee_engine == old(self).fee_engine
                &&& final(self).pairs == old(self).pairs
                &&& final(self).trading_volume == old(self).trading_volume
                &&& final(self).pools == old(self).pools
                &&& final(self).lp_positions == old(self).lp_positions
                &&& final(self).config == old(self).config
            },
            r matches Ok(receipt) ==> {
                let n = old(self).orders@.len();
                let o = final(self).orders@[n as int];
                &&& receipt.order_id == n
                &&& final(self).orders@.len() == n + 1
                &&& o == (Order {
                    id: receipt.order_id,
                    trader,
                    pair: o.pair,
                    side,
                    amount,
                    price,
                    filled_amount: receipt.filled,
                    status: fill_status(receipt.filled, amount),
                })
                &&& final(self).pairs@[o.pair as int]@ == token_pair@
                &&& forall|k: int|
                    0 <= k < n ==> {
                        let o1 = #[trigger] old(self).orders@[k];
                        let o2 = final(self).orders@[k];
                        &&& filled_from(o1, o2)
                        &&& o2 != o1 ==> old(self).pairs@[o1.pair as int]@ == token_pair@ && o1.side == opposite(
                            side,
                        ) && crosses(side, price, o1.price)
                        &&& o2 != o1 ==> o2.status == ORDER_STATUS_FILLED || receipt.filled == amount
                        &&& o2 != o1 ==> exists|j: int|
                            0 <= j < old(self).book@.len() && old(self).book@[j].order_id == k
                    }
                &&& fills_sum(final(self).orders@.drop_last()) == fills_sum(old(self).orders@) + receipt.filled
                &&& forall|j: int, i: int|
                    0 <= j < old(self).book@.len() && 0 <= i < old(self).book@.len()
                        && final(self).orders@[old(self).book@[j].order_id as int]
                        != old(self).orders@[old(self).book@[j].order_id as int]
                        && final(self).orders@[old(self).book@[i].order_id as int]
                        == old(self).orders@[old(self).book@[i].order_id as int]
                        && old(self).pairs@[old(self).book@[i].pair as int]@ == token_pair@
                        && old(self).book@[i].side == opposite(side) && crosses(side, price, old(self).book@[i].price)
                        ==> #[trigger] ahead(old(self).book@, side, j, i)
                &&& final(self).book@ == if receipt.filled < amount {
                    live_entries(old(self).book@, final(self).orders@).push(
                        BookEntry { pair: o.pair, side, price, order_id: receipt.order_id },
                    )
                } else {
                    live_entries(old(self).book@, final(self).orders@)
                }
                &&& receipt.filled < amount ==> forall|j: int| !final(self).crossing_entry(j, token_pair@, side, price)
                &&& receipt.matches <= old(self).book@.len()
                &&& receipt.fills@.len() == receipt.matches
                &&& fills_record(receipt.fills@, old(self).orders@, final(self).orders@)
                &&& partial_last(old(self).book@, old(self).orders@, final(self).orders@, side)
                &&& final(self).fee_engine == collected_times(
                    old(self).fee_engine,
                    old(self).fee_engine.fee_of(TX_TYPE_DEX_TRADING),
                    receipt.matches as nat,
                )
                &&& final(self).pairs@.subrange(0, old(self).pairs@.len() as int) == old(self).pairs@
                &&& final(self).pairs@.len() <= old(self).pairs@.len() + 1
                &&& final(self).trading_volume@.subrange(0, old(self).pairs@.len() as int)
                    == old(self).trading_volume@
                &&& forall|i: int|
                    old(self).pairs@.len() <= i < final(self).pairs@.len() ==> final(self).trading_volume@[i] == 0
                &&& final(self).pools == old(self).pools
                &&& final(self).lp_positions == old(self).lp_positions
                &&& final(self).config == old(self).config
            },
    {
        if token_pair.len() > MAX_PAIR_LEN {
            return Err(DexError::InvalidTokenPair);
        }
        if amount == 0 || price == 0 {
            return Err(DexError::AmountBelowMinimum);
        }
        let n = self.orders.len();
        if n as u64 >= u64::MAX {
            return Err(DexError::Overflow);
        }
        if side != ORDER_SIDE_BUY && side != ORDER_SIDE_SELL {
            return Err(DexError::InvalidTokenPair);
        }
        if self.level_is_full(token_pair.as_slice(), side, price) {
            return Err(DexError::Overflow);
        }
        let known = self.find_pair(token_pair.as_slice());
        let (filled, matches, fills) = match known {
            Some(pi) => {
                proof {
                    if forall|j: int| !old(self).crossing_entry(j, token_pair@, side, price) {
                        assert forall|j: int| !#[trigger] eligible(self.book@, j, pi as u64, side, price) by {
                            if eligible(self.book@, j, pi as u64, side, price) {
                                assert(old(self).crossing_entry(j, token_pair@, side, price));
                            }
                        }
                    }
                }
                match self.match_against_book(pi as u64, side, price, amount, trader) {
                    Ok((f, m, v)) => (f, m, v),
                    Err(_) => return Err(DexError::InsufficientFee),
                }
            },
            None => {
                proof {
                    assert forall|j: int| 0 <= j < self.book@.len() implies (#[trigger] self.book@[j]).pair
                        < self.pairs@.len() by {
                        assert(self.orders@[self.book@[j].order_id as int].pair < self.pairs@.len());
                    }
                }
                (0, 0, Vec::new())
            },
        };
        let ghost mid = *self;
        proof {
            let ob = old(self).book@;
            let oo = old(self).orders@;
            assert forall|j: int, i: int|
                0 <= j < ob.len() && 0 <= i < ob.len() && mid.orders@[ob[j].order_id as int] != oo[ob[j].order_id as int]
                    && mid.orders@[ob[i].order_id as int] == oo[ob[i].order_id as int] && old(self).pairs@[ob[i].pair as int]@
                    == token_pair@ && ob[i].side == opposite(side) && crosses(side, price, ob[i].price) implies #[trigger] ahead(
                ob,
                side,
                j,
                i,
            ) by {
                let pi = known->Some_0 as int;
                let q = ob[i].pair as int;
                assert(oo[ob[i].order_id as int].pair < old(self).pairs@.len());
                if q < pi {
                    assert(old(self).pairs@[q]@ != old(self).pairs@[pi]@);
                } else if q > pi {
                    assert(old(self).pairs@[pi]@ != old(self).pairs@[q]@);
                }
                assert(eligible(ob, i, pi as u64, side, price));
            }
        }
        let pair = self.intern_pair(token_pair);
        proof {
            if known is Some {
                assert(pair == known->Some_0) by {
                    let q = known->Some_0;
                    if pair != q {
                        if pair < q {
                            assert(self.pairs@[pair as int]@ != self.pairs@[q as int]@);
                        } else {
                            assert(self.pairs@[q as int]@ != self.pairs@[pair as int]@);
                        }
                    }
                }
            } else {
                assert(pair == mid.pairs@.len()) by {
                    if pair < mid.pairs@.len() {
                        assert(mid.pairs@[pair as int] == self.pairs@[pair as int]);
                    }
                }
            }
        }
        let status = if filled == 0 {
            ORDER_STATUS_OPEN
        } else if filled < amount {
            ORDER_STATUS_PARTIALLY_FILLED
        } else {
            ORDER_STATUS_FILLED
        };
        let order = Order {
            id: n as u64,
            trader,
            pair: pair as u64,
            side,
            amount,
            price,
            filled_amount: filled,
            status,
        };
        self.orders.push(order);
        if filled < amount {
            self.book.push(BookEntry { pair: pair as u64, side, price, order_id: n as u64 });
        }
        proof {
            assert(self.orders@.drop_last() =~= mid.orders@);
            assert forall|x: int| 0 <= x < n implies #[trigger] self.orders@[x] == mid.orders@[x] by {
            }
            let b = mid.book@;
            assert(forall|j: int| 0 <= j < b.len() ==> (#[trigger] b[j]).order_id < n);
            assert forall|j: int| 0 <= j < b.len() implies #[trigger] self.orders@[b[j].order_id as int]
                == mid.orders@[b[j].order_id as int] by {
                assert(b[j].order_id < n);
            }
            if filled < amount {
                let e = BookEntry { pair: pair as u64, side, price, order_id: n as u64 };
                assert(self.book@ == b.push(e));
                assert forall|j: int| 0 <= j < b.len() && b[j].pair == e.pair implies !(b[j].side == opposite(side)
                    && crosses(side, price, b[j].price)) by {
                    if known is None {
                        assert(mid.orders@[b[j].order_id as int].pair < mid.pairs@.len());
                    } else {
                        assert(!eligible(b, j, pair as u64, side, price));
                    }
                }
            } else {
                assert(self.book@ == b);
            }
            assert forall|x: int|
                0 <= x < self.orders@.len() && is_live(#[trigger] self.orders@[x].status) implies exists|y: int|
                    0 <= y < self.book@.len() && self.book@[y].order_id == x by {
                if x == n {
                    assert(self.book@[self.book@.len() - 1].order_id == x);
                } else {
                    assert(is_live(mid.orders@[x].status));
                    let y0 = choose|y: int| 0 <= y < b.len() && b[y].order_id == x;
                    assert(self.book@[y0] == b[y0]);
                }
            }
            assert(self.book_wf());
            let ob = old(self).book@;
            let oo = old(self).orders@;
            if known is None {
                lemma_live_entries_all_live(ob, oo);
            }
            assert(b == live_entries(ob, mid.orders@));
            assert forall|i: int| 0 <= i < ob.len() implies self.orders@[(#[trigger] ob[i]).order_id as int]
                == mid.orders@[ob[i].order_id as int] by {
                assert(ob[i].order_id < n);
            }
            lemma_live_entries_agree(ob, self.orders@, mid.orders@);
            lemma_record_extend(fills@, ob, oo, mid.orders@, self.orders@, side);
            if filled < amount {
                assert forall|j: int| !self.crossing_entry(j, token_pair@, side, price) by {
                    if self.crossing_entry(j, token_pair@, side, price) {
                        if j < b.len() {
                            let q = b[j].pair as int;
                            assert(mid.orders@[b[j].order_id as int].pair < mid.pairs@.len());
                            assert(self.pairs@[q] == mid.pairs@[q]);
                            if known is None {
                                assert(mid.pairs@[q]@ != token_pair@);
                            } else {
                                let pi = known->Some_0 as int;
                                if q < pi {
                                    assert(mid.pairs@[q]@ != mid.pairs@[pi]@);
                                } else if q > pi {
                                    assert(mid.pairs@[pi]@ != mid.pairs@[q]@);
                                }
                                assert(!eligible(b, j, pi as u64, side, price));
                            }
                        } else {
                            assert(self.book@[j].side == side);
                        }
                    }
                }
            }
            assert forall|x: int| 0 <= x < n && #[trigger] self.orders@[x] != oo[x] implies exists|j: int|
                0 <= j < ob.len() && ob[j].order_id == x by {
                assert(filled_from(oo[x], mid.orders@[x]));
                assert(is_live(oo[x].status));
            }
        }
        Ok(PlaceReceipt { order_id: n as u64, filled, matches, fills })
    }

    /// Cancels order `order_id` on behalf of its owner `trader` and takes it
    /// out of the book. Returns the part of it that had not traded.
    pub fn cancel_order(&mut self, order_id: OrderId, trader: AccountId) -> (r: Result<Balance, DexError>)
        requires
            old(self).wf(),
        ensures
            final(self).wf(),
            order_id >= old(self).orders@.len() ==> r == Err::<Balance, DexError>(DexError::OrderNotFound),
            order_id < old(self).orders@.len() && old(self).orders@[order_id as int].trader != trader ==> r
                == Err::<Balance, DexError>(DexError::InsufficientBalance),
            order_id < old(self).orders@.len() && old(self).orders@[order_id as int].trader == trader && !is_live(
                old(self).orders@[order_id as int].status,
            ) ==> r == Err::<Balance, DexError>(DexError::OrderNotOpen),
            order_id < old(self).orders@.len() && old(self).orders@[order_id as int].trader == trader && is_live(
                old(self).orders@[order_id as int].status,
            ) ==> r is Ok,
            r is Err ==> *final(self) == *old(self),
            r matches Ok(remaining) ==> {
                let o = old(self).orders@[order_id as int];
                &&& order_id < old(self).orders@.len()
                &&& o.trader == trader
                &&& is_live(o.status)
                &&& remaining == o.amount - o.filled_amount
                &&& final(self).orders@ == old(self).orders@.update(
                    order_id as int,
                    Order { status: ORDER_STATUS_CANCELLED, ..o },
                )
                &&& forall|j: int|
                    0 <= j < final(self).book@.len() ==> final(self).book@[j].order_id != order_id
                &&& (final(self).book@ == old(self).book@ || exists|j: int|
                    0 <= j < old(self).book@.len() && old(self).book@[j].order_id == order_id && final(self).book@
                        == old(self).book@.remove(j))
                &&& final(self).fee_engine == old(self).fee_engine
                &&& final(self).pairs == old(self).pairs
                &&& final(self).trading_volume == old(self).trading_volume
                &&& final(self).pools == old(self).pools
                &&& final(self).lp_positions == old(self).lp_positions
                &&& final(self).config == old(self).config
            },
    {
        if order_id >= self.orders.len() as u64 {
            return Err(DexError::OrderNotFound);
        }
        let k = order_id as usize;
        let o = self.orders[k];
        if o.trader != trader {
            return Err(DexError::InsufficientBalance);
        }
        if o.status != ORDER_STATUS_OPEN && o.status != ORDER_STATUS_PARTIALLY_FILLED {
            return Err(DexError::OrderNotOpen);
        }
        let remaining = o.amount - o.filled_amount;
        let ghost ob = self.book@;
        let ghost mut gone: int = 0;
        match self.find_entry(order_id) {
            Some(i) => {
                self.book.remove(i);
                proof {
                    gone = i as int;
                }
            },
            None => {
                assert(exists|y: int| 0 <= y < ob.len() && ob[y].order_id == k);
            },
        }
        self.orders.set(k, Order { status: ORDER_STATUS_CANCELLED, ..o });
        proof {
            assert(0 <= gone < ob.len() && ob[gone].order_id == k && self.book@ == ob.remove(gone));
            assert forall|x: int|
                0 <= x < self.orders@.len() && is_live(#[trigger] self.orders@[x].status) implies exists|y: int|
                    0 <= y < self.book@.len() && self.book@[y].order_id == x by {
                assert(x != k);
                assert(self.orders@[x] == old(self).orders@[x]);
                assert(is_live(old(self).orders@[x].status));
                let y0 = choose|y: int| 0 <= y < ob.len() && ob[y].order_id == x;
                if y0 < gone {
                    assert(self.book@[y0].order_id == x);
                } else {
                    assert(self.book@[y0 - 1].order_id == x);
                }
            }
        }
        Ok(remaining)
    }

    /// Entry `i` of the book is a resting order of side `side` of the pair
    /// with key `key`.
    pub open spec fn rests_on(&self, i: int, key: Seq<u8>, side: OrderSide) -> bool {
        &&& 0 <= i < self.book@.len()
        &&& self.book@[i].side == side
        &&& self.book@[i].pair < self.pairs@.len()
        &&& self.pairs@[self.book@[i].pair as int]@ == key
    }

    /// Best price resting on `side` of pair index `pair`: the highest for
    /// buyers, the lowest for sellers; `None` if that side is empty.
    fn best_price(&self, pair: u64, side: OrderSide) -> (r: Option<Balance>)
        ensures
            r is None ==> forall|i: int|
                0 <= i < self.book@.len() ==> !(#[trigger] self.book@[i].pair == pair && self.book@[i].side == side),
            r matches Some(p) ==> {
                &&& exists|i: int|
                    0 <= i < self.book@.len() && self.book@[i].pair == pair && self.book@[i].side == side
                        && #[trigger] self.book@[i].price == p
                &&& forall|i: int|
                    0 <= i < self.book@.len() && self.book@[i].pair == pair && self.book@[i].side == side ==> if side
                        == ORDER_SIDE_BUY {
                        #[trigger] self.book@[i].price <= p
                    } else {
                        self.book@[i].price >= p
                    }
            },
    {
        let mut best: Option<Balance> = None;
        let mut i: usize = 0;
        while i < self.book.len()
            invariant
                i <= self.book@.len(),
                best is None ==> forall|j: int|
                    0 <= j < i ==> !(#[trigger] self.book@[j].pair == pair && self.book@[j].side == side),
                best matches Some(p) ==> {
                    &&& exists|j: int|
                        0 <= j < i && self.book@[j].pair == pair && self.book@[j].side == side
                            && #[trigger] self.book@[j].price == p
                    &&& forall|j: int|
                        0 <= j < i && self.book@[j].pair == pair && self.book@[j].side == side ==> if side
                            == ORDER_SIDE_BUY {
                            #[trigger] self.book@[j].price <= p
                        } else {
                            self.book@[j].price >= p
                        }
                },
            decreases self.book@.len() - i,
        {
            let e = self.book[i];
            if e.pair == pair && e.side == side {
                let take = match best {
                    None => true,
                    Some(p) => if side == ORDER_SIDE_BUY { e.price > p } else { e.price < p },
                };
                if take {
                    best = Some(e.price);
                }
            }
            i = i + 1;
        }
        best
    }

    /// The best bid (highest resting buy price) and best ask (lowest
    /// resting sell price) of the pair with key `token_pair`, or `None` if
    /// either side of it is empty.
    pub fn get_order_book_prices(&self, token_pair: &[u8]) -> (r: Option<(Balance, Balance)>)
        requires
            self.wf(),
        ensures
            r is None <==> (forall|i: int| !self.rests_on(i, token_pair@, ORDER_SIDE_BUY)) || (forall|i: int|
                !self.rests_on(i, token_pair@, ORDER_SIDE_SELL)),
            r matches Some((bid, ask)) ==> {
                &&& exists|i: int| self.rests_on(i, token_pair@, ORDER_SIDE_BUY) && self.book@[i].price == bid
                &&& exists|i: int| self.rests_on(i, token_pair@, ORDER_SIDE_SELL) && self.book@[i].price == ask
                &&& forall|i: int| self.rests_on(i, token_pair@, ORDER_SIDE_BUY) ==> self.book@[i].price <= bid
                &&& forall|i: int| self.rests_on(i, token_pair@, ORDER_SIDE_SELL) ==> self.book@[i].price >= ask
            },
    {
        let pi = match self.find_pair(token_pair) {
            Some(pi) => pi,
            None => {
                assert forall|i: int| !self.rests_on(i, token_pair@, ORDER_SIDE_BUY) by {
                }
                return None;
            },
        };
        proof {
            assert forall|i: int, side: OrderSide| #[trigger] self.rests_on(i, token_pair@, side) implies self.book@[i].pair
                == pi by {
                let q = self.book@[i].pair as int;
                if q < pi {
                    assert(self.pairs@[q]@ != self.pairs@[pi as int]@);
                } else if q > pi {
                    assert(self.pairs@[pi as int]@ != self.pairs@[q]@);
                }
            }
            assert forall|i: int, side: OrderSide|
                0 <= i < self.book@.len() && self.book@[i].pair == pi && self.book@[i].side == side implies #[trigger] self.rests_on(
                i,
                token_pair@,
                side,
            ) by {
                assert(self.orders@[self.book@[i].order_id as int].pair < self.pairs@.len());
            }
        }
        let bid = match self.best_price(pi as u64, ORDER_SIDE_BUY) {
            Some(p) => p,
            None => return None,
        };
        let ask = match self.best_price(pi as u64, ORDER_SIDE_SELL) {
            Some(p) => p,
            None => return None,
        };
        proof {
            let ib = choose|i: int|
                0 <= i < self.book@.len() && self.book@[i].pair == pi as u64 && self.book@[i].side == ORDER_SIDE_BUY
                    && #[trigger] self.book@[i].price == bid;
            let ia = choose|i: int|
                0 <= i < self.book@.len() && self.book@[i].pair == pi as u64 && self.book@[i].side == ORDER_SIDE_SELL
                    && #[trigger] self.book@[i].price == ask;
            assert(self.rests_on(ib, token_pair@, ORDER_SIDE_BUY));
            assert(self.rests_on(ia, token_pair@, ORDER_SIDE_SELL));
        }
        Some((bid, ask))
    }

    /// Order `order_id`, if it exists.
    pub fn get_order(&self, order_id: OrderId) -> (r: Option<Order>)
        ensures
            order_id < self.orders@.len() ==> r == Some(self.orders@[order_id as int]),
            order_id >= self.orders@.len() ==> r is None,
    {
        if order_id >= self.orders.len() as u64 {
            return None;
        }
        Some(self.orders[order_id as usize])
    }

    /// Id that the next order placed will get.
    pub fn next_order_id(&self) -> (r: usize)
        ensures
            r == self.orders@.len(),
    {
        self.orders.len()
    }

    /// Whether order `order_id` rests in the book.
    pub fn is_resting(&self, order_id: OrderId) -> (r: bool)
        ensures
            r == exists|i: int| 0 <= i < self.book@.len() && self.book@[i].order_id == order_id,
    {
        self.find_entry(order_id).is_some()
    }

    /// One trade of the matching loop keeps the loop's bookkeeping: the
    /// resting entries keep their order and their place in the original
    /// book, untraded entries keep resting, and what traded so far was ahead
    /// of what could have traded and did not.
    proof fn lemma_priority_step(
        &self,
        ob: Seq<BookEntry>,
        oo: Seq<Order>,
        before: Seq<Order>,
        before_book: Seq<BookEntry>,
        idx: Seq<int>,
        p: int,
        q_pos: int,
        pair: u64,
        side: OrderSide,
        limit: Balance,
        removed: bool,
    )
        requires
            0 <= p < before_book.len(),
            eligible(before_book, p, pair, side, limit),
            forall|j: int| eligible(before_book, j, pair, side, limit) ==> ahead(before_book, side, p, j),
            forall|a: int, b: int| 0 <= a < b < ob.len() ==> #[trigger] ob[a].order_id != #[trigger] ob[b].order_id,
            idx[p] == q_pos,
            resting_positions(ob, before_book, before, idx),
            forall|i: int| 0 <= i < ob.len() ==> is_live(oo[(#[trigger] ob[i]).order_id as int].status),
            removed <==> !is_live(self.orders@[ob[q_pos].order_id as int].status),
            traded_in_priority(ob, oo, before, pair, side, limit),
            removed ==> self.book@ == before_book.remove(p),
            !removed ==> self.book@ == before_book,
            self.orders@.len() == before.len(),
            forall|k: int| 0 <= k < ob.len() ==> (#[trigger] ob[k]).order_id < before.len(),
            forall|k: int| 0 <= k < before.len() && k != ob[q_pos].order_id ==> #[trigger] self.orders@[k] == before[k],
            self.orders@[ob[q_pos].order_id as int] != oo[ob[q_pos].order_id as int],
        ensures
            resting_positions(ob, self.book@, self.orders@, if removed { idx.remove(p) } else { idx }),
            traded_in_priority(ob, oo, self.orders@, pair, side, limit),
    {
        let idx_after = if removed { idx.remove(p) } else { idx };
        assert(0 <= q_pos < ob.len());
        assert(idx_after.len() == self.book@.len());
        assert forall|k: int|
            0 <= k < idx_after.len() implies 0 <= #[trigger] idx_after[k] < ob.len() && self.book@[k] == ob[idx_after[k]] by {
            if removed {
                if k >= p {
                    assert(idx_after[k] == idx[k + 1]);
                    assert(self.book@[k] == before_book[k + 1]);
                } else {
                    assert(idx_after[k] == idx[k]);
                    assert(self.book@[k] == before_book[k]);
                }
            }
        }
        assert forall|k1: int, k2: int| 0 <= k1 < k2 < idx_after.len() implies #[trigger] idx_after[k1]
            < #[trigger] idx_after[k2] by {
            if removed {
                if k1 >= p {
                    assert(idx[k1 + 1] < idx[k2 + 1]);
                } else if k2 >= p {
                    assert(idx[k1] < idx[k2 + 1]);
                }
            }
        }
        assert forall|i: int|
            0 <= i < ob.len() && ob[i].order_id < self.orders@.len() && is_live(
                #[trigger] self.orders@[ob[i].order_id as int].status,
            ) implies exists|k: int| 0 <= k < idx_after.len() && #[trigger] idx_after[k] == i by {
            if i == q_pos {
                assert(!removed);
                assert(idx_after[p] == i);
            } else {
            if i < q_pos {
                assert(ob[i].order_id != ob[q_pos].order_id);
            } else {
                assert(ob[q_pos].order_id != ob[i].order_id);
            }
            assert(before[ob[i].order_id as int] == self.orders@[ob[i].order_id as int]);
            let k = choose|k: int| 0 <= k < idx.len() && #[trigger] idx[k] == i;
            assert(k != p);
            if removed {
                if k < p {
                    assert(idx_after[k] == i);
                } else {
                    assert(idx_after[k - 1] == i);
                }
            } else {
                assert(idx_after[k] == i);
            }
            }
        }
        assert forall|j: int, i: int|
            0 <= j < ob.len() && self.orders@[ob[j].order_id as int] != oo[ob[j].order_id as int]
                && self.orders@[ob[i].order_id as int] == oo[ob[i].order_id as int] && #[trigger] eligible(
                ob,
                i,
                pair,
                side,
                limit,
            ) implies #[trigger] ahead(ob, side, j, i) by {
            assert(i != q_pos);
            if i < q_pos {
                assert(ob[i].order_id != ob[q_pos].order_id);
            } else {
                assert(ob[q_pos].order_id != ob[i].order_id);
            }
            assert(before[ob[i].order_id as int] == oo[ob[i].order_id as int]);
            assert(is_live(before[ob[i].order_id as int].status));
            if j == q_pos {
                let k = choose|k: int| 0 <= k < idx.len() && #[trigger] idx[k] == i;
                assert(before_book[k] == ob[i]);
                assert(before_book[p] == ob[q_pos]);
                assert(eligible(before_book, k, pair, side, limit));
                assert(ahead(before_book, side, p, k));
                if p < k {
                    assert(idx[p] < idx[k]);
                }
            } else {
                if j < q_pos {
                    assert(ob[j].order_id != ob[q_pos].order_id);
                } else {
                    assert(ob[q_pos].order_id != ob[j].order_id);
                }
                assert(self.orders@[ob[j].order_id as int] == before[ob[j].order_id as int]);
            }
        }
    }

    /// Index in the book of the entry of order `order_id`, if it rests there.
    pub fn find_entry(&self, order_id: OrderId) -> (r: Option<usize>)
        ensures
            r matches Some(i) ==> i < self.book@.len() && self.book@[i as int].order_id == order_id,
            r is None ==> forall|i: int| 0 <= i < self.book@.len() ==> self.book@[i].order_id != order_id,
    {
        let mut i: usize = 0;
        while i < self.book.len()
            invariant
                i <= self.book@.len(),
                forall|j: int| 0 <= j < i ==> self.book@[j].order_id != order_id,
            decreases self.book@.len() - i,
        {
            if self.book[i].order_id == order_id {
                return Some(i);
            }
            i = i + 1;
        }
        None
    }
}

} // verus!
