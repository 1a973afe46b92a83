//! Integer arithmetic of the exchange: the integer square root that sizes the
//! first liquidity shares, and the constant-product swap formula.
use vstd::prelude::*;

verus! {

/// Basis points in one whole.
pub const BPS_DENOMINATOR: u128 = 10_000;

/// `r` is the integer square root of `n`: the largest `r` with `r * r <= n`.
pub open spec fn is_isqrt(n: int, r: int) -> bool {
    &&& 0 <= r
    &&& r * r <= n
    &&& n < (r + 1) * (r + 1)
}

/// The integer square root is unique.
pub proof fn lemma_isqrt_unique(n: int, r1: int, r2: int)
    requires
        is_isqrt(n, r1),
        is_isqrt(n, r2),
    ensures
        r1 == r2,
{
    if r1 < r2 {
        assert((r1 + 1) * (r1 + 1) <= r2 * r2) by (nonlinear_arith)
            requires
                0 <= r1,
                r1 + 1 <= r2,
        ;
    } else if r2 < r1 {
        assert((r2 + 1) * (r2 + 1) <= r1 * r1) by (nonlinear_arith)
            requires
                0 <= r2,
                r2 + 1 <= r1,
        ;
    }
}

/// The integer square root of `n`.
pub open spec fn isqrt_spec(n: int) -> int {
    choose|r: int| is_isqrt(n, r)
}

/// Floor of the square root of `n`.
pub fn integer_sqrt(n: u128) -> (r: u128)
    ensures
        is_isqrt(n as int, r as int),
        r == isqrt_spec(n as int),
{
    // search for the largest r in [lo, hi) with r * r <= n
    let mut lo: u128 = 0;
    let mut hi: u128 = 0x1_0000_0000_0000_0000;
    assert(hi * hi > u128::MAX) by (nonlinear_arith)
        requires
            hi == 0x1_0000_0000_0000_0000u128,
    ;
    while hi - lo > 1
        invariant
            lo < hi,
            hi <= 0x1_0000_0000_0000_0000u128,
            lo * lo <= n,
            n < hi * hi,
        decreases hi - lo,
    {
        let mid: u128 = lo + (hi - lo) / 2;
        assert(mid * mid <= u128::MAX) by (nonlinear_arith)
            requires
                mid < 0x1_0000_0000_0000_0000u128,
        ;
        if mid * mid <= n {
            lo = mid;
        } else {
            hi = mid;
        }
    }
    proof {
        assert(lo + 1 == hi);
        assert(is_isqrt(n as int, lo as int));
        lemma_isqrt_unique(n as int, lo as int, isqrt_spec(n as int));
    }
    lo
}

/// Trading fee kept from `amount_in` at `bps` basis points, rounded down.
pub open spec fn trading_fee_spec(amount_in: int, bps: int) -> int {
    amount_in * bps / 10_000
}

/// Output of the constant-product swap of `amount_in_with_fee` into a pool
/// with reserves `reserve_in` and `reserve_out`, rounded down.
pub open spec fn swap_output_spec(reserve_in: int, reserve_out: int, amount_in_with_fee: int) -> int {
    reserve_out * amount_in_with_fee / (reserve_in + amount_in_with_fee)
}

/// The result of pricing a swap: the fee kept and the amount paid out.
#[derive(Clone, Copy, Debug, PartialEq, Eq, Structural)]
pub struct SwapQuote {
    pub fee: u128,
    pub amount_out: u128,
}

/// Why a swap could not be priced.
#[derive(Clone, Copy, Debug, PartialEq, Eq, Structural)]
pub enum QuoteError {
    /// A product or sum exceeds the balance type.
    Overflow,
    /// The fee exceeds the input, or the divisor is zero.
    Underflow,
}

/// Pricing of a swap with checked arithmetic, failing at the first step that
/// leaves the balance type: the fee, the input net of fee, the product
/// `reserve_out * net`, the divisor `reserve_in + net`, and the division.
pub open spec fn quote_spec(reserve_in: u128, reserve_out: u128, amount_in: u128, bps: u32) -> Result<SwapQuote, QuoteError> {
    let fee = trading_fee_spec(amount_in as int, bps as int);
    let net = amount_in - fee;
    if amount_in * bps > u128::MAX {
        Err(QuoteError::Overflow)
    } else if net < 0 {
        Err(QuoteError::Underflow)
    } else if reserve_out * net > u128::MAX {
        Err(QuoteError::Overflow)
    } else if reserve_in + net > u128::MAX {
        Err(QuoteError::Overflow)
    } else if reserve_in + net == 0 {
        Err(QuoteError::Underflow)
    } else {
        Ok(SwapQuote { fee: fee as u128, amount_out: swap_output_spec(reserve_in as int, reserve_out as int, net) as u128 })
    }
}

/// Prices a swap of `amount_in` at a fee of `bps` basis points against
/// reserves `reserve_in` / `reserve_out`.
pub fn quote_swap(reserve_in: u128, reserve_out: u128, amount_in: u128, bps: u32) -> (r: Result<SwapQuote, QuoteError>)
    ensures
        r == quote_spec(reserve_in, reserve_out, amount_in, bps),
{
    let scaled = match amount_in.checked_mul(bps as u128) {
        Some(v) => v,
        None => return Err(QuoteError::Overflow),
    };
    let fee = scaled / BPS_DENOMINATOR;
    let net = match amount_in.checked_sub(fee) {
        Some(v) => v,
        None => return Err(QuoteError::Underflow),
    };
    let numerator = match reserve_out.checked_mul(net) {
        Some(v) => v,
        None => return Err(QuoteError::Overflow),
    };
    let divisor = match reserve_in.checked_add(net) {
        Some(v) => v,
        None => return Err(QuoteError::Overflow),
    };
    if divisor == 0 {
        return Err(QuoteError::Underflow);
    }
    Ok(SwapQuote { fee, amount_out: numerator / divisor })
}

/// A priced swap keeps the constant product from falling: the output never
/// exceeds the output reserve, the fee never exceeds the input, and after
/// the whole input is added to one reserve and the output taken from the
/// other, the product of the two reserves is at least what it was.
pub proof fn lemma_swap_keeps_product(reserve_in: u128, reserve_out: u128, amount_in: u128, bps: u32)
    requires
        quote_spec(reserve_in, reserve_out, amount_in, bps) is Ok,
    ensures
        ({
            let q = quote_spec(reserve_in, reserve_out, amount_in, bps)->Ok_0;
            &&& q.amount_out <= reserve_out
            &&& q.fee <= amount_in
            &&& (reserve_in + amount_in) * (reserve_out - q.amount_out) >= reserve_in * reserve_out
            &&& reserve_in > 0 && reserve_out > 0 ==> q.amount_out < reserve_out
        }),
{
    let fee = trading_fee_spec(amount_in as int, bps as int);
    let net = amount_in - fee;
    let rin = reserve_in as int;
    let rout = reserve_out as int;
    let ain = amount_in as int;
    let d = rin + net;
    let out = rout * net / d;
    assert(0 <= fee) by (nonlinear_arith)
        requires
            fee == ain * (bps as int) / 10_000,
            ain >= 0,
            bps >= 0,
    ;
    assert(out * d <= rout * net) by (nonlinear_arith)
        requires
            d > 0,
            out == rout * net / d,
            rout * net >= 0,
    ;
    assert(0 <= out <= rout) by (nonlinear_arith)
        requires
            d > 0,
            0 <= net <= d,
            rout >= 0,
            out == rout * net / d,
    ;
    if rin > 0 && rout > 0 {
        assert(out < rout) by (nonlinear_arith)
            requires
                d == rin + net,
                rin > 0,
                rout > 0,
                0 <= net,
                out * d <= rout * net,
        ;
    }
    assert((rin + ain) * (rout - out) >= rin * rout) by (nonlinear_arith)
        requires
            0 <= net <= ain,
            rin >= 0,
            0 <= out <= rout,
            d == rin + net,
            out * d <= rout * net,
    ;
}

} // verus!
