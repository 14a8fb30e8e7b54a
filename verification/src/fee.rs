//! Splitting an amount into a protocol fee and the net payout.

use vstd::prelude::*;
use crate::circle::fits_i128;

verus! {

/// Integer division rounding toward zero, as Rust's `/` on signed integers
/// does (`d > 0`).
pub open spec fn div_trunc(a: int, d: int) -> int {
    if a >= 0 {
        a / d
    } else {
        -((-a) / d)
    }
}

/// The fee on `amount` at `fee_bps` basis points: `fee_bps * amount / 10_000`,
/// rounded toward zero.
pub open spec fn fee_of(fee_bps: u32, amount: i128) -> int {
    div_trunc(fee_bps * amount, 10_000)
}

/// `(d * x + y) / d == x + y / d` for `y >= 0`.
proof fn lemma_div_shift(x: int, y: int, d: int)
    requires
        d > 0,
        y >= 0,
    ensures
        (d * x + y) / d == x + y / d,
{
    vstd::arithmetic::div_mod::lemma_fundamental_div_mod(y, d);
    let k = y / d;
    let m = y % d;
    assert(d * x + y == d * (x + k) + m) by (nonlinear_arith)
        requires
            y == d * k + m,
    ;
    vstd::arithmetic::div_mod::lemma_div_multiples_vanish_fancy(x + k, m, d);
}

/// `(b * a) / d` rounds toward zero to `b * q + (b * r) / d` where `q`, `r` are
/// the quotient and remainder of `a` by `d`, both rounded toward zero.
proof fn lemma_fee_by_parts(b: int, a: int, d: int)
    requires
        b >= 0,
        d > 0,
    ensures
        div_trunc(b * a, d) == b * div_trunc(a, d) + div_trunc(b * (a - d * div_trunc(a, d)), d),
{
    let q = div_trunc(a, d);
    let r = a - d * q;
    if a >= 0 {
        assert(q == a / d && r == a % d && 0 <= r < d) by {
            vstd::arithmetic::div_mod::lemma_fundamental_div_mod(a, d);
        }
        assert(b * a == d * (b * q) + b * r) by (nonlinear_arith)
            requires
                a == d * q + r,
        ;
        assert(b * q >= 0 && b * r >= 0) by (nonlinear_arith)
            requires
                b >= 0,
                q >= 0,
                r >= 0,
        ;
        assert(b * a >= 0);
        lemma_div_shift(b * q, b * r, d);
        assert(div_trunc(b * r, d) == (b * r) / d);
    } else {
        let na = -a;
        let nq = na / d;
        let nr = na % d;
        vstd::arithmetic::div_mod::lemma_fundamental_div_mod(na, d);
        assert(q == -nq);
        assert(d * q == -(d * nq)) by (nonlinear_arith)
            requires
                q == -nq,
        ;
        assert(r == -nr);
        assert(0 <= nr < d);
        assert(b * na == d * (b * nq) + b * nr) by (nonlinear_arith)
            requires
                na == d * nq + nr,
        ;
        assert(b * nq >= 0 && b * nr >= 0) by (nonlinear_arith)
            requires
                b >= 0,
                nq >= 0,
                nr >= 0,
        ;
        lemma_div_shift(b * nq, b * nr, d);
        assert(b * a == -(b * na)) by (nonlinear_arith)
            requires
                na == -a,
        ;
        assert(b * r == -(b * nr)) by (nonlinear_arith)
            requires
                r == -nr,
        ;
        assert(b * q == -(b * nq)) by (nonlinear_arith)
            requires
                q == -nq,
        ;
        if b * na == 0 {
            assert(b * nq == 0 && b * nr == 0);
        }
        if b * nr == 0 {
            assert(div_trunc(b * r, d) == 0);
        }
    }
}

/// Splits `amount` into `(fee, net)`: `fee = fee_bps * amount / 10_000`
/// rounded toward zero, `net = amount - fee`. The product is never formed:
/// with `amount = q * 10_000 + r`, `fee = fee_bps * q + fee_bps * r / 10_000`.
///
/// `fee + net == amount` always. For `amount >= 0` and `fee_bps <= 10_000`
/// the fee lies between 0 and `amount`.
pub fn apply_fee(fee_bps: u32, amount: i128) -> (split: (i128, i128))
    requires
        fits_i128(fee_of(fee_bps, amount)),
        fits_i128(amount - fee_of(fee_bps, amount)),
    ensures
        split.0 == fee_of(fee_bps, amount),
        split.0 + split.1 == amount,
        0 <= amount && fee_bps <= 10_000 ==> 0 <= split.0 <= amount,
{
    let bps = fee_bps as i128;
    let q = amount / 10_000;
    let r = amount % 10_000;
    proof {
        assert(q == div_trunc(amount as int, 10_000));
        assert(r == amount - 10_000 * q);
        lemma_fee_by_parts(bps as int, amount as int, 10_000);
        assert(-10_000 < r < 10_000);
        assert(-10_000 * 0x1_0000_0000 <= bps * r <= 10_000 * 0x1_0000_0000) by (nonlinear_arith)
            requires
                -10_000 < r < 10_000,
                0 <= bps < 0x1_0000_0000,
        ;
        let part = div_trunc(bps * r, 10_000);
        assert(-0x1_0000_0000 <= part <= 0x1_0000_0000);
        assert(bps * q == fee_of(fee_bps, amount) - part);
        assert((amount >= 0 ==> bps * q >= 0 && part >= 0) && (amount < 0 ==> bps * q <= 0
            && part <= 0)) by (nonlinear_arith)
            requires
                amount >= 0 ==> q >= 0 && r >= 0,
                amount < 0 ==> q <= 0 && r <= 0,
                bps >= 0,
                part == div_trunc(bps * r, 10_000),
        ;
        if 0 <= amount && fee_bps <= 10_000 {
            assert(bps * amount <= 10_000 * amount) by (nonlinear_arith)
                requires
                    0 <= amount,
                    bps <= 10_000,
            ;
            assert(bps * amount >= 0) by (nonlinear_arith)
                requires
                    0 <= amount,
                    bps >= 0,
            ;
            assert((bps * amount) / 10_000 <= amount) by {
                vstd::arithmetic::div_mod::lemma_div_is_ordered(bps * amount, 10_000 * amount, 10_000);
                vstd::arithmetic::div_mod::lemma_div_multiples_vanish(amount as int, 10_000);
            }
        }
    }
    let fee = bps * q + bps * r / 10_000;
    let net = amount - fee;
    (fee, net)
}

} // verus!
