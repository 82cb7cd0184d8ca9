//! Arithmetic on doubles. A result that is not a double itself is rounded to
//! the nearest one, and halfway between two to the one whose last bit is 0.
use crate::binary64;
use crate::binary64::Binary64;
use vstd::arithmetic::power2::{
    lemma_pow2_adds, lemma_pow2_pos, lemma_pow2_strictly_increases, lemma_pow2_unfold, pow2,
};
use vstd::prelude::*;

verus! {

/// The bits of positive infinity.
pub const INFINITY: u64 = 0x7FF0_0000_0000_0000;

/// The bits of a double that is not a number.
pub const NAN: u64 = 0x7FF8_0000_0000_0000;

/// The bits of 1.
pub const UNITY: u64 = 0x3FF0_0000_0000_0000;

/// The bits of 60, the seconds of a minute.
pub const MINUTE: u64 = 0x404E_0000_0000_0000;

/// The bits of 100.
pub const HUNDRED: u64 = 0x4059_0000_0000_0000;

/// The bits of 3600, the seconds of an hour.
pub const HOUR: u64 = 0x40AC_2000_0000_0000;

/// Whether `b` holds the bits of the non-negative double nearest to `n / d`
/// units. On either side the middle between it and its neighbour is the
/// limit; the middle itself belongs to the even bits.
pub open spec fn is_nearest(b: nat, n: nat, d: nat) -> bool {
    &&& b <= INFINITY
    &&& b > 0 ==> {
        let middle = d * (binary64::magnitude_at((b - 1) as nat) + binary64::magnitude_at(b));
        2 * n > middle || (2 * n == middle && b % 2 == 0)
    }
    &&& b < INFINITY ==> {
        let middle = d * (binary64::magnitude_at(b) + binary64::magnitude_at(b + 1));
        2 * n < middle || (2 * n == middle && b % 2 == 0)
    }
}

/// The bits of the non-negative double nearest to `n / d` units.
pub open spec fn nearest(n: nat, d: nat) -> nat {
    choose|b: nat| is_nearest(b, n, d)
}

/// Of two doubles the lesser and the greater are not both nearest.
proof fn lemma_not_both(a: nat, b: nat, n: nat, d: nat)
    requires
        d > 0,
        a < b,
        is_nearest(a, n, d),
    ensures
        !is_nearest(b, n, d),
{
    let low = binary64::magnitude_at(a) + binary64::magnitude_at(a + 1);
    let high = binary64::magnitude_at((b - 1) as nat) + binary64::magnitude_at(b);
    if a + 1 < b {
        binary64::lemma_bits_order(a, (b - 1) as nat);
        binary64::lemma_bits_order(a + 1, b);
        assert(d * low < d * high) by (nonlinear_arith)
            requires
                low < high,
                d > 0,
        ;
    }
}

/// Whatever is nearest to `n / d` is what `nearest` gives: there is but one.
pub proof fn law_nearest_is_unique(b: nat, n: nat, d: nat)
    requires
        d > 0,
        is_nearest(b, n, d),
    ensures
        nearest(n, d) == b,
{
    let a = nearest(n, d);
    if a < b {
        lemma_not_both(a, b, n, d);
    }
    if b < a {
        lemma_not_both(b, a, n, d);
    }
}

/// A double is nearest to itself.
pub proof fn law_doubles_are_kept(b: nat, d: nat)
    requires
        d > 0,
        b <= INFINITY,
    ensures
        nearest(d * binary64::magnitude_at(b), d) == b,
{
    let m = binary64::magnitude_at(b);
    let n = d * m;
    if b > 0 {
        let below = binary64::magnitude_at((b - 1) as nat);
        binary64::lemma_bits_order((b - 1) as nat, b);
        assert(2 * (d * m) > d * (below + m)) by (nonlinear_arith)
            requires
                below < m,
                d > 0,
        ;
    }
    if b < INFINITY {
        let above = binary64::magnitude_at(b + 1);
        binary64::lemma_bits_order(b, b + 1);
        assert(2 * (d * m) < d * (m + above)) by (nonlinear_arith)
            requires
                m < above,
                d > 0,
        ;
    }
    law_nearest_is_unique(b, n, d);
}

/// The bits of a significand of at most 53 bits times a power of two.
proof fn lemma_encode(t: nat, h: nat)
    requires
        h <= 0x20_0000_0000_0000,
        t == 0 || h >= 0x10_0000_0000_0000,
    ensures
        binary64::magnitude_at(t * 0x10_0000_0000_0000 + h) == h * pow2(t),
{
    let b = t * 0x10_0000_0000_0000 + h;
    vstd::arithmetic::power2::lemma2_to64();
    if h < 0x10_0000_0000_0000 {
        assert(b / 0x10_0000_0000_0000 == 0 && b % 0x10_0000_0000_0000 == h);
    } else if h < 0x20_0000_0000_0000 {
        assert(b / 0x10_0000_0000_0000 == t + 1);
        assert(b % 0x10_0000_0000_0000 == h - 0x10_0000_0000_0000);
    } else {
        assert(b / 0x10_0000_0000_0000 == t + 2);
        assert(b % 0x10_0000_0000_0000 == 0);
        lemma_pow2_unfold(t + 1);
        let p = pow2(t);
        assert(0x10_0000_0000_0000 * (2 * p) == h * p) by (nonlinear_arith)
            requires
                h == 0x20_0000_0000_0000,
        ;
    }
}

/// Rounding `n / d` units on the grid of step `2^t`: between the grid points
/// `h` and `h + 1`, the nearer one is the nearest double.
proof fn lemma_round(n: nat, d: nat, t: nat, h: nat, up: bool)
    requires
        d > 0,
        h < 0x20_0000_0000_0000,
        t == 0 || h >= 0x10_0000_0000_0000,
        d * (h * pow2(t)) <= n < d * ((h + 1) * pow2(t)),
        up ==> {
            let middle = d * ((2 * h + 1) * pow2(t));
            2 * n > middle || (2 * n == middle && h % 2 == 1)
        },
        !up ==> {
            let middle = d * ((2 * h + 1) * pow2(t));
            2 * n < middle || (2 * n == middle && h % 2 == 0)
        },
    ensures
        ({
            let b = t * 0x10_0000_0000_0000 + h + (if up {
                1nat
            } else {
                0nat
            });
            nearest(n, d) == (if b > INFINITY {
                INFINITY as nat
            } else {
                b
            })
        }),
{
    let p = pow2(t);
    lemma_pow2_pos(t);
    let low = t * 0x10_0000_0000_0000 + h;
    lemma_encode(t, h);
    lemma_encode(t, h + 1);
    let b = if up {
        low + 1
    } else {
        low
    };
    assert(h * p + (h + 1) * p == (2 * h + 1) * p) by (nonlinear_arith);
    assert(b % 2 == 0 <==> (if up {
        h % 2 == 1
    } else {
        h % 2 == 0
    }));
    if b > INFINITY {
        let top = binary64::magnitude_at(INFINITY as nat);
        let under = binary64::magnitude_at((INFINITY - 1) as nat);
        binary64::lemma_bits_order((INFINITY - 1) as nat, INFINITY as nat);
        if low > INFINITY {
            binary64::lemma_bits_order(INFINITY as nat, low);
        }
        assert(d * (h * p) >= d * top) by (nonlinear_arith)
            requires
                h * p >= top,
        ;
        assert(2 * (d * top) > d * (under + top)) by (nonlinear_arith)
            requires
                under < top,
                d > 0,
        ;
        law_nearest_is_unique(INFINITY as nat, n, d);
    } else {
        if up {
            if b < INFINITY {
                let above = binary64::magnitude_at(b + 1);
                let here = (h + 1) * p;
                binary64::lemma_bits_order(b, b + 1);
                assert(2 * (d * here) < d * (here + above)) by (nonlinear_arith)
                    requires
                        here < above,
                        d > 0,
                ;
            }
        } else {
            if b > 0 {
                let below = binary64::magnitude_at((b - 1) as nat);
                let here = h * p;
                binary64::lemma_bits_order((b - 1) as nat, b);
                assert(2 * (d * here) > d * (below + here)) by (nonlinear_arith)
                    requires
                        below < here,
                        d > 0,
                ;
            }
        }
        law_nearest_is_unique(b, n, d);
    }
}

/// Whether `n / d` units are `q` times `2^up` divided by `2^down`; or, with
/// something `lost` in `q`, between that and what `q + 1` gives.
pub open spec fn lies_at(n: nat, d: nat, q: nat, lost: bool, up: nat, down: nat) -> bool {
    if lost {
        d * (q * pow2(up)) < n * pow2(down) < d * ((q + 1) * pow2(up))
    } else {
        n * pow2(down) == d * (q * pow2(up))
    }
}

/// From the position of `n / d` among the multiples of `x / a` to its
/// position on the grid of step `t`, where `x / a` is `t / p`.
proof fn lemma_grid(
    n: nat,
    d: nat,
    a: nat,
    x: nat,
    t: nat,
    p: nat,
    q: nat,
    lost: bool,
)
    requires
        d > 0,
        a > 0,
        x > 0,
        p > 0,
        p % 2 == 0,
        a * t == p * x,
        lost ==> d * (q * x) < n * a < d * ((q + 1) * x),
        !lost ==> n * a == d * (q * x),
    ensures
        ({
            let h = q / p;
            let rem = q % p;
            let middle = d * ((2 * h + 1) * t);
            &&& d * (h * t) <= n < d * ((h + 1) * t)
            &&& 2 * rem > p ==> 2 * n > middle
            &&& 2 * rem < p ==> 2 * n < middle
            &&& 2 * rem == p ==> (if lost {
                2 * n > middle
            } else {
                2 * n == middle
            })
        }),
{
    let h = q / p;
    let rem = q % p;
    vstd::arithmetic::div_mod::lemma_fundamental_div_mod(q as int, p as int);
    let dx = d * x;
    assert(dx > 0) by (nonlinear_arith)
        requires
            d > 0,
            x > 0,
            dx == d * x,
    ;
    assert(d * (q * x) == q * dx) by (nonlinear_arith)
        requires
            dx == d * x,
    ;
    assert(d * ((q + 1) * x) == (q + 1) * dx) by (nonlinear_arith)
        requires
            dx == d * x,
    ;
    assert((d * (h * t)) * a == (h * p) * dx) by (nonlinear_arith)
        requires
            a * t == p * x,
            dx == d * x,
    ;
    assert((d * ((h + 1) * t)) * a == ((h + 1) * p) * dx) by (nonlinear_arith)
        requires
            a * t == p * x,
            dx == d * x,
    ;
    assert((d * ((2 * h + 1) * t)) * a == ((2 * h + 1) * p) * dx) by (nonlinear_arith)
        requires
            a * t == p * x,
            dx == d * x,
    ;
    assert(q == p * h + rem);
    assert(p * h == h * p) by (nonlinear_arith);
    assert((h + 1) * p == h * p + p) by (nonlinear_arith);
    assert((2 * h + 1) * p == 2 * (h * p) + p) by (nonlinear_arith);
    let (lo, mid, hi) = (d * (h * t), d * ((2 * h + 1) * t), d * ((h + 1) * t));
    lemma_scaled_order(h * p, q, dx);
    lemma_scaled_order(q + 1, (h + 1) * p, dx);
    if 2 * rem > p {
        lemma_scaled_order((2 * h + 1) * p + 1, 2 * q, dx);
    }
    if 2 * rem < p {
        lemma_scaled_order(2 * q + 2, (2 * h + 1) * p, dx);
    }
    assert((q + 1) * dx == q * dx + dx) by (nonlinear_arith);
    assert((2 * q) * dx == 2 * (q * dx)) by (nonlinear_arith);
    assert((2 * q + 2) * dx == 2 * (q * dx) + 2 * dx) by (nonlinear_arith);
    assert(((2 * h + 1) * p + 1) * dx == ((2 * h + 1) * p) * dx + dx) by (nonlinear_arith);
    assert((2 * n) * a == 2 * (n * a)) by (nonlinear_arith);
    lemma_unscaled(lo, n, a);
    lemma_unscaled(n, hi, a);
    lemma_unscaled(2 * n, mid, a);
    lemma_unscaled(mid, 2 * n, a);
}

/// Multiplication keeps the order.
proof fn lemma_scaled_order(a: nat, b: nat, k: nat)
    requires
        a <= b,
    ensures
        a * k <= b * k,
{
    assert(a * k <= b * k) by (nonlinear_arith)
        requires
            a <= b,
    ;
}

/// A common factor does not matter in a comparison.
proof fn lemma_unscaled(a: nat, b: nat, k: nat)
    requires
        k > 0,
    ensures
        a * k < b * k <==> a < b,
        a * k <= b * k <==> a <= b,
        a * k == b * k <==> a == b,
{
    assert(a * k < b * k <==> a < b) by (nonlinear_arith)
        requires
            k > 0,
    ;
    assert(b * k < a * k <==> b < a) by (nonlinear_arith)
        requires
            k > 0,
    ;
}

/// How many bits `q` takes.
fn bit_length(q: u128) -> (r: u32)
    requires
        q < 0x4000_0000_0000_0000_0000_0000_0000_0000,
    ensures
        r <= 126,
        q < pow2(r as nat),
        q > 0 ==> r > 0 && pow2((r - 1) as nat) <= q,
{
    let mut r: u32 = 0;
    let mut p: u128 = 1;
    proof {
        vstd::arithmetic::power2::lemma2_to64();
        lemma_pow2_126();
    }
    while p <= q
        invariant
            q < 0x4000_0000_0000_0000_0000_0000_0000_0000,
            pow2(126) == 0x4000_0000_0000_0000_0000_0000_0000_0000,
            r <= 126,
            p == pow2(r as nat),
            r > 0 ==> pow2((r - 1) as nat) <= q,
            q > 0 || r == 0,
            r == 0 ==> p == 1,
        decreases 126 - r,
    {
        proof {
            lemma_pow2_unfold((r + 1) as nat);
        }
        p = p * 2;
        r += 1;
    }
    r
}

/// `2^126`.
proof fn lemma_pow2_126()
    ensures
        pow2(126) == 0x4000_0000_0000_0000_0000_0000_0000_0000,
{
    vstd::arithmetic::power2::lemma2_to64_rest();
    lemma_pow2_adds(63, 63);
    assert(0x8000_0000_0000_0000 * 0x8000_0000_0000_0000
        == 0x4000_0000_0000_0000_0000_0000_0000_0000);
}

/// Powers of two grow.
proof fn lemma_pow2_order(a: nat, b: nat)
    requires
        a <= b,
    ensures
        pow2(a) <= pow2(b),
{
    if a < b {
        lemma_pow2_strictly_increases(a, b);
    }
}

/// The upper bits of a number of `len` bits.
proof fn lemma_top_bits(q: nat, len: nat, s: nat)
    requires
        q < pow2(len),
        len <= 53 + s,
    ensures
        q / pow2(s) < 0x20_0000_0000_0000,
        len == 53 + s && pow2((len - 1) as nat) <= q ==> q / pow2(s) >= 0x10_0000_0000_0000,
{
    let p = pow2(s);
    lemma_pow2_pos(s);
    vstd::arithmetic::power2::lemma2_to64_rest();
    lemma_pow2_order(len, 53 + s);
    lemma_pow2_adds(53, s);
    lemma_pow2_adds(52, s);
    vstd::arithmetic::div_mod::lemma_fundamental_div_mod(q as int, p as int);
    let h = q / p;
    assert(p * h <= q);
    assert(h < 0x20_0000_0000_0000) by (nonlinear_arith)
        requires
            p * h < 0x20_0000_0000_0000 * p,
            p > 0,
    ;
    if len == 53 + s && pow2((len - 1) as nat) <= q {
        assert(h + 1 > 0x10_0000_0000_0000) by (nonlinear_arith)
            requires
                0x10_0000_0000_0000 * p < p * h + p,
                p > 0,
        ;
    }
}

/// A number of at most 53 bits, shifted up.
proof fn lemma_low_bits(q: nat, len: nat, w: nat)
    requires
        q < pow2(len),
        len + w <= 53,
    ensures
        q * pow2(w) < 0x20_0000_0000_0000,
        len + w == 53 && len > 0 && pow2((len - 1) as nat) <= q ==> q * pow2(w)
            >= 0x10_0000_0000_0000,
{
    let p = pow2(w);
    lemma_pow2_pos(w);
    vstd::arithmetic::power2::lemma2_to64_rest();
    lemma_pow2_adds(len, w);
    lemma_pow2_order(len + w, 53);
    let top = pow2(len);
    assert(q * p < top * p) by (nonlinear_arith)
        requires
            q < top,
            p > 0,
    ;
    if len + w == 53 && len > 0 && pow2((len - 1) as nat) <= q {
        lemma_pow2_adds((len - 1) as nat, w);
        lemma_scaled_order(pow2((len - 1) as nat), q, p);
    }
}

/// Where nothing was lost, a number that fits the grid is the grid point.
proof fn lemma_exact(n: nat, d: nat, q: nat, up: nat, down: nat, t: nat, w: nat)
    requires
        d > 0,
        n * pow2(down) == d * (q * pow2(up)),
        up == down + t + w,
        q * pow2(w) < 0x20_0000_0000_0000,
        t == 0 || q * pow2(w) >= 0x10_0000_0000_0000,
    ensures
        ({
            let b = t * 0x10_0000_0000_0000 + q * pow2(w);
            nearest(n, d) == (if b > INFINITY {
                INFINITY as nat
            } else {
                b
            })
        }),
{
    let (a, tt, ww) = (pow2(down), pow2(t), pow2(w));
    let h = q * ww;
    lemma_pow2_pos(down);
    lemma_pow2_pos(t);
    lemma_pow2_adds(down, t);
    lemma_pow2_adds(down + t, w);
    let x = pow2(up);
    assert(d * (q * x) == (d * (h * tt)) * a) by (nonlinear_arith)
        requires
            x == (a * tt) * ww,
            h == q * ww,
    ;
    lemma_unscaled(n, d * (h * tt), a);
    assert(d * (h * tt) < d * ((h + 1) * tt)) by (nonlinear_arith)
        requires
            d > 0,
            tt > 0,
    ;
    assert(2 * (d * (h * tt)) < d * ((2 * h + 1) * tt)) by (nonlinear_arith)
        requires
            d > 0,
            tt > 0,
    ;
    lemma_round(n, d, t, h, false);
}

/// The bits of the non-negative double nearest to `q` times `2^up` divided by
/// `2^down`, in units. With something `lost`, the number to round lies between
/// that and what `q + 1` gives, and `q` has to have bits to spare.
pub fn round(q: u128, lost: bool, up: u32, down: u32) -> (r: u64)
    requires
        q < 0x4000_0000_0000_0000_0000_0000_0000_0000,
        lost ==> q >= 0x40_0000_0000_0000,
        up <= 10000,
        down <= 10000,
    ensures
        r <= INFINITY,
        forall|n: nat, d: nat|
            #![trigger lies_at(n, d, q as nat, lost, up as nat, down as nat)]
            d > 0 && lies_at(n, d, q as nat, lost, up as nat, down as nat) ==> r == nearest(n, d),
{
    if q == 0 {
        assert forall|n: nat, d: nat|
            #![trigger lies_at(n, d, q as nat, lost, up as nat, down as nat)]
            d > 0 && lies_at(n, d, q as nat, lost, up as nat, down as nat) implies 0 == nearest(
            n,
            d,
        ) by {
            lemma_pow2_pos(down as nat);
            let a = pow2(down as nat);
            assert(d * (0 * pow2(up as nat)) == 0) by (nonlinear_arith);
            assert(0 * a == 0) by (nonlinear_arith);
            lemma_unscaled(n, 0, a);
            law_doubles_are_kept(0, d);
            assert(d * binary64::magnitude_at(0) == 0) by (nonlinear_arith)
                requires
                    binary64::magnitude_at(0) == 0,
            ;
        }
        return 0;
    }
    let len: u32 = bit_length(q);
    proof {
        if lost {
            vstd::arithmetic::power2::lemma2_to64_rest();
            if len <= 54 {
                lemma_pow2_order(len as nat, 54);
            }
        }
    }
    let t: u32 = if up + len > down + 53 {
        up + len - 53 - down
    } else {
        0
    };
    let h: u128;
    let next: u128;
    if t + down <= up {
        let w: u32 = up - down - t;
        proof {
            lemma_low_bits(q as nat, len as nat, w as nat);
        }
        h = q * binary64::power_of_two(w);
        next = 0;
        assert forall|n: nat, d: nat|
            #![trigger lies_at(n, d, q as nat, lost, up as nat, down as nat)]
            d > 0 && lies_at(n, d, q as nat, lost, up as nat, down as nat) implies ({
            let b = t * 0x10_0000_0000_0000 + h + next;
            nearest(n, d) == (if b > INFINITY {
                INFINITY as int
            } else {
                b
            })
        }) by {
            lemma_exact(n, d, q as nat, up as nat, down as nat, t as nat, w as nat);
        }
    } else {
        let s: u32 = t + down - up;
        let ghost p = pow2(s as nat);
        proof {
            lemma_top_bits(q as nat, len as nat, s as nat);
            lemma_pow2_pos(s as nat);
            lemma_pow2_unfold(s as nat);
        }
        let rem: u128;
        let away: bool;
        if s >= 127 {
            proof {
                lemma_pow2_126();
                lemma_pow2_unfold(127);
                lemma_pow2_order(127, s as nat);
                vstd::arithmetic::div_mod::lemma_fundamental_div_mod_converse(
                    q as int,
                    p as int,
                    0,
                    q as int,
                );
            }
            h = 0;
            rem = q;
            away = false;
        } else {
            let step: u128 = binary64::power_of_two(s);
            h = q / step;
            rem = q % step;
            away = rem > step - rem || (rem == step - rem && (lost || h % 2 == 1));
        }
        next = if away {
            1
        } else {
            0
        };
        assert forall|n: nat, d: nat|
            #![trigger lies_at(n, d, q as nat, lost, up as nat, down as nat)]
            d > 0 && lies_at(n, d, q as nat, lost, up as nat, down as nat) implies ({
            let b = t * 0x10_0000_0000_0000 + h + next;
            nearest(n, d) == (if b > INFINITY {
                INFINITY as int
            } else {
                b
            })
        }) by {
            lemma_pow2_pos(up as nat);
            lemma_pow2_pos(down as nat);
            lemma_pow2_adds(down as nat, t as nat);
            lemma_pow2_adds(s as nat, up as nat);
            lemma_grid(
                n,
                d,
                pow2(down as nat),
                pow2(up as nat),
                pow2(t as nat),
                p,
                q as nat,
                lost,
            );
            lemma_round(n, d, t as nat, h as nat, away);
        }
    }
    let b: u128 = (t as u128) * 0x10_0000_0000_0000 + h + next;
    if b > INFINITY as u128 {
        INFINITY
    } else {
        b as u64
    }
}

/// The double with the magnitude bits `b` and the given sign.
pub open spec fn signed(negative: bool, b: nat) -> Binary64 {
    Binary64 {
        bits: (if negative {
            b + 0x8000_0000_0000_0000
        } else {
            b
        }) as u64,
    }
}

/// The double with the magnitude bits `b` and the given sign.
fn with_sign(negative: bool, b: u64) -> (r: Binary64)
    requires
        b <= INFINITY,
    ensures
        r == signed(negative, b as nat),
        r.negative() == negative,
        r.abs_bits() == b,
        r.magnitude() == binary64::magnitude_at(b as nat),
{
    if negative {
        Binary64 { bits: b + 0x8000_0000_0000_0000 }
    } else {
        Binary64 { bits: b }
    }
}

/// The double nearest to `v` units; a zero has the sign given for that.
pub open spec fn rounded_sum(v: int, zero_negative: bool) -> Binary64 {
    if v == 0 {
        signed(zero_negative, 0)
    } else if v < 0 {
        signed(true, nearest((-v) as nat, 1))
    } else {
        signed(false, nearest(v as nat, 1))
    }
}

impl Binary64 {
    /// Whether this is a finite number.
    pub open spec fn is_finite(self) -> bool {
        self.exponent() != 2047
    }

    /// `self / other`.
    pub open spec fn spec_quotient(self, other: Binary64) -> Binary64 {
        let negative = self.negative() != other.negative();
        if self.is_nan() || other.is_nan() || (self.is_infinite() && other.is_infinite()) || (
        self.magnitude() == 0 && other.magnitude() == 0) {
            Binary64 { bits: NAN }
        } else if self.is_infinite() || other.magnitude() == 0 {
            signed(negative, INFINITY as nat)
        } else if other.is_infinite() {
            signed(negative, 0)
        } else {
            signed(negative, nearest(self.magnitude() * binary64::one(), other.magnitude()))
        }
    }

    /// `self * other`.
    pub open spec fn spec_product(self, other: Binary64) -> Binary64 {
        let negative = self.negative() != other.negative();
        if self.is_nan() || other.is_nan() || (self.is_infinite() && other.magnitude() == 0) || (
        self.magnitude() == 0 && other.is_infinite()) {
            Binary64 { bits: NAN }
        } else if self.is_infinite() || other.is_infinite() {
            signed(negative, INFINITY as nat)
        } else {
            signed(negative, nearest(self.magnitude() * other.magnitude(), binary64::one()))
        }
    }

    /// `self + other`. An exact zero is negative only where both are.
    pub open spec fn spec_sum(self, other: Binary64) -> Binary64 {
        let v = self.value() + other.value();
        if self.is_nan() || other.is_nan() || (self.is_infinite() && other.is_infinite()
            && self.negative() != other.negative()) {
            Binary64 { bits: NAN }
        } else if self.is_infinite() {
            self
        } else if other.is_infinite() {
            other
        } else {
            rounded_sum(v, self.negative() && other.negative())
        }
    }

    /// `-self`.
    pub open spec fn spec_negated(self) -> Binary64 {
        signed(!self.negative(), self.abs_bits())
    }

    /// The absolute value.
    pub open spec fn spec_absolute(self) -> Binary64 {
        signed(false, self.abs_bits())
    }

    /// What is left of `self` once the whole number `c` is taken away as often
    /// as it fits, with the sign of `self`.
    pub open spec fn spec_remainder(self, c: nat) -> Binary64 {
        if !self.is_finite() || c == 0 {
            Binary64 { bits: NAN }
        } else {
            signed(self.negative(), nearest(self.magnitude() % (c * binary64::one()), 1))
        }
    }

    /// The significand and the power of two that make up a finite magnitude.
    fn parts(self) -> (r: (u64, u32))
        requires
            self.is_finite(),
        ensures
            self.magnitude() == r.0 * pow2(r.1 as nat),
            r.0 < 0x20_0000_0000_0000,
            r.1 <= 2045,
            r.1 > 0 ==> r.0 >= 0x10_0000_0000_0000,
    {
        let abs: u64 = self.bits % 0x8000_0000_0000_0000;
        let e: u64 = abs / 0x10_0000_0000_0000;
        let f: u64 = abs % 0x10_0000_0000_0000;
        if e == 0 {
            proof {
                vstd::arithmetic::power2::lemma2_to64();
                assert(f * 1 == f);
            }
            (f, 0)
        } else {
            (0x10_0000_0000_0000 + f, (e - 1) as u32)
        }
    }

    /// Whether this is an infinity.
    pub fn infinite(self) -> (r: bool)
        ensures
            r == self.is_infinite(),
    {
        self.bits % 0x8000_0000_0000_0000 == INFINITY
    }

    /// `-self`.
    pub fn negated(self) -> (r: Binary64)
        ensures
            r == self.spec_negated(),
            r.negative() == !self.negative(),
            r.magnitude() == self.magnitude(),
            r.is_nan() == self.is_nan(),
            r.is_infinite() == self.is_infinite(),
    {
        if self.bits >= 0x8000_0000_0000_0000 {
            Binary64 { bits: self.bits - 0x8000_0000_0000_0000 }
        } else {
            Binary64 { bits: self.bits + 0x8000_0000_0000_0000 }
        }
    }

    /// The absolute value.
    pub fn absolute(self) -> (r: Binary64)
        ensures
            r == self.spec_absolute(),
    {
        Binary64 { bits: self.bits % 0x8000_0000_0000_0000 }
    }

    /// `self / other`.
    pub fn divided_by(self, other: Binary64) -> (r: Binary64)
        ensures
            r == self.spec_quotient(other),
    {
        let negative: bool = (self.bits >= 0x8000_0000_0000_0000) != (other.bits
            >= 0x8000_0000_0000_0000);
        if self.not_a_number() || other.not_a_number() || (self.infinite() && other.infinite()) || (
        self.is_zero() && other.is_zero()) {
            return Binary64 { bits: NAN };
        }
        if self.infinite() || other.is_zero() {
            return with_sign(negative, INFINITY);
        }
        if other.infinite() {
            return with_sign(negative, 0);
        }
        let (ma, ka) = self.parts();
        let (mb, kb) = other.parts();
        if ma == 0 {
            proof {
                let (n, d) = (self.magnitude() * binary64::one(), other.magnitude());
                assert(self.magnitude() == 0) by (nonlinear_arith)
                    requires
                        self.magnitude() == ma * pow2(ka as nat),
                        ma == 0,
                ;
                assert(n == 0) by (nonlinear_arith)
                    requires
                        n == self.magnitude() * binary64::one(),
                        self.magnitude() == 0,
                ;
                law_doubles_are_kept(0, d);
                assert(d * binary64::magnitude_at(0) == 0) by (nonlinear_arith)
                    requires
                        binary64::magnitude_at(0) == 0,
                ;
            }
            return with_sign(negative, 0);
        }
        proof {
            assert(mb != 0) by (nonlinear_arith)
                requires
                    other.magnitude() == mb * pow2(kb as nat),
                    other.magnitude() != 0,
            ;
        }
        let (na, ja) = normalized(ma);
        let (nb, jb) = normalized(mb);
        let num: u128 = (na as u128) * 0x1000_0000_0000_0000;
        let q: u128 = num / (nb as u128);
        let rem: u128 = num % (nb as u128);
        let up: u32 = jb + ka + 1074;
        let down: u32 = ja + 60 + kb;
        proof {
            vstd::arithmetic::div_mod::lemma_fundamental_div_mod(num as int, nb as int);
            assert(q >= 0x40_0000_0000_0000 && q < 0x1_0000_0000_0000_0000) by (nonlinear_arith)
                requires
                    num == nb * q + rem,
                    0 <= rem < nb,
                    num >= 0x10_0000_0000_0000 * 0x1000_0000_0000_0000,
                    num < 0x20_0000_0000_0000 * 0x1000_0000_0000_0000,
                    0x10_0000_0000_0000 <= nb < 0x20_0000_0000_0000,
            ;
            lemma_quotient(
                self.magnitude(),
                other.magnitude(),
                ma as nat,
                ka as nat,
                ja as nat,
                mb as nat,
                kb as nat,
                jb as nat,
                q as nat,
                rem as nat,
            );
        }
        with_sign(negative, round(q, rem != 0, up, down))
    }

    /// `self * other`.
    pub fn times(self, other: Binary64) -> (r: Binary64)
        ensures
            r == self.spec_product(other),
    {
        let negative: bool = (self.bits >= 0x8000_0000_0000_0000) != (other.bits
            >= 0x8000_0000_0000_0000);
        if self.not_a_number() || other.not_a_number() || (self.infinite() && other.is_zero()) || (
        self.is_zero() && other.infinite()) {
            return Binary64 { bits: NAN };
        }
        if self.infinite() || other.infinite() {
            return with_sign(negative, INFINITY);
        }
        let (ma, ka) = self.parts();
        let (mb, kb) = other.parts();
        assert(ma * mb <= 0x20_0000_0000_0000 * 0x20_0000_0000_0000) by (nonlinear_arith)
            requires
                ma <= 0x20_0000_0000_0000,
                mb <= 0x20_0000_0000_0000,
        ;
        let q: u128 = (ma as u128) * (mb as u128);
        proof {
            let (pa, pb) = (pow2(ka as nat), pow2(kb as nat));
            let (x, one) = (pow2((ka + kb) as nat), binary64::one());
            lemma_pow2_adds(ka as nat, kb as nat);
            lemma_pow2_pos(1074);
            let n = self.magnitude() * other.magnitude();
            assert(n * one == one * (q * x)) by (nonlinear_arith)
                requires
                    n == (ma * pa) * (mb * pb),
                    q == ma * mb,
                    x == pa * pb,
            ;
            assert(lies_at(n, one, q as nat, false, (ka + kb) as nat, 1074));
        }
        with_sign(negative, round(q, false, ka + kb, 1074))
    }
}

/// `x`, or `-x` for a negative sign.
pub open spec fn with_sign_of(negative: bool, x: nat) -> int {
    if negative {
        -(x as int)
    } else {
        x as int
    }
}

/// The sum of `m1 * 2^k1` and `m2 * 2^k2` units with their signs.
fn sum_of(m1: u64, k1: u32, neg1: bool, m2: u64, k2: u32, neg2: bool) -> (r: Binary64)
    requires
        m1 < 0x20_0000_0000_0000,
        m2 < 0x20_0000_0000_0000,
        k2 <= k1 <= 2045,
        k1 > 0 ==> m1 >= 0x10_0000_0000_0000,
    ensures
        r == rounded_sum(
            with_sign_of(neg1, (m1 * pow2(k1 as nat)) as nat) + with_sign_of(
                neg2,
                (m2 * pow2(k2 as nat)) as nat,
            ),
            neg1 && neg2,
        ),
{
    let diff: u32 = k1 - k2;
    let ghost (p1, p2) = (pow2(k1 as nat), pow2(k2 as nat));
    let ghost (x1, x2) = ((m1 * p1) as nat, (m2 * p2) as nat);
    proof {
        lemma_pow2_pos(k1 as nat);
        lemma_pow2_pos(k2 as nat);
        vstd::arithmetic::power2::lemma2_to64();
        vstd::arithmetic::power2::lemma2_to64_rest();
        assert(m1 * p1 >= 0 && m2 * p2 >= 0) by (nonlinear_arith)
            requires
                p1 > 0,
                p2 > 0,
        ;
    }
    if diff <= 64 {
        let step: u128 = binary64::power_of_two(diff);
        proof {
            lemma_pow2_order(diff as nat, 64);
            lemma_pow2_adds(diff as nat, k2 as nat);
            assert(m1 * step <= 0x20_0000_0000_0000 * 0x1_0000_0000_0000_0000)
                by (nonlinear_arith)
                requires
                    m1 <= 0x20_0000_0000_0000,
                    step <= 0x1_0000_0000_0000_0000,
            ;
            assert(x1 == (m1 * step) * p2) by (nonlinear_arith)
                requires
                    x1 == m1 * p1,
                    p1 == step * p2,
            ;
        }
        let a: u128 = (m1 as u128) * step;
        let b: u128 = m2 as u128;
        proof {
            lemma_unscaled(a as nat, b as nat, p2);
            lemma_unscaled(b as nat, a as nat, p2);
            assert((a + b) * p2 == a * p2 + b * p2) by (nonlinear_arith);
            assert((a - b) * p2 == a * p2 - b * p2) by (nonlinear_arith);
            assert((b - a) * p2 == b * p2 - a * p2) by (nonlinear_arith);
        }
        let q: u128 = if neg1 == neg2 {
            a + b
        } else if a >= b {
            a - b
        } else {
            b - a
        };
        let negative: bool = if a >= b {
            neg1
        } else {
            neg2
        };
        if q == 0 {
            return with_sign(neg1 && neg2, 0);
        }
        proof {
            let n = (q * p2) as nat;
            assert(n > 0) by (nonlinear_arith)
                requires
                    n == q * p2,
                    q > 0,
                    p2 > 0,
            ;
            assert(n * 1 == 1 * (q * p2));
            assert(lies_at(n, 1, q as nat, false, k2 as nat, 0));
        }
        return with_sign(negative, round(q, false, k2, 0));
    }
    if m2 == 0 {
        proof {
            assert(x1 > 0) by (nonlinear_arith)
                requires
                    x1 == m1 * p1,
                    m1 > 0,
                    p1 > 0,
            ;
            assert(0 * p2 == 0);
            assert(x1 * 1 == 1 * (m1 * p1));
            assert(lies_at(x1, 1, m1 as nat, false, k1 as nat, 0));
        }
        return with_sign(neg1, round(m1 as u128, false, k1, 0));
    }
    let q: u128 = if neg1 == neg2 {
        (m1 as u128) * 4096
    } else {
        (m1 as u128) * 4096 - 1
    };
    proof {
        let p = pow2((k1 - 12) as nat);
        lemma_pow2_pos((k1 - 12) as nat);
        lemma_pow2_adds(12, (k1 - 12) as nat);
        lemma_pow2_adds(53, k2 as nat);
        lemma_pow2_order((53 + k2) as nat, (k1 - 12) as nat);
        assert(x1 == (m1 * 4096) * p) by (nonlinear_arith)
            requires
                x1 == m1 * p1,
                p1 == 4096 * p,
        ;
        assert(0 < x2 < 0x20_0000_0000_0000 * p2) by (nonlinear_arith)
            requires
                x2 == m2 * p2,
                0 < m2 < 0x20_0000_0000_0000,
                p2 > 0,
        ;
        assert((m1 * 4096 + 1) * p == (m1 * 4096) * p + p) by (nonlinear_arith);
        assert((m1 * 4096 - 1) * p == (m1 * 4096) * p - p) by (nonlinear_arith);
        assert((m1 * 4096) * p > p) by (nonlinear_arith)
            requires
                m1 * 4096 > 1,
                p > 0,
        ;
        let n = if neg1 == neg2 {
            x1 + x2
        } else {
            (x1 - x2) as nat
        };
        assert(n > 0);
        assert(n * 1 == n);
        assert(1 * (q * p) == q * p);
        assert(1 * ((q + 1) * p) == (q + 1) * p);
        assert(lies_at(n, 1, q as nat, true, (k1 - 12) as nat, 0));
    }
    with_sign(neg1, round(q, true, k1 - 12, 0))
}

impl Binary64 {
    /// `self + other`.
    pub fn plus(self, other: Binary64) -> (r: Binary64)
        ensures
            r == self.spec_sum(other),
    {
        let neg_a: bool = self.bits >= 0x8000_0000_0000_0000;
        let neg_b: bool = other.bits >= 0x8000_0000_0000_0000;
        if self.not_a_number() || other.not_a_number() || (self.infinite() && other.infinite()
            && neg_a != neg_b) {
            return Binary64 { bits: NAN };
        }
        if self.infinite() {
            return self;
        }
        if other.infinite() {
            return other;
        }
        let (ma, ka) = self.parts();
        let (mb, kb) = other.parts();
        if ka >= kb {
            sum_of(ma, ka, neg_a, mb, kb, neg_b)
        } else {
            sum_of(mb, kb, neg_b, ma, ka, neg_a)
        }
    }

    /// What is left of `self` once the whole number `c` is taken away as often
    /// as it fits, with the sign of `self`. The result is exact.
    pub fn remainder(self, c: u64) -> (r: Binary64)
        requires
            c <= 0x20_0000_0000_0000,
        ensures
            r == self.spec_remainder(c as nat),
            self.is_finite() && c > 0 ==> r.magnitude() == self.magnitude() % (c as nat * binary64::one())
                && r.negative() == self.negative() && r.is_finite(),
    {
        let negative: bool = self.bits >= 0x8000_0000_0000_0000;
        if self.not_a_number() || self.infinite() || c == 0 {
            return Binary64 { bits: NAN };
        }
        let ghost one = binary64::one();
        let ghost whole = (c * one) as nat;
        let ghost u = self.magnitude();
        let (m, k) = self.parts();
        proof {
            lemma_pow2_pos(1074);
            lemma_pow2_pos(k as nat);
            vstd::arithmetic::power2::lemma2_to64();
            vstd::arithmetic::power2::lemma2_to64_rest();
            assert(whole >= one) by (nonlinear_arith)
                requires
                    whole == c * one,
                    c > 0,
            ;
        }
        let r: u128;
        let up: u32;
        if k >= 1074 {
            let w: u32 = k - 1074;
            let mut left: u64 = m % c;
            let mut i: u32 = 0;
            proof {
                assert(m * 1 == m);
            }
            while i < w
                invariant
                    c > 0,
                    i <= w,
                    left < c,
                    left == (m * pow2(i as nat)) % (c as int),
                decreases w - i,
            {
                let doubled: u128 = (left as u128) * 2;
                proof {
                    let p = pow2(i as nat);
                    lemma_pow2_unfold((i + 1) as nat);
                    assert(m * (2 * p) == (m * p) * 2) by (nonlinear_arith);
                    vstd::arithmetic::div_mod::lemma_mul_mod_noop_left(
                        (m * p) as int,
                        2,
                        c as int,
                    );
                }
                left = (doubled % (c as u128)) as u64;
                i += 1;
            }
            r = left as u128;
            up = 1074;
            proof {
                let p = pow2(w as nat);
                lemma_pow2_pos(w as nat);
                lemma_pow2_adds(w as nat, 1074);
                assert(u == (m * p) * one) by (nonlinear_arith)
                    requires
                        u == m * pow2(k as nat),
                        pow2(k as nat) == p * one,
                ;
                binary64::lemma_cancel((m * p) as nat, c as nat, one);
                assert(u % whole == r * pow2(up as nat));
            }
        } else {
            let sh: u32 = 1074 - k;
            if sh >= 53 {
                proof {
                    lemma_pow2_adds(sh as nat, k as nat);
                    lemma_pow2_order(53, sh as nat);
                    let (p, x) = (pow2(sh as nat), pow2(k as nat));
                    assert(m * x < p * x) by (nonlinear_arith)
                        requires
                            m < p,
                            x > 0,
                    ;
                    vstd::arithmetic::div_mod::lemma_small_mod(u, whole);
                    law_doubles_are_kept(self.abs_bits(), 1);
                    assert(1 * u == u);
                }
                return self;
            }
            let step: u128 = binary64::power_of_two(sh);
            proof {
                lemma_pow2_order(sh as nat, 53);
                assert(c * step <= 0xFFFF_FFFF_FFFF_FFFF * 0x20_0000_0000_0000)
                    by (nonlinear_arith)
                    requires
                        c <= 0xFFFF_FFFF_FFFF_FFFF,
                        step <= 0x20_0000_0000_0000,
                ;
                assert(c * step > 0) by (nonlinear_arith)
                    requires
                        c > 0,
                        step > 0,
                ;
            }
            r = (m as u128) % ((c as u128) * step);
            up = k;
            proof {
                let x = pow2(k as nat);
                lemma_pow2_adds(sh as nat, k as nat);
                assert(whole == (c * step) * x) by (nonlinear_arith)
                    requires
                        whole == c * one,
                        one == step * x,
                ;
                binary64::lemma_cancel(m as nat, (c * step) as nat, x);
                vstd::arithmetic::div_mod::lemma_mod_decreases(m as nat, (c * step) as nat);
            }
        }
        proof {
            let n = u % whole;
            assert(n * 1 == 1 * (r * pow2(up as nat)));
            assert(lies_at(n, 1, r as nat, false, up as nat, 0));
        }
        let b: u64 = round(r, false, up, 0);
        proof {
            lemma_small_is_kept(r as nat, up as nat);
        }
        with_sign(negative, b)
    }
}

/// A whole number below `2^53` times a power of two is a double.
proof fn lemma_small_is_kept(q: nat, up: nat)
    requires
        q < 0x20_0000_0000_0000,
        up <= 1074,
    ensures
        binary64::magnitude_at(nearest(q * pow2(up), 1)) == q * pow2(up),
        nearest(q * pow2(up), 1) < INFINITY,
    decreases up,
{
    let n = q * pow2(up);
    vstd::arithmetic::power2::lemma2_to64();
    if up == 0 || q >= 0x10_0000_0000_0000 {
        let b = up * 0x10_0000_0000_0000 + q;
        lemma_encode(up, q);
        law_doubles_are_kept(b, 1);
        assert(1 * n == n);
    } else {
        lemma_pow2_unfold(up);
        let p = pow2((up - 1) as nat);
        assert(q * (2 * p) == (2 * q) * p) by (nonlinear_arith);
        lemma_small_is_kept(2 * q, (up - 1) as nat);
    }
}

/// `m` shifted up until it takes 53 bits.
fn normalized(m: u64) -> (r: (u64, u32))
    requires
        0 < m < 0x20_0000_0000_0000,
    ensures
        r.0 == m * pow2(r.1 as nat),
        0x10_0000_0000_0000 <= r.0 < 0x20_0000_0000_0000,
        r.1 <= 52,
{
    let mut n: u64 = m;
    let mut j: u32 = 0;
    proof {
        vstd::arithmetic::power2::lemma2_to64();
        vstd::arithmetic::power2::lemma2_to64_rest();
        assert(m * 1 == m);
    }
    while n < 0x10_0000_0000_0000
        invariant
            0 < m,
            0 < n < 0x20_0000_0000_0000,
            n == m * pow2(j as nat),
            j <= 52,
            pow2(52) == 0x10_0000_0000_0000,
        decreases 0x20_0000_0000_0000 - n,
    {
        let ghost p = pow2(j as nat);
        proof {
            assert(m * p >= p) by (nonlinear_arith)
                requires
                    m > 0,
            ;
            lemma_pow2_unfold((j + 1) as nat);
            assert(m * (2 * p) == 2 * (m * p)) by (nonlinear_arith);
        }
        n = n * 2;
        j += 1;
    }
    (n, j)
}

/// Where the quotient of two magnitudes lies.
proof fn lemma_quotient(
    a: nat,
    b: nat,
    ma: nat,
    ka: nat,
    ja: nat,
    mb: nat,
    kb: nat,
    jb: nat,
    q: nat,
    rem: nat,
)
    requires
        a == ma * pow2(ka),
        b == mb * pow2(kb),
        (ma * pow2(ja)) * 0x1000_0000_0000_0000 == q * (mb * pow2(jb)) + rem,
        rem < mb * pow2(jb),
    ensures
        lies_at(a * binary64::one(), b, q, rem != 0, jb + ka + 1074, ja + 60 + kb),
{
    vstd::arithmetic::power2::lemma2_to64_rest();
    let one = binary64::one();
    let (pa, pb, ta, tb) = (pow2(ka), pow2(kb), pow2(ja), pow2(jb));
    let nb = mb * tb;
    lemma_pow2_pos(ka);
    lemma_pow2_pos(kb);
    lemma_pow2_pos(1074);
    lemma_pow2_adds(jb, ka);
    lemma_pow2_adds(jb + ka, 1074);
    lemma_pow2_adds(ja, 60);
    lemma_pow2_adds(ja + 60, kb);
    let up = pow2(jb + ka + 1074);
    let down = pow2(ja + 60 + kb);
    assert(up == (tb * pa) * one);
    assert(down == (ta * 0x1000_0000_0000_0000) * pb);
    let c = (pa * one) * pb;
    assert(pa * one > 0) by (nonlinear_arith)
        requires
            pa > 0,
            one > 0,
    ;
    assert(c > 0) by (nonlinear_arith)
        requires
            c == (pa * one) * pb,
            pa * one > 0,
            pb > 0,
    ;
    let n = a * one;
    let top = (ma * ta) * 0x1000_0000_0000_0000;
    assert(n * down == top * c) by (nonlinear_arith)
        requires
            n == (ma * pa) * one,
            down == (ta * 0x1000_0000_0000_0000) * pb,
            c == (pa * one) * pb,
            top == (ma * ta) * 0x1000_0000_0000_0000,
    ;
    assert(b * (q * up) == (q * nb) * c) by (nonlinear_arith)
        requires
            b == mb * pb,
            up == (tb * pa) * one,
            c == (pa * one) * pb,
            nb == mb * tb,
    ;
    assert(b * ((q + 1) * up) == ((q + 1) * nb) * c) by (nonlinear_arith)
        requires
            b == mb * pb,
            up == (tb * pa) * one,
            c == (pa * one) * pb,
            nb == mb * tb,
    ;
    assert((q + 1) * nb == q * nb + nb) by (nonlinear_arith);
    lemma_unscaled(q * nb, top, c);
    lemma_unscaled(top, (q + 1) * nb, c);
}

/// There is a nearest double at `b` or above it, where `b` is not too great.
proof fn lemma_search_nearest(n: nat, d: nat, b: nat)
    requires
        d > 0,
        b <= INFINITY,
        d * binary64::magnitude_at(b) <= n,
    ensures
        exists|c: nat| is_nearest(c, n, d),
    decreases INFINITY - b,
{
    let here = binary64::magnitude_at(b);
    if b > 0 {
        let below = binary64::magnitude_at((b - 1) as nat);
        binary64::lemma_bits_order((b - 1) as nat, b);
        assert(2 * (d * here) > d * (below + here)) by (nonlinear_arith)
            requires
                below < here,
                d > 0,
        ;
    }
    if b == INFINITY {
        assert(is_nearest(b, n, d));
    } else {
        let next = binary64::magnitude_at(b + 1);
        if d * next <= n {
            lemma_search_nearest(n, d, b + 1);
        } else {
            let middle = d * (here + next);
            if 2 * n < middle || (2 * n == middle && b % 2 == 0) {
                assert(is_nearest(b, n, d));
            } else {
                if b + 1 < INFINITY {
                    let above = binary64::magnitude_at(b + 2);
                    binary64::lemma_bits_order(b + 1, b + 2);
                    assert(2 * (d * next) < d * (next + above)) by (nonlinear_arith)
                        requires
                            next < above,
                            d > 0,
                    ;
                }
                assert(is_nearest(b + 1, n, d));
            }
        }
    }
}

/// Every quotient has a nearest double.
pub proof fn law_nearest_exists(n: nat, d: nat)
    requires
        d > 0,
    ensures
        is_nearest(nearest(n, d), n, d),
{
    assert(binary64::magnitude_at(0) == 0);
    assert(d * 0 == 0);
    lemma_search_nearest(n, d, 0);
}

/// The distance of two numbers.
pub open spec fn distance(a: int, b: int) -> int {
    if a <= b {
        b - a
    } else {
        a - b
    }
}

/// The distance of two amounts.
pub open spec fn gap(a: nat, b: nat) -> int {
    distance(a as int, b as int)
}

/// No double is closer to `n / d` than the nearest one.
pub proof fn law_no_double_is_closer(n: nat, d: nat, c: nat)
    requires
        d > 0,
        c <= INFINITY,
    ensures
        gap(n, d * binary64::magnitude_at(nearest(n, d))) <= gap(
            n,
            d * binary64::magnitude_at(c),
        ),
{
    law_nearest_exists(n, d);
    let b = nearest(n, d);
    let (mb, mc) = (binary64::magnitude_at(b), binary64::magnitude_at(c));
    assert(d * (mb + mc) == d * mb + d * mc) by (nonlinear_arith);
    if c < b {
        let mid = binary64::magnitude_at((b - 1) as nat);
        if c < b - 1 {
            binary64::lemma_bits_order(c, (b - 1) as nat);
        }
        binary64::lemma_bits_order(c, b);
        assert(d * (mid + mb) >= d * (mb + mc)) by (nonlinear_arith)
            requires
                mid >= mc,
        ;
        assert(d * mc <= d * mb) by (nonlinear_arith)
            requires
                mc <= mb,
        ;
    } else if b < c {
        let mid = binary64::magnitude_at(b + 1);
        if b + 1 < c {
            binary64::lemma_bits_order(b + 1, c);
        }
        binary64::lemma_bits_order(b, c);
        assert(d * (mb + mid) <= d * (mb + mc)) by (nonlinear_arith)
            requires
                mid <= mc,
        ;
        assert(d * mb <= d * mc) by (nonlinear_arith)
            requires
                mb <= mc,
        ;
    }
}

/// Rounding keeps the order of quotients.
pub proof fn law_rounding_keeps_order(n1: nat, d1: nat, n2: nat, d2: nat)
    requires
        d1 > 0,
        d2 > 0,
        n1 * d2 <= n2 * d1,
    ensures
        nearest(n1, d1) <= nearest(n2, d2),
{
    law_nearest_exists(n1, d1);
    law_nearest_exists(n2, d2);
    let (b1, b2) = (nearest(n1, d1), nearest(n2, d2));
    if b1 > b2 {
        let m1 = binary64::magnitude_at((b1 - 1) as nat) + binary64::magnitude_at(b1);
        let m2 = binary64::magnitude_at(b2) + binary64::magnitude_at(b2 + 1);
        if b2 + 1 < b1 {
            binary64::lemma_bits_order(b2, (b1 - 1) as nat);
            binary64::lemma_bits_order(b2 + 1, b1);
        }
        let k = d1 * d2;
        assert(k > 0) by (nonlinear_arith)
            requires
                k == d1 * d2,
                d1 > 0,
                d2 > 0,
        ;
        assert((2 * n1) * d2 >= k * m1) by (nonlinear_arith)
            requires
                2 * n1 >= d1 * m1,
                k == d1 * d2,
        ;
        assert((2 * n2) * d1 <= k * m2) by (nonlinear_arith)
            requires
                2 * n2 <= d2 * m2,
                k == d1 * d2,
        ;
        assert((2 * n1) * d2 == 2 * (n1 * d2)) by (nonlinear_arith);
        assert((2 * n2) * d1 == 2 * (n2 * d1)) by (nonlinear_arith);
        assert(m1 <= m2) by (nonlinear_arith)
            requires
                k * m1 <= k * m2,
                k > 0,
        ;
        assert(b1 == b2 + 1);
        assert(m1 == m2);
        if 2 * n1 > d1 * m1 {
            assert((2 * n1) * d2 > k * m1) by (nonlinear_arith)
                requires
                    2 * n1 > d1 * m1,
                    k == d1 * d2,
                    d2 > 0,
            ;
        }
        if 2 * n2 < d2 * m2 {
            assert((2 * n2) * d1 < k * m2) by (nonlinear_arith)
                requires
                    2 * n2 < d2 * m2,
                    k == d1 * d2,
                    d1 > 0,
            ;
        }
    }
}

/// What a double with a given sign and given bits is.
proof fn lemma_signed(negative: bool, b: nat)
    requires
        b <= INFINITY,
    ensures
        ({
            let r = signed(negative, b);
            &&& r.abs_bits() == b
            &&& r.negative() == negative
            &&& r.magnitude() == binary64::magnitude_at(b)
            &&& !r.is_nan()
        }),
{
}

/// The quotient of two finite numbers is the double closest to the exact
/// quotient: no other makes less of an error in the dividend. It is negative
/// where one of the two is.
pub proof fn law_quotient_is_closest(a: Binary64, b: Binary64, other: Binary64)
    requires
        a.is_finite(),
        b.is_finite(),
        b.magnitude() > 0,
        other.is_finite(),
    ensures
        ({
            let r = a.spec_quotient(b);
            &&& !r.is_nan()
            &&& r.negative() == (a.negative() != b.negative())
            &&& gap(a.magnitude() * binary64::one(), b.magnitude() * r.magnitude())
                <= gap(a.magnitude() * binary64::one(), b.magnitude() * other.magnitude())
        }),
{
    let (n, d) = (a.magnitude() * binary64::one(), b.magnitude());
    law_nearest_exists(n, d);
    law_no_double_is_closer(n, d, other.abs_bits());
    lemma_signed(a.negative() != b.negative(), nearest(n, d));
}

/// The product of two finite numbers is the double closest to the exact
/// product. It is negative where one of the two is.
pub proof fn law_product_is_closest(a: Binary64, b: Binary64, other: Binary64)
    requires
        a.is_finite(),
        b.is_finite(),
        other.is_finite(),
    ensures
        ({
            let r = a.spec_product(b);
            &&& !r.is_nan()
            &&& r.negative() == (a.negative() != b.negative())
            &&& gap(a.magnitude() * b.magnitude(), binary64::one() * r.magnitude())
                <= gap(a.magnitude() * b.magnitude(), binary64::one() * other.magnitude())
        }),
{
    let (n, d) = (a.magnitude() * b.magnitude(), binary64::one());
    lemma_pow2_pos(1074);
    law_nearest_exists(n, d);
    law_no_double_is_closer(n, d, other.abs_bits());
    lemma_signed(a.negative() != b.negative(), nearest(n, d));
}

/// The sum of two finite numbers is the double closest to the exact sum.
pub proof fn law_sum_is_closest(a: Binary64, b: Binary64, other: Binary64)
    requires
        a.is_finite(),
        b.is_finite(),
        other.is_finite(),
    ensures
        ({
            let r = a.spec_sum(b);
            &&& !r.is_nan()
            &&& distance(a.value() + b.value(), r.value()) <= distance(
                a.value() + b.value(),
                other.value(),
            )
        }),
{
    let v = a.value() + b.value();
    let n = (if v < 0 {
        -v
    } else {
        v
    }) as nat;
    law_nearest_exists(n, 1);
    let b0 = nearest(n, 1);
    lemma_signed(v < 0, b0);
    lemma_signed(a.negative() && b.negative(), 0);
    law_no_double_is_closer(n, 1, other.abs_bits());
    law_no_double_is_closer(n, 1, 0);
    assert(binary64::magnitude_at(0) == 0);
    assert(1 * binary64::magnitude_at(b0) == binary64::magnitude_at(b0));
    assert(1 * other.magnitude() == other.magnitude());
    assert(1 * 0 == 0);
}

/// The constants are the numbers they are named for.
pub proof fn law_constants()
    ensures
        (Binary64 { bits: UNITY }).value() == binary64::one(),
        (Binary64 { bits: MINUTE }).value() == 60 * binary64::one(),
        (Binary64 { bits: HUNDRED }).value() == 100 * binary64::one(),
        (Binary64 { bits: HOUR }).value() == 3600 * binary64::one(),
        (Binary64 { bits: UNITY }).is_finite(),
        (Binary64 { bits: MINUTE }).is_finite(),
        (Binary64 { bits: HUNDRED }).is_finite(),
        (Binary64 { bits: HOUR }).is_finite(),
        (Binary64 { bits: INFINITY }).is_infinite(),
        (Binary64 { bits: NAN }).is_nan(),
{
    vstd::arithmetic::power2::lemma2_to64();
    vstd::arithmetic::power2::lemma2_to64_rest();
    lemma_whole(UNITY, 1, 52);
    lemma_whole(MINUTE, 60, 47);
    lemma_whole(HUNDRED, 100, 46);
    lemma_whole(HOUR, 3600, 41);
}

/// The bits of a whole number.
proof fn lemma_whole(bits: u64, c: nat, j: nat)
    requires
        j <= 52,
        0x10_0000_0000_0000 <= c * pow2(j) < 0x20_0000_0000_0000,
        bits == (1074 - j) * 0x10_0000_0000_0000 + c * pow2(j),
    ensures
        (Binary64 { bits }).value() == c * binary64::one(),
        (Binary64 { bits }).is_finite(),
{
    lemma_encode((1074 - j) as nat, c * pow2(j));
    lemma_pow2_adds(j, (1074 - j) as nat);
    let (p, q) = (pow2(j), pow2((1074 - j) as nat));
    assert((c * p) * q == c * (p * q)) by (nonlinear_arith);
    let x = Binary64 { bits };
    assert(x.abs_bits() == bits);
    assert(x.exponent() == (1074 - j) + 1);
}

/// What is not a number stays so; infinities and zeros follow their own rules.
#[verifier::spinoff_prover]
#[verifier::rlimit(50)]
pub proof fn law_special_values(a: Binary64, b: Binary64)
    ensures
        a.is_nan() || b.is_nan() ==> {
            &&& a.spec_quotient(b).is_nan()
            &&& a.spec_product(b).is_nan()
            &&& a.spec_sum(b).is_nan()
        },
        a.is_infinite() && b.is_infinite() ==> {
            &&& a.spec_quotient(b).is_nan()
            &&& a.spec_product(b).is_infinite()
            &&& if a.negative() == b.negative() {
                a.spec_sum(b) == a
            } else {
                a.spec_sum(b).is_nan()
            }
        },
        a.is_infinite() && b.is_finite() ==> {
            &&& a.spec_quotient(b).is_infinite()
            &&& a.spec_sum(b) == a
            &&& b.spec_sum(a) == a
            &&& b.spec_quotient(a).magnitude() == 0
            &&& if b.magnitude() == 0 {
                a.spec_product(b).is_nan()
            } else {
                a.spec_product(b).is_infinite()
            }
        },
        a.is_finite() && b.is_finite() && b.magnitude() == 0 ==> if a.magnitude() == 0 {
            a.spec_quotient(b).is_nan()
        } else {
            a.spec_quotient(b).is_infinite()
        },
        a.spec_negated().negative() != a.negative(),
        a.spec_negated().magnitude() == a.magnitude(),
        !a.spec_absolute().negative(),
        a.spec_absolute().magnitude() == a.magnitude(),
{
    lemma_signed(a.negative() != b.negative(), INFINITY as nat);
    lemma_signed(a.negative() != b.negative(), 0);
    assert(binary64::magnitude_at(0) == 0);
    binary64::lemma_magnitude_zero(a);
    binary64::lemma_magnitude_zero(b);
}

/// The nearest double is off by at most one part in `2^53`, unless it is
/// subnormal or infinite.
pub proof fn law_relative_error(n: nat, d: nat)
    requires
        d > 0,
        0x10_0000_0000_0000 <= nearest(n, d) < INFINITY,
    ensures
        ({
            let near = d * binary64::magnitude_at(nearest(n, d));
            0x20_0000_0000_0000 * gap(n, near) <= near
        }),
{
    law_nearest_exists(n, d);
    let b = nearest(n, d);
    let t = (b / 0x10_0000_0000_0000 - 1) as nat;
    let h = b % 0x10_0000_0000_0000 + 0x10_0000_0000_0000;
    assert(b == t * 0x10_0000_0000_0000 + h);
    lemma_encode(t, h);
    lemma_encode(t, h + 1);
    let p = pow2(t);
    lemma_pow2_pos(t);
    let below = binary64::magnitude_at((b - 1) as nat);
    assert(below >= (h - 1) * p) by {
        if h > 0x10_0000_0000_0000 || t == 0 {
            lemma_encode(t, (h - 1) as nat);
        } else {
            let k = (t - 1) as nat;
            lemma_encode(k, 0x1F_FFFF_FFFF_FFFF);
            assert(b - 1 == k * 0x10_0000_0000_0000 + 0x1F_FFFF_FFFF_FFFF);
            lemma_pow2_unfold(t);
            lemma_pow2_pos(k);
            let q = pow2(k);
            assert(0x1F_FFFF_FFFF_FFFF * q >= (h - 1) * (2 * q)) by (nonlinear_arith)
                requires
                    h == 0x10_0000_0000_0000,
                    q > 0,
            ;
        }
    }
    let near = d * (h * p);
    assert(d * (h * p + (h + 1) * p) == 2 * near + d * p) by (nonlinear_arith)
        requires
            near == d * (h * p),
    ;
    assert(d * (below + h * p) >= 2 * near - d * p) by (nonlinear_arith)
        requires
            near == d * (h * p),
            below >= (h - 1) * p,
    ;
    assert(2 * gap(n, near) <= d * p);
    assert(0x10_0000_0000_0000 * (d * p) <= near) by (nonlinear_arith)
        requires
            near == d * (h * p),
            h >= 0x10_0000_0000_0000,
    ;
}

/// The magnitude of a double is a significand below `2^53` times a power of
/// two.
proof fn lemma_parts(x: Binary64) -> (r: (nat, nat))
    requires
        x.is_finite(),
    ensures
        x.magnitude() == r.0 * pow2(r.1),
        r.0 < 0x20_0000_0000_0000,
        r.1 <= 2045,
        r.1 > 0 ==> r.0 >= 0x10_0000_0000_0000,
{
    vstd::arithmetic::power2::lemma2_to64();
    let (e, f) = (x.exponent(), x.fraction());
    if e == 0 {
        assert(f * 1 == f);
        (f, 0nat)
    } else {
        (0x10_0000_0000_0000 + f, (e - 1) as nat)
    }
}

/// The remainder is exact: less than `c`, and the rest is a multiple of `c`.
pub proof fn law_remainder_is_exact(x: Binary64, c: nat)
    requires
        x.is_finite(),
        0 < c <= 0x20_0000_0000_0000,
    ensures
        ({
            let r = x.spec_remainder(c);
            &&& r.is_finite()
            &&& r.negative() == x.negative()
            &&& r.magnitude() < c * binary64::one()
            &&& r.magnitude() <= x.magnitude()
            &&& (x.magnitude() - r.magnitude()) % (c * binary64::one()) as int == 0
        }),
{
    let one = binary64::one();
    let u = x.magnitude();
    let whole = c * one;
    lemma_pow2_pos(1074);
    assert(whole >= one) by (nonlinear_arith)
        requires
            whole == c * one,
            c > 0,
    ;
    let n = u % whole;
    let (m, k) = lemma_parts(x);
    lemma_pow2_pos(k);
    vstd::arithmetic::power2::lemma2_to64_rest();
    assert(binary64::magnitude_at(nearest(n, 1)) == n && nearest(n, 1) < INFINITY) by {
        if k >= 1074 {
            let w = (k - 1074) as nat;
            let p = pow2(w);
            lemma_pow2_adds(w, 1074);
            assert(u == (m * p) * one) by (nonlinear_arith)
                requires
                    u == m * (p * one),
            ;
            binary64::lemma_cancel(m * p, c, one);
            vstd::arithmetic::div_mod::lemma_mod_bound((m * p) as int, c as int);
            lemma_small_is_kept((m * p) % c, 1074);
        } else if k <= 1021 {
            let sh = (1074 - k) as nat;
            lemma_pow2_adds(sh, k);
            lemma_pow2_order(53, sh);
            let (p, q) = (pow2(sh), pow2(k));
            assert(m * q < p * q) by (nonlinear_arith)
                requires
                    m < p,
                    q > 0,
            ;
            vstd::arithmetic::div_mod::lemma_small_mod(u, whole);
            lemma_small_is_kept(m, k);
        } else {
            let sh = (1074 - k) as nat;
            let (p, q) = (pow2(sh), pow2(k));
            lemma_pow2_pos(sh);
            lemma_pow2_adds(sh, k);
            assert(whole == (c * p) * q) by (nonlinear_arith)
                requires
                    whole == c * (p * q),
            ;
            assert(c * p > 0) by (nonlinear_arith)
                requires
                    c > 0,
                    p > 0,
            ;
            binary64::lemma_cancel(m, c * p, q);
            vstd::arithmetic::div_mod::lemma_mod_decreases(m, c * p);
            lemma_small_is_kept(m % (c * p), k);
        }
    }
    lemma_signed(x.negative(), nearest(n, 1));
    vstd::arithmetic::div_mod::lemma_fundamental_div_mod(u as int, whole as int);
    vstd::arithmetic::div_mod::lemma_mod_bound(u as int, whole as int);
    let q = u / whole;
    assert(u - n == whole * q);
    assert(whole * q >= 0) by (nonlinear_arith);
    vstd::arithmetic::div_mod::lemma_mod_multiples_basic(q as int, whole as int);
    assert(q * whole == whole * q) by (nonlinear_arith);
}

/// A whole number of ones up to `2^53`, as a significand above `2^52` times a
/// power of two.
proof fn lemma_normal_whole(k: nat, h: nat, t: nat) -> (r: (nat, nat))
    requires
        0 < h <= 0x20_0000_0000_0000,
        h * pow2(t) == k * binary64::one(),
        1021 <= t <= 1074,
        h >= pow2((1074 - t) as nat),
    ensures
        0x10_0000_0000_0000 < r.0 <= 0x20_0000_0000_0000,
        r.0 * pow2(r.1) == k * binary64::one(),
        1021 <= r.1 <= 1074,
    decreases t,
{
    vstd::arithmetic::power2::lemma2_to64_rest();
    if h > 0x10_0000_0000_0000 {
        (h, t)
    } else {
        if t == 1021 {
            assert(pow2(53) == 0x20_0000_0000_0000);
        }
        lemma_pow2_unfold(t);
        lemma_pow2_unfold((1074 - t + 1) as nat);
        let p = pow2((t - 1) as nat);
        assert((2 * h) * p == h * (2 * p)) by (nonlinear_arith);
        lemma_normal_whole(k, 2 * h, (t - 1) as nat)
    }
}

/// Dividing by a whole number `c` and dropping what is behind the point gives
/// the whole quotient: rounding never carries a quotient over to the next
/// whole number. It holds of numbers below `2^53`.
#[verifier::spinoff_prover]
#[verifier::rlimit(50)]
pub proof fn law_whole_quotient(x: Binary64, divisor: Binary64, c: nat)
    requires
        !x.negative(),
        x.magnitude() < 0x20_0000_0000_0000 * binary64::one(),
        c > 0,
        divisor.is_finite(),
        divisor.value() == c * binary64::one(),
    ensures
        binary64::spec_truncated(x.spec_quotient(divisor)) == x.magnitude() / (c
            * binary64::one()),
{
    let one = binary64::one();
    lemma_pow2_pos(1074);
    vstd::arithmetic::power2::lemma2_to64_rest();
    let u = x.magnitude();
    let d = c * one;
    assert(d > 0) by (nonlinear_arith)
        requires
            d == c * one,
            c > 0,
            one > 0,
    ;
    assert(x.is_finite()) by {
        if !x.is_finite() {
            let edge = Binary64 { bits: 0x7FE0_0000_0000_0000 };
            assert(edge.exponent() == 2046 && edge.fraction() == 0);
            binary64::lemma_magnitude_order(edge, x);
            lemma_pow2_adds(1074, 971);
            lemma_pow2_order(1, 971);
            vstd::arithmetic::power2::lemma2_to64();
            let big = pow2(971);
            assert(0x10_0000_0000_0000 * (one * big) >= 0x20_0000_0000_0000 * one)
                by (nonlinear_arith)
                requires
                    big >= 2,
            ;
        }
    }
    let k = u / d;
    vstd::arithmetic::div_mod::lemma_fundamental_div_mod(u as int, d as int);
    vstd::arithmetic::div_mod::lemma_mod_bound(u as int, d as int);
    let low = k * one;
    let high = (k + 1) * one;
    assert(d * k == c * low) by (nonlinear_arith)
        requires
            d == c * one,
            low == k * one,
    ;
    assert(c * high == c * low + d) by (nonlinear_arith)
        requires
            d == c * one,
            low == k * one,
            high == (k + 1) * one,
    ;
    assert(c * low <= u < c * high);
    assert(k < 0x20_0000_0000_0000) by (nonlinear_arith)
        requires
            c * low <= u,
            low == k * one,
            u < 0x20_0000_0000_0000 * one,
            c > 0,
            one > 0,
    ;
    let n = u * one;
    let b = nearest(n, d);
    law_nearest_exists(n, d);
    // The quotient is at least `k`.
    lemma_small_is_kept(k, 1074);
    let b0 = nearest(low, 1);
    assert(low * d <= n * 1) by (nonlinear_arith)
        requires
            c * low <= u,
            d == c * one,
            n == u * one,
    ;
    law_rounding_keeps_order(low, 1, n, d);
    // The quotient is less than `k + 1`.
    lemma_pow2_order(0, 53);
    vstd::arithmetic::power2::lemma2_to64();
    let (h, t) = lemma_normal_whole(k + 1, k + 1, 1074);
    let b1 = t * 0x10_0000_0000_0000 + h;
    lemma_encode(t, h);
    lemma_encode(t, (h - 1) as nat);
    let p = pow2(t);
    lemma_pow2_pos(t);
    assert(b < b1) by {
        if b >= b1 {
            vstd::arithmetic::div_mod::lemma_mod_multiples_basic((k + 1) as int, one as int);
            lemma_no_carry(u, c, h, t, x, b);
        }
    }
    if b0 < b {
        binary64::lemma_bits_order(b0, b);
    }
    binary64::lemma_bits_order(b, b1);
    lemma_signed(false, b);
    let r = x.spec_quotient(divisor);
    assert(divisor.magnitude() == d);
    assert(r == signed(false, b));
    let m = r.magnitude();
    assert(low <= m < high);
    assert(high == low + one) by (nonlinear_arith)
        requires
            low == k * one,
            high == (k + 1) * one,
    ;
    vstd::arithmetic::div_mod::lemma_fundamental_div_mod_converse(
        m as int,
        one as int,
        k as int,
        m - low,
    );
}

/// A double below `c * h * 2^t` divided by `c` is not rounded up to
/// `h * 2^t`.
proof fn lemma_no_carry(u: nat, c: nat, h: nat, t: nat, x: Binary64, b: nat)
    requires
        x.is_finite(),
        u == x.magnitude(),
        u < 0x20_0000_0000_0000 * binary64::one(),
        c > 0,
        0x10_0000_0000_0000 < h <= 0x20_0000_0000_0000,
        1021 <= t <= 1074,
        (h * pow2(t)) % binary64::one() == 0,
        u < c * (h * pow2(t)),
        b >= t * 0x10_0000_0000_0000 + h,
        is_nearest(b, u * binary64::one(), c * binary64::one()),
    ensures
        b < t * 0x10_0000_0000_0000 + h,
{
    let one = binary64::one();
    lemma_pow2_pos(1074);
    vstd::arithmetic::power2::lemma2_to64_rest();
    let p = pow2(t);
    lemma_pow2_pos(t);
    let b1 = t * 0x10_0000_0000_0000 + h;
    lemma_encode(t, h);
    lemma_encode(t, (h - 1) as nat);
    let below = binary64::magnitude_at((b - 1) as nat);
    let here = binary64::magnitude_at(b);
    if b > b1 {
        binary64::lemma_bits_order(b1, b);
        binary64::lemma_bits_order((b1 - 1) as nat, (b - 1) as nat);
    }
    let sum = below + here;
    assert((h - 1) * p + h * p == (2 * h - 1) * p) by (nonlinear_arith);
    assert(sum >= (2 * h - 1) * p);
    // Cancel what a unit is.
    assert(2 * (u * one) >= (c * one) * sum);
    assert(2 * u >= c * sum) by (nonlinear_arith)
        requires
            2 * (u * one) >= (c * one) * sum,
            one > 0,
    ;
    assert(c * sum >= c * ((2 * h - 1) * p)) by (nonlinear_arith)
        requires
            sum >= (2 * h - 1) * p,
    ;
    let top = c * (h * p);
    assert(c * ((2 * h - 1) * p) == 2 * top - c * p) by (nonlinear_arith)
        requires
            top == c * (h * p),
    ;
    let short = top - u;
    assert(2 * short <= c * p);
    // The double is a multiple of its last place, and so is the limit.
    let (m, k) = lemma_parts(x);
    let q = pow2(k);
    lemma_pow2_pos(k);
    assert(k <= 1074) by {
        if k > 1074 {
            lemma_pow2_order(1075, k);
            lemma_pow2_unfold(1075);
            assert(m * q >= 0x10_0000_0000_0000 * (2 * one)) by (nonlinear_arith)
                requires
                    m >= 0x10_0000_0000_0000,
                    q >= 2 * one,
            ;
        }
    }
    let w = pow2((1074 - k) as nat);
    lemma_pow2_adds((1074 - k) as nat, k);
    let z = (h * p) / one;
    vstd::arithmetic::div_mod::lemma_fundamental_div_mod((h * p) as int, one as int);
    assert(top == ((c * z) * w) * q) by (nonlinear_arith)
        requires
            top == c * (one * z),
            one == w * q,
    ;
    let places = (c * z) * w - m;
    assert(short == places * q) by (nonlinear_arith)
        requires
            short == ((c * z) * w) * q - m * q,
            places == (c * z) * w - m,
    ;
    assert(places >= 1) by (nonlinear_arith)
        requires
            places * q > 0,
            q > 0,
    ;
    assert(short >= q) by (nonlinear_arith)
        requires
            short == places * q,
            places >= 1,
            q > 0,
    ;
    // The double is too close to the limit for its last place.
    assert(2 * (0x20_0000_0000_0000 * q) > 2 * u) by (nonlinear_arith)
        requires
            u == m * q,
            m < 0x20_0000_0000_0000,
            q > 0,
    ;
    assert(c * ((2 * h - 1) * p) >= 0x20_0000_0000_0001 * (c * p)) by (nonlinear_arith)
        requires
            h >= 0x10_0000_0000_0001,
    ;
    assert(2 * q > c * p) by (nonlinear_arith)
        requires
            2 * (0x20_0000_0000_0000 * q) > 0x20_0000_0000_0001 * (c * p),
    ;
}

/// Products of whole numbers are exact below `2^53`.
#[verifier::spinoff_prover]
#[verifier::rlimit(50)]
pub proof fn law_whole_products(a: Binary64, b: Binary64, x: nat, y: nat)
    requires
        a.is_finite(),
        b.is_finite(),
        a.value() == x * binary64::one(),
        b.value() == y * binary64::one(),
        x * y < 0x20_0000_0000_0000,
    ensures
        a.spec_product(b).is_finite(),
        a.spec_product(b).value() == (x * y) * binary64::one(),
{
    let one = binary64::one();
    lemma_pow2_pos(1074);
    assert(x * one >= 0 && y * one >= 0) by (nonlinear_arith);
    assert(a.magnitude() == x * one && b.magnitude() == y * one);
    let whole = (x * y) * one;
    assert((x * one) * (y * one) == one * whole) by (nonlinear_arith)
        requires
            whole == (x * y) * one,
    ;
    lemma_small_is_kept(x * y, 1074);
    let k = nearest(whole, 1);
    law_doubles_are_kept(k, one);
    lemma_signed(a.negative() != b.negative(), k);
    let r = a.spec_product(b);
    if r.negative() {
        if a.negative() {
            assert(x * one == 0);
            assert(x == 0) by (nonlinear_arith)
                requires
                    x * one == 0,
                    one > 0,
            ;
        } else {
            assert(y * one == 0);
            assert(y == 0) by (nonlinear_arith)
                requires
                    y * one == 0,
                    one > 0,
            ;
        }
        assert(x * y == 0) by (nonlinear_arith)
            requires
                x == 0 || y == 0,
        ;
        assert(0 * one == 0);
    }
}

/// Sums of whole numbers are exact below `2^53`.
pub proof fn law_whole_sums(a: Binary64, b: Binary64, x: nat, y: nat)
    requires
        a.is_finite(),
        b.is_finite(),
        a.value() == x * binary64::one(),
        b.value() == y * binary64::one(),
        x + y < 0x20_0000_0000_0000,
    ensures
        a.spec_sum(b).is_finite(),
        a.spec_sum(b).value() == (x + y) * binary64::one(),
{
    let one = binary64::one();
    lemma_pow2_pos(1074);
    let whole = (x + y) * one;
    assert(x * one + y * one == whole) by (nonlinear_arith)
        requires
            whole == (x + y) * one,
    ;
    lemma_small_is_kept(x + y, 1074);
    lemma_signed(false, nearest(whole, 1));
    lemma_signed(a.negative() && b.negative(), 0);
    assert(binary64::magnitude_at(0) == 0);
}

/// The difference from 1 is exact from one half to two.
#[verifier::spinoff_prover]
#[verifier::rlimit(50)]
pub proof fn law_difference_from_one(t: Binary64)
    requires
        t.is_finite(),
        binary64::one() / 2 <= t.value() <= 2 * binary64::one(),
    ensures
        ({
            let r = t.spec_sum(Binary64 { bits: UNITY }.spec_negated());
            &&& r.is_finite()
            &&& r.value() == t.value() - binary64::one()
        }),
{
    let one = binary64::one();
    law_constants();
    let minus = (Binary64 { bits: UNITY }).spec_negated();
    law_special_values(Binary64 { bits: UNITY }, minus);
    assert(minus.value() == -one && minus.is_finite());
    vstd::arithmetic::power2::lemma2_to64();
    vstd::arithmetic::power2::lemma2_to64_rest();
    lemma_pow2_pos(1074);
    lemma_pow2_pos(1021);
    let low = pow2(1021);
    lemma_pow2_adds(53, 1021);
    lemma_pow2_unfold(1074);
    lemma_pow2_unfold(1075);
    assert(one == 0x20_0000_0000_0000 * low);
    let (m, k) = lemma_parts(t);
    lemma_pow2_pos(k);
    assert(t.magnitude() == t.value());
    assert(k >= 1021) by {
        if k < 1021 {
            lemma_pow2_order(k, 1020);
            lemma_pow2_unfold(1021);
            let (q, r) = (pow2(k), pow2(1020));
            assert(m * q < 0x20_0000_0000_0000 * r) by (nonlinear_arith)
                requires
                    m < 0x20_0000_0000_0000,
                    q <= r,
                    q > 0,
            ;
        }
    }
    let p = pow2((k - 1021) as nat);
    lemma_pow2_adds((k - 1021) as nat, 1021);
    let z = m * p;
    assert(t.magnitude() == z * low) by (nonlinear_arith)
        requires
            t.magnitude() == m * (p * low),
            z == m * p,
    ;
    lemma_unscaled(z, 0x40_0000_0000_0000, low);
    lemma_unscaled(z, 0, low);
    assert(0 * low == 0);
    let v = t.value() - one;
    let w = z - 0x20_0000_0000_0000;
    assert(v == w * low) by (nonlinear_arith)
        requires
            v == z * low - 0x20_0000_0000_0000 * low,
            w == z - 0x20_0000_0000_0000,
    ;
    let r = t.spec_sum(minus);
    lemma_signed(t.negative(), 0);
    assert(binary64::magnitude_at(0) == 0);
    if w == 0x20_0000_0000_0000 {
        lemma_small_is_kept(1, 1074);
        assert(1 * one == one);
        lemma_signed(false, nearest(v as nat, 1));
    } else if w > 0 {
        lemma_small_is_kept(w as nat, 1021);
        assert(v > 0) by (nonlinear_arith)
            requires
                v == w * low,
                w > 0,
                low > 0,
        ;
        lemma_signed(false, nearest(v as nat, 1));
    } else if w < 0 {
        lemma_small_is_kept((-w) as nat, 1021);
        assert(v < 0) by (nonlinear_arith)
            requires
                v == w * low,
                w < 0,
                low > 0,
        ;
        assert((-w) * low == -v) by (nonlinear_arith)
            requires
                v == w * low,
        ;
        lemma_signed(true, nearest((-v) as nat, 1));
    }
}

/// Whether `b` are the bits of the double with significand `m` that is nearest
/// to `2^62 / d` times `2^up`.
pub proof fn lemma_nearest_of_one(m: nat, up: nat, d: nat)
    requires
        0x10_0000_0000_0000 < m < 0x1F_FFFF_FFFF_FFFF,
        up == 1012,
        d > 0,
        2 * m * d + d > 0x8000_0000_0000_0000,
        2 * m * d - d < 0x8000_0000_0000_0000,
    ensures
        nearest(binary64::one(), d) == up * 0x10_0000_0000_0000 + m,
        binary64::magnitude_at(up * 0x10_0000_0000_0000 + m) == m * pow2(up),
        binary64::magnitude_at((up * 0x10_0000_0000_0000 + m - 1) as nat) == (m - 1) * pow2(up),
        binary64::one() == 0x4000_0000_0000_0000 * pow2(up),
        pow2(up) > 0,
{
    vstd::arithmetic::power2::lemma2_to64();
    vstd::arithmetic::power2::lemma2_to64_rest();
    lemma_pow2_adds(62, 1012);
    let p = pow2(up);
    lemma_pow2_pos(up);
    lemma_encode(up, m);
    lemma_encode(up, (m - 1) as nat);
    lemma_encode(up, m + 1);
    let b = up * 0x10_0000_0000_0000 + m;
    let n = binary64::one();
    assert(2 * n == 0x8000_0000_0000_0000 * p);
    assert(d * ((m - 1) * p + m * p) == (2 * m * d - d) * p) by (nonlinear_arith);
    assert(d * (m * p + (m + 1) * p) == (2 * m * d + d) * p) by (nonlinear_arith);
    assert((2 * m * d - d) * p < 0x8000_0000_0000_0000 * p) by (nonlinear_arith)
        requires
            2 * m * d - d < 0x8000_0000_0000_0000,
            p > 0,
    ;
    assert((2 * m * d + d) * p > 0x8000_0000_0000_0000 * p) by (nonlinear_arith)
        requires
            2 * m * d + d > 0x8000_0000_0000_0000,
            p > 0,
    ;
    law_nearest_is_unique(b, n, d);
}

/// Quotients are ordered as the exact ones are.
pub proof fn law_quotient_keeps_order(a: Binary64, b: Binary64, c: Binary64, d: Binary64)
    requires
        a.is_finite(),
        b.is_finite(),
        c.is_finite(),
        d.is_finite(),
        b.magnitude() > 0,
        d.magnitude() > 0,
        a.magnitude() * d.magnitude() <= c.magnitude() * b.magnitude(),
    ensures
        a.spec_quotient(b).magnitude() <= c.spec_quotient(d).magnitude(),
{
    let one = binary64::one();
    let (ma, mb, mc, md) = (a.magnitude(), b.magnitude(), c.magnitude(), d.magnitude());
    assert((ma * one) * md <= (mc * one) * mb) by (nonlinear_arith)
        requires
            ma * md <= mc * mb,
    ;
    law_rounding_keeps_order(ma * one, mb, mc * one, md);
    law_nearest_exists(ma * one, mb);
    law_nearest_exists(mc * one, md);
    let (x, y) = (nearest(ma * one, mb), nearest(mc * one, md));
    lemma_signed(a.negative() != b.negative(), x);
    lemma_signed(c.negative() != d.negative(), y);
    if x < y {
        binary64::lemma_bits_order(x, y);
    }
}

/// Half way between two doubles the even one is taken.
pub proof fn law_ties_go_to_even(n: nat, d: nat, c: nat)
    requires
        d > 0,
        c <= INFINITY,
        c != nearest(n, d),
        gap(n, d * binary64::magnitude_at(nearest(n, d))) == gap(n, d * binary64::magnitude_at(c)),
    ensures
        nearest(n, d) % 2 == 0,
{
    law_nearest_exists(n, d);
    let b = nearest(n, d);
    let (mb, mc) = (binary64::magnitude_at(b), binary64::magnitude_at(c));
    assert(d * (mb + mc) == d * mb + d * mc) by (nonlinear_arith);
    if c < b {
        binary64::lemma_bits_order(c, b);
        assert(d * mc < d * mb) by (nonlinear_arith)
            requires
                mc < mb,
                d > 0,
        ;
        assert(2 * n == d * (mb + mc));
        if c < b - 1 {
            let mid = binary64::magnitude_at((b - 1) as nat);
            binary64::lemma_bits_order(c, (b - 1) as nat);
            assert(d * (mid + mb) > d * (mb + mc)) by (nonlinear_arith)
                requires
                    mid > mc,
                    d > 0,
            ;
        }
    } else {
        binary64::lemma_bits_order(b, c);
        assert(d * mb < d * mc) by (nonlinear_arith)
            requires
                mb < mc,
                d > 0,
        ;
        assert(2 * n == d * (mb + mc));
        if b + 1 < c {
            let mid = binary64::magnitude_at(b + 1);
            binary64::lemma_bits_order(b + 1, c);
            assert(d * (mb + mid) < d * (mb + mc)) by (nonlinear_arith)
                requires
                    mid < mc,
                    d > 0,
            ;
        }
    }
}

/// A sum of zero is negative only where both numbers are, and what is not
/// finite leaves no remainder.
pub proof fn law_zero_sums(a: Binary64, b: Binary64, c: nat)
    ensures
        a.is_finite() && b.is_finite() && a.value() + b.value() == 0 ==> {
            &&& a.spec_sum(b).magnitude() == 0
            &&& a.spec_sum(b).negative() == (a.negative() && b.negative())
        },
        !a.is_finite() ==> a.spec_remainder(c).is_nan(),
        a.spec_remainder(0).is_nan(),
{
    lemma_signed(a.negative() && b.negative(), 0);
    assert(binary64::magnitude_at(0) == 0);
}

} // verus!
