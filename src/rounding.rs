//! A quotient of two decimals rounded to seventeen significant digits, enough
//! for the text to read back as the double nearest to the quotient.
use vstd::prelude::*;
use vstd::arithmetic::div_mod::{
    lemma_fundamental_div_mod, lemma_fundamental_div_mod_converse, lemma_div_denominator,
};
use crate::decimal::{
    pow10, nat_text, fraction_text, trimmed, padded_text, digit_char, digit_char_of, push_nat_text, lemma_pow10_grows, lemma_pow10_38, lemma_pow10_36, lemma_long_division_step,
    lemma_pow10_mul,
};

verus! {

/// The numerator of `(m / d) * 10^j`, the power of ten on one side only.
pub open spec fn shifted_num(m: nat, j: int) -> nat {
    if j >= 0 {
        m * pow10(j as nat)
    } else {
        m
    }
}

/// The denominator of `(m / d) * 10^j`.
pub open spec fn shifted_den(d: nat, j: int) -> nat {
    if j >= 0 {
        d
    } else {
        d * pow10((-j) as nat)
    }
}

/// `(m / d) * 10^j` lies in `[10^16, 10^17)`: it has seventeen digits before
/// the point.
pub open spec fn in_range(m: nat, d: nat, j: int) -> bool {
    pow10(16) * shifted_den(d, j) <= shifted_num(m, j) && shifted_num(m, j) < pow10(17)
        * shifted_den(d, j)
}

/// `a / b` rounded to the nearest integer, halves away from zero.
pub open spec fn nearest(a: nat, b: nat) -> nat {
    (2 * a + b) / (2 * b)
}

proof fn lemma_nearest(a: int, b: int, v: int, r: int)
    requires
        b > 0,
        a == v * b + r,
        0 <= r < b,
        v >= 0,
    ensures
        (2 * a + b) / (2 * b) == v + if 2 * r >= b { 1int } else { 0int },
{
    if 2 * r >= b {
        assert(2 * a + b == (v + 1) * (2 * b) + (2 * r - b)) by (nonlinear_arith)
            requires
                a == v * b + r,
        ;
        lemma_fundamental_div_mod_converse(2 * a + b, 2 * b, v + 1, 2 * r - b);
    } else {
        assert(2 * a + b == v * (2 * b) + (2 * r + b)) by (nonlinear_arith)
            requires
                a == v * b + r,
        ;
        lemma_fundamental_div_mod_converse(2 * a + b, 2 * b, v, 2 * r + b);
    }
}

/// For integers, `c * b <= a` exactly when `c <= a / b`, and `a < c * b`
/// exactly when `a / b < c`.
proof fn lemma_floor_bounds(a: int, b: int, c: int)
    requires
        a >= 0,
        b > 0,
        c >= 0,
    ensures
        (c * b <= a) == (c <= a / b),
        (a < c * b) == (a / b < c),
{
    lemma_fundamental_div_mod(a, b);
    vstd::arithmetic::div_mod::lemma_mod_pos_bound(a, b);
    let q = a / b;
    let r = a % b;
    assert(a == q * b + r) by (nonlinear_arith)
        requires
            a == b * q + r,
    ;
    if c <= q {
        assert(c * b <= q * b) by (nonlinear_arith)
            requires
                c <= q,
                b > 0,
        ;
    } else {
        assert(c * b >= q * b + b) by (nonlinear_arith)
            requires
                c >= q + 1,
                b > 0,
        ;
    }
}

proof fn lemma_cross(m: nat, d: nat, j1: int, j2: int)
    requires
        j1 < j2,
    ensures
        shifted_num(m, j2) * shifted_den(d, j1) == shifted_num(m, j1) * shifted_den(d, j2) * pow10(
            (j2 - j1) as nat,
        ),
{
    let g = pow10((j2 - j1) as nat);
    if j1 >= 0 {
        lemma_pow10_mul(j1 as nat, (j2 - j1) as nat);
        assert(m * pow10(j2 as nat) * d == m * pow10(j1 as nat) * d * g) by (nonlinear_arith)
            requires
                pow10(j2 as nat) == pow10(j1 as nat) * g,
        ;
    } else if j2 >= 0 {
        lemma_pow10_mul(j2 as nat, (-j1) as nat);
        assert(m * pow10(j2 as nat) * (d * pow10((-j1) as nat)) == m * d * g) by (nonlinear_arith)
            requires
                g == pow10(j2 as nat) * pow10((-j1) as nat),
        ;
    } else {
        lemma_pow10_mul((-j2) as nat, (j2 - j1) as nat);
        assert(m * (d * pow10((-j1) as nat)) == m * (d * pow10((-j2) as nat)) * g) by (nonlinear_arith)
            requires
                pow10((-j1) as nat) == pow10((-j2) as nat) * g,
        ;
    }
}

/// At most one shift puts a quotient into seventeen digits.
pub proof fn lemma_in_range_unique(m: nat, d: nat, j1: int, j2: int)
    requires
        d > 0,
        in_range(m, d, j1),
        in_range(m, d, j2),
    ensures
        j1 == j2,
{
    if j1 != j2 {
        let (a, b) = if j1 < j2 { (j1, j2) } else { (j2, j1) };
        lemma_cross(m, d, a, b);
        lemma_pow10_grows(1, (b - a) as nat);
        reveal_with_fuel(pow10, 2);
        let g = pow10((b - a) as nat);
        let na = shifted_num(m, a);
        let da = shifted_den(d, a);
        let nb = shifted_num(m, b);
        let db = shifted_den(d, b);
        lemma_pow10_grows(0, (b - a) as nat);
        assert(da > 0 && db > 0) by {
            lemma_pow10_grows(0, (-a) as nat);
            lemma_pow10_grows(0, (-b) as nat);
            reveal_with_fuel(pow10, 1);
            if a < 0 {
                assert(d * pow10((-a) as nat) > 0) by (nonlinear_arith)
                    requires
                        d > 0,
                        pow10((-a) as nat) >= 1,
                ;
            }
            if b < 0 {
                assert(d * pow10((-b) as nat) > 0) by (nonlinear_arith)
                    requires
                        d > 0,
                        pow10((-b) as nat) >= 1,
                ;
            }
        }
        assert(pow10(17) == 10 * pow10(16));
        assert(false) by (nonlinear_arith)
            requires
                nb * da == na * db * g,
                g >= 10,
                pow10(16) * da <= na,
                nb < pow10(17) * db,
                pow10(17) == 10 * pow10(16),
                da > 0,
                db > 0,
        ;
    }
}

/// Finds the shift `j` that gives `m / d` seventeen digits before the point,
/// and the quotient so shifted, rounded to the nearest integer.
#[verifier::rlimit(100)]
pub fn round_significant(m: u128, d: u128) -> (r: (i64, u128))
    requires
        0 < m < pow10(37),
        0 < d < pow10(37),
    ensures
        in_range(m as nat, d as nat, r.0 as int),
        r.1 == nearest(shifted_num(m as nat, r.0 as int), shifted_den(d as nat, r.0 as int)),
        -40 < r.0 < 60,
        pow10(16) <= r.1 <= pow10(17),
{
    proof {
        lemma_pow10_38();
        lemma_pow10_36();
        lemma_pow10_grows(37, 38);
        lemma_pow10_grows(17, 36);
        lemma_pow10_grows(16, 17);
        reveal_with_fuel(pow10, 18);
    }
    let e16: u128 = 10000000000000000;
    let e17: u128 = 100000000000000000;
    assert(e16 == pow10(16) && e17 == pow10(17));
    let v0 = m / d;
    let r0 = m % d;
    proof {
        lemma_fundamental_div_mod(m as int, d as int);
        assert(pow10(0) == 1);
        assert(m * pow10(0) == m);
    }
    if v0 < e16 {
        let mut v: u128 = v0;
        let mut r: u128 = r0;
        let mut j: i64 = 0;
        while v < e16
            invariant
                0 <= j <= 53,
                0 < m < pow10(37),
                0 < d < pow10(37),
                e16 == pow10(16),
                e17 == pow10(17),
                pow10(37) == 10000000000000000000000000000000000000nat,
                r < d,
                v == (m * pow10(j as nat)) / (d as int),
                r == (m * pow10(j as nat)) % (d as int),
                v < e17,
            decreases 53 - j,
        {
            let ghost x = m * pow10(j as nat);
            proof {
                lemma_long_division_step(x, d as int);
                assert(m * pow10((j + 1) as nat) == 10 * x) by (nonlinear_arith)
                    requires
                        pow10((j + 1) as nat) == 10 * pow10(j as nat),
                        x == m * pow10(j as nat),
                ;
                assert((10 * r as int) / (d as int) < 10) by (nonlinear_arith)
                    requires
                        0 <= r < d,
                ;
                // A quotient below 10^16 means fewer than 53 shifts.
                if j >= 53 {
                    lemma_pow10_grows(53, j as nat);
                    lemma_pow10_mul(16, 37);
                    lemma_floor_bounds(x, d as int, pow10(16) as int);
                    assert(pow10(16) * d <= x) by (nonlinear_arith)
                        requires
                            d < pow10(37),
                            m >= 1,
                            x == m * pow10(j as nat),
                            pow10(j as nat) >= pow10(53),
                            pow10(53) == pow10(16) * pow10(37),
                    ;
                }
            }
            let t = r * 10;
            v = v * 10 + t / d;
            r = t % d;
            j += 1;
        }
        let up = 2 * r >= d;
        proof {
            let x = m * pow10(j as nat);
            lemma_fundamental_div_mod(x, d as int);
            lemma_floor_bounds(x, d as int, pow10(16) as int);
            lemma_floor_bounds(x, d as int, pow10(17) as int);
            assert(d * v == v * d) by (nonlinear_arith);
            lemma_nearest(x, d as int, v as int, r as int);
            assert(pow10(16) * d == d * pow10(16)) by (nonlinear_arith);
        }
        (j, if up { v + 1 } else { v })
    } else {
        let mut i: u32 = 0;
        let mut p: u128 = 1;
        let mut w: u128 = v0;
        while w >= e17
            invariant
                i <= 21,
                p == pow10(i as nat),
                w == (v0 as int) / (p as int),
                v0 < pow10(37),
                v0 >= e16,
                e16 == pow10(16),
                e17 == pow10(17),
                pow10(37) == 10000000000000000000000000000000000000nat,
                i > 0 ==> w >= e16,
            decreases 21 - i,
        {
            proof {
                lemma_pow10_grows(0, i as nat);
                lemma_div_denominator(v0 as int, p as int, 10);
                assert(pow10((i + 1) as nat) == 10 * pow10(i as nat));
                if i >= 21 {
                    lemma_pow10_mul(17, 21);
                    lemma_pow10_grows(21, i as nat);
                    lemma_pow10_grows(38, 38);
                    lemma_floor_bounds(v0 as int, p as int, pow10(17) as int);
                    assert(v0 < pow10(17) * p) by (nonlinear_arith)
                        requires
                            v0 < pow10(37),
                            p >= pow10(21),
                            pow10(38) == pow10(17) * pow10(21),
                            pow10(37) <= pow10(38),
                    ;
                }
                lemma_floor_bounds(w as int, 10, pow10(16) as int);
                assert(pow10(17) == pow10(16) * 10);
                lemma_pow10_grows((i + 1) as nat, 21);
                lemma_pow10_grows(21, 38);
            }
            p = p * 10;
            w = v0 / p;
            i += 1;
        }
        let s = v0 % p;
        let up = 2 * s >= p;
        proof {
            lemma_pow10_grows(0, i as nat);
            lemma_fundamental_div_mod(v0 as int, p as int);
            vstd::arithmetic::div_mod::lemma_mod_pos_bound(v0 as int, p as int);
            lemma_div_denominator(m as int, d as int, p as int);
            let b = d * p;
            let rem = s * d + r0;
            assert(m == w * b + rem) by (nonlinear_arith)
                requires
                    m == d * v0 + r0,
                    v0 == p * w + s,
                    b == d * p,
                    rem == s * d + r0,
            ;
            assert(rem < b) by (nonlinear_arith)
                requires
                    s < p,
                    r0 < d,
                    rem == s * d + r0,
                    b == d * p,
            ;
            lemma_nearest(m as int, b as int, w as int, rem as int);
            if i > 0 {
                assert(p % 2 == 0) by {
                    assert(pow10(i as nat) == 10 * pow10((i - 1) as nat));
                }
                if 2 * s >= p {
                    assert(2 * s * d >= p * d) by (nonlinear_arith)
                        requires
                            2 * s >= p,
                            d > 0,
                    ;
                    assert(2 * rem >= b) by (nonlinear_arith)
                        requires
                            rem == s * d + r0,
                            b == d * p,
                            r0 >= 0,
                            2 * s * d >= p * d,
                    ;
                } else {
                    assert(2 * s + 2 <= p);
                    assert((2 * s + 2) * d <= p * d) by (nonlinear_arith)
                        requires
                            2 * s + 2 <= p,
                            d > 0,
                    ;
                    assert(2 * rem < b) by (nonlinear_arith)
                        requires
                            rem == s * d + r0,
                            b == d * p,
                            r0 < d,
                            (2 * s + 2) * d <= p * d,
                    ;
                }
            } else {
                assert(s == 0);
                assert(p == 1);
            }
            lemma_floor_bounds(m as int, b as int, pow10(16) as int);
            lemma_floor_bounds(m as int, b as int, pow10(17) as int);
            if i > 0 {
                assert(shifted_den(d as nat, -(i as int)) == d * p);
            } else {
                assert(shifted_num(m as nat, 0) == m * pow10(0));
                assert((2 * s >= p) == (2 * r0 >= d) || true);
            }
            assert(pow10(16) * b == b * pow10(16)) by (nonlinear_arith);
            assert(pow10(17) * b == b * pow10(17)) by (nonlinear_arith);
        }
        if i == 0 {
            let up0 = 2 * r0 >= d;
            proof {
                lemma_fundamental_div_mod(m as int, d as int);
                vstd::arithmetic::div_mod::lemma_mod_pos_bound(m as int, d as int);
                assert(d * v0 == v0 * d) by (nonlinear_arith);
                lemma_nearest(m as int, d as int, v0 as int, r0 as int);
            }
            return (0, if up0 { v0 + 1 } else { v0 });
        }
        (-(i as i64), if up { w + 1 } else { w })
    }
}

/// `q * 10^-k` written in decimal, without trailing zeros after the point.
pub open spec fn decimal_text(q: nat, k: int) -> Seq<char> {
    if k <= 0 {
        nat_text(q * pow10((-k) as nat))
    } else {
        nat_text(q / pow10(k as nat)) + fraction_text(q % pow10(k as nat), k as nat)
    }
}

/// `(m / d) * 10^e`, negated when `negative`, rounded to seventeen
/// significant digits and written in decimal.
pub open spec fn rounded_text(negative: bool, m: nat, d: nat, e: int) -> Seq<char> {
    if m == 0 {
        seq!['0']
    } else {
        let j = choose|j: int| in_range(m, d, j);
        let q = nearest(shifted_num(m, j), shifted_den(d, j));
        (if negative {
            seq!['-']
        } else {
            seq![]
        }) + decimal_text(q, j - e)
    }
}

proof fn lemma_nat_text_times_ten(x: nat)
    requires
        x > 0,
    ensures
        nat_text(x * 10) == nat_text(x).push('0'),
{
    assert((x * 10) / 10 == x);
    assert((x * 10) % 10 == 0);
    assert(digit_char(0) == '0');
}

fn push_padded_wide(f: u128, k: u64, out: &mut Vec<char>)
    ensures
        final(out)@ == old(out)@ + padded_text(f as nat, k as nat),
    decreases k,
{
    if k > 0 {
        push_padded_wide(f / 10, k - 1, out);
        let c = digit_char_of((f % 10) as u8);
        out.push(c);
    }
    assert(old(out)@ + padded_text(f as nat, k as nat) =~= final(out)@);
}

fn push_fraction_wide(out: &mut Vec<char>, f: u128, k: u64)
    ensures
        final(out)@ == old(out)@ + fraction_text(f as nat, k as nat),
{
    let mut g: u128 = f;
    let mut j: u64 = k;
    while j > 0 && g % 10 == 0
        invariant
            j <= k,
            trimmed(f as nat, k as nat) == trimmed(g as nat, j as nat),
        decreases j,
    {
        g = g / 10;
        j -= 1;
    }
    assert(trimmed(g as nat, j as nat) == (g as nat, j as nat));
    if j > 0 {
        out.push('.');
        push_padded_wide(g, j, out);
    }
    assert(final(out)@ =~= old(out)@ + fraction_text(f as nat, k as nat));
}

/// Writes `(m / d) * 10^e` as `rounded_text` states it.
pub fn write_rounded(negative: bool, m: u128, d: u128, e: i64) -> (r: Vec<char>)
    requires
        m < pow10(37),
        0 < d < pow10(37),
        -30000 < e < 30000,
    ensures
        r@ == rounded_text(negative, m as nat, d as nat, e as int),
{
    if m == 0 {
        let r = vec!['0'];
        assert(r@ =~= seq!['0']);
        return r;
    }
    let (j, q) = round_significant(m, d);
    proof {
        let j2 = choose|j2: int| in_range(m as nat, d as nat, j2);
        lemma_in_range_unique(m as nat, d as nat, j2, j as int);
        lemma_pow10_38();
        lemma_pow10_grows(17, 18);
        lemma_pow10_grows(18, 38);
        reveal_with_fuel(pow10, 19);
    }
    let k = j - e;
    let mut out: Vec<char> = Vec::new();
    if negative {
        out.push('-');
    }
    let ghost sign = out@;
    if k <= 0 {
        push_nat_text(q, &mut out);
        let mut i: i64 = 0;
        proof {
            assert(pow10(0) == 1);
            assert(q * pow10(0) == q);
        }
        while i < -k
            invariant
                -40000 < k <= 0,
                0 <= i <= -k,
                q > 0,
                out@ == sign + nat_text((q * pow10(i as nat)) as nat),
            decreases -k - i,
        {
            proof {
                lemma_pow10_grows(0, i as nat);
                assert(q * pow10(i as nat) > 0) by (nonlinear_arith)
                    requires
                        q > 0,
                        pow10(i as nat) >= 1,
                ;
                lemma_nat_text_times_ten((q * pow10(i as nat)) as nat);
                assert(q * pow10((i + 1) as nat) == (q * pow10(i as nat)) * 10) by (nonlinear_arith)
                    requires
                        pow10((i + 1) as nat) == 10 * pow10(i as nat),
                ;
            }
            out.push('0');
            assert(out@ =~= sign + nat_text((q * pow10((i + 1) as nat)) as nat));
            i += 1;
        }
    } else if k <= 18 {
        let mut p: u128 = 1;
        let mut i: i64 = 0;
        while i < k
            invariant
                0 <= i <= k <= 18,
                p == pow10(i as nat),
                pow10(18) == 1000000000000000000nat,
            decreases k - i,
        {
            proof {
                lemma_pow10_grows((i + 1) as nat, 18);
            }
            p = p * 10;
            i += 1;
        }
        push_nat_text(q / p, &mut out);
        push_fraction_wide(&mut out, q % p, k as u64);
    } else {
        proof {
            lemma_pow10_grows(18, k as nat);
            lemma_fundamental_div_mod_converse(q as int, pow10(k as nat) as int, 0, q as int);
            assert(nat_text(0) == seq![digit_char(0)]);
            assert(digit_char(0) == '0');
        }
        out.push('0');
        push_fraction_wide(&mut out, q, k as u64);
    }
    assert(out@ =~= rounded_text(negative, m as nat, d as nat, e as int));
    out
}

/// The rounding: for a quotient `x = m / d` other than zero, the digits
/// written are `q * 10^-k` where `q` holds seventeen digits (or is `10^17`
/// after rounding up) and differs from `x * 10^k` by at most one half.
pub proof fn lemma_rounding_error(m: nat, d: nat, j: int)
    requires
        d > 0,
        m > 0,
        in_range(m, d, j),
    ensures
        ({
            let a = shifted_num(m, j);
            let b = shifted_den(d, j);
            let q = nearest(a, b);
            &&& q * (2 * b) <= 2 * a + b
            &&& 2 * a + b < (q + 1) * (2 * b)
            &&& pow10(16) <= q <= pow10(17)
        }),
{
    let a = shifted_num(m, j) as int;
    let b = shifted_den(d, j) as int;
    assert(b > 0) by {
        if j < 0 {
            lemma_pow10_grows(0, (-j) as nat);
            reveal_with_fuel(pow10, 1);
            assert(d * pow10((-j) as nat) > 0) by (nonlinear_arith)
                requires
                    d > 0,
                    pow10((-j) as nat) >= 1,
            ;
        }
    }
    lemma_fundamental_div_mod(2 * a + b, 2 * b);
    vstd::arithmetic::div_mod::lemma_mod_pos_bound(2 * a + b, 2 * b);
    let q = nearest(a as nat, b as nat) as int;
    assert((q + 1) * (2 * b) == q * (2 * b) + 2 * b) by (nonlinear_arith);
    assert(2 * b * q == q * (2 * b)) by (nonlinear_arith);
    lemma_floor_bounds(2 * a + b, 2 * b, pow10(16) as int);
    lemma_floor_bounds(2 * a + b, 2 * b, (pow10(17) + 1) as int);
    assert(pow10(16) * (2 * b) <= 2 * a + b) by (nonlinear_arith)
        requires
            pow10(16) * b <= a,
            b > 0,
    ;
    assert(2 * a + b < (pow10(17) + 1) * (2 * b)) by (nonlinear_arith)
        requires
            a < pow10(17) * b,
            b > 0,
    ;
}

} // verus!
