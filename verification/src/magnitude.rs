//! The size of a decimal number: whether `f64`'s `FromStr` reads a decimal
//! as a finite value or rounds it to infinity, decided on its digits.
use crate::text::{all_digits, chars_of, digits_value, is_digit, slice};
use vstd::prelude::*;

verus! {

pub open spec fn pow10(n: nat) -> int
    decreases n,
{
    if n == 0 {
        1
    } else {
        10 * pow10((n - 1) as nat)
    }
}

/// `n` zero digits.
pub open spec fn zeros(n: nat) -> Seq<char> {
    Seq::new(n, |i: int| '0')
}

/// The digits of 2^1024 − 2^970, halfway between `f64::MAX` and 2^1024.
pub open spec fn overflow_digits() -> Seq<char> {
    "179769313486231580793728971405303415079934132710037826936173778980444968292764750946649017977587207096330286416692887910946555547851940402630657488671505820681908902000708383676273854845817711531764475730270069855571366959622842914819860834936475292719074168444365510704342711559699508093042880177904174497792"@
}

/// The least decimal value that `f64`'s correctly rounded `FromStr` turns
/// into infinity: values from the halfway point between `f64::MAX` and
/// 2^1024 up round away from `f64::MAX` (a tie goes to the even neighbour,
/// 2^1024).
pub open spec fn overflow_threshold() -> int {
    digits_value(overflow_digits())
}

/// Whether the value `digits × 10^scale` is finite as an `f64`: below the
/// overflow threshold.
pub open spec fn below_overflow(digits: Seq<char>, scale: int) -> bool {
    if scale >= 0 {
        digits_value(digits) * pow10(scale as nat) < overflow_threshold()
    } else {
        digits_value(digits) < overflow_threshold() * pow10((-scale) as nat)
    }
}

/// The bound at which a decimal exponent is held: far beyond any exponent
/// that matters for a text that fits in memory.
pub const EXPONENT_CAP: i128 = 0x10_0000_0000_0000_0000_0000_0000;

/// `v` held within `-EXPONENT_CAP..=EXPONENT_CAP`.
pub open spec fn clamp_exponent(v: int) -> int {
    if v > EXPONENT_CAP {
        EXPONENT_CAP as int
    } else if v < -EXPONENT_CAP {
        -EXPONENT_CAP
    } else {
        v
    }
}

pub proof fn lemma_pow10_positive(n: nat)
    ensures
        pow10(n) >= 1,
    decreases n,
{
    if n > 0 {
        lemma_pow10_positive((n - 1) as nat);
    }
}

pub proof fn lemma_pow10_add(a: nat, b: nat)
    ensures
        pow10(a) * pow10(b) == pow10(a + b),
    decreases a,
{
    if a > 0 {
        lemma_pow10_add((a - 1) as nat, b);
        let p = pow10((a - 1) as nat);
        let q = pow10(b);
        assert((10 * p) * q == 10 * (p * q)) by (nonlinear_arith);
        assert((a - 1) as nat + b == (a + b - 1) as nat);
    }
}

pub proof fn lemma_pow10_mono(a: nat, b: nat)
    requires
        a <= b,
    ensures
        pow10(a) <= pow10(b),
    decreases b,
{
    if a < b {
        lemma_pow10_mono(a, (b - 1) as nat);
        lemma_pow10_positive((b - 1) as nat);
    }
}

pub proof fn lemma_value_concat(a: Seq<char>, b: Seq<char>)
    ensures
        digits_value(a + b) == digits_value(a) * pow10(b.len()) + digits_value(b),
    decreases b.len(),
{
    if b.len() == 0 {
        assert(a + b =~= a);
    } else {
        let b0 = b.drop_last();
        lemma_value_concat(a, b0);
        assert((a + b).drop_last() =~= a + b0);
        assert((a + b).last() == b.last());
        let va = digits_value(a);
        let p = pow10(b0.len());
        let vb = digits_value(b0);
        assert((va * p + vb) * 10 == va * (10 * p) + vb * 10) by (nonlinear_arith);
        assert(b0.len() == (b.len() - 1) as nat);
    }
}

pub proof fn lemma_value_bounds(s: Seq<char>)
    requires
        all_digits(s),
    ensures
        0 <= digits_value(s) < pow10(s.len()),
    decreases s.len(),
{
    if s.len() > 0 {
        let s0 = s.drop_last();
        assert(all_digits(s0)) by {
            assert forall|i: int| 0 <= i < s0.len() implies is_digit(#[trigger] s0[i]) by {
                assert(s0[i] == s[i]);
            }
        }
        lemma_value_bounds(s0);
        assert(is_digit(s[s.len() - 1]));
        assert(s0.len() == (s.len() - 1) as nat);
    }
}

pub proof fn lemma_value_lower(s: Seq<char>)
    requires
        all_digits(s),
        s.len() > 0,
        s[0] != '0',
    ensures
        digits_value(s) >= pow10((s.len() - 1) as nat),
    decreases s.len(),
{
    assert(is_digit(s[0]));
    if s.len() > 1 {
        let s0 = s.drop_last();
        assert(all_digits(s0)) by {
            assert forall|i: int| 0 <= i < s0.len() implies is_digit(#[trigger] s0[i]) by {
                assert(s0[i] == s[i]);
            }
        }
        assert(s0[0] == s[0]);
        lemma_value_lower(s0);
        assert(is_digit(s[s.len() - 1]));
        assert((s0.len() - 1) as nat == (s.len() - 2) as nat);
        assert(pow10((s.len() - 1) as nat) == 10 * pow10((s.len() - 2) as nat));
        assert(digits_value(s) == digits_value(s0) * 10 + (s.last() as int - '0' as int));
    } else {
        assert(s.drop_last().len() == 0);
        assert(digits_value(s.drop_last()) == 0);
        assert(s.last() == s[0]);
        assert(digits_value(s) == digits_value(s.drop_last()) * 10 + (s.last() as int - '0' as int));
        assert(pow10(0) == 1);
    }
}

pub proof fn lemma_zeros_value(n: nat)
    ensures
        digits_value(zeros(n)) == 0,
    decreases n,
{
    if n > 0 {
        assert(zeros(n).drop_last() =~= zeros((n - 1) as nat));
        lemma_zeros_value((n - 1) as nat);
    }
}

/// Digits followed by `n` zeros are worth `10^n` times as much.
pub proof fn lemma_pad(t: Seq<char>, n: nat)
    ensures
        digits_value(t + zeros(n)) == digits_value(t) * pow10(n),
{
    lemma_value_concat(t, zeros(n));
    lemma_zeros_value(n);
}

/// Two digit strings of one length compare as their first differing digits
/// do.
pub proof fn lemma_first_difference(a: Seq<char>, b: Seq<char>, i: int)
    requires
        a.len() == b.len(),
        all_digits(a),
        all_digits(b),
        0 <= i < a.len(),
        a.subrange(0, i) == b.subrange(0, i),
        a[i] < b[i],
    ensures
        digits_value(a) < digits_value(b),
{
    let n = a.len() as int;
    let a1 = a.subrange(0, i + 1);
    let a2 = a.subrange(i + 1, n);
    let b1 = b.subrange(0, i + 1);
    let b2 = b.subrange(i + 1, n);
    assert(a1 + a2 =~= a);
    assert(b1 + b2 =~= b);
    lemma_value_concat(a1, a2);
    lemma_value_concat(b1, b2);
    assert(a1.drop_last() =~= a.subrange(0, i));
    assert(b1.drop_last() =~= b.subrange(0, i));
    assert(a1.last() == a[i]);
    assert(b1.last() == b[i]);
    assert(all_digits(a2)) by {
        assert forall|j: int| 0 <= j < a2.len() implies is_digit(#[trigger] a2[j]) by {
            assert(a2[j] == a[i + 1 + j]);
        }
    }
    assert(all_digits(b2)) by {
        assert forall|j: int| 0 <= j < b2.len() implies is_digit(#[trigger] b2[j]) by {
            assert(b2[j] == b[i + 1 + j]);
        }
    }
    lemma_value_bounds(a2);
    lemma_value_bounds(b2);
    let va1 = digits_value(a1);
    let vb1 = digits_value(b1);
    assert(vb1 >= va1 + 1);
    let p = pow10(a2.len());
    assert(b2.len() == a2.len());
    let va2 = digits_value(a2);
    let vb2 = digits_value(b2);
    assert(va1 * p + va2 < vb1 * p + vb2) by (nonlinear_arith)
        requires
            vb1 >= va1 + 1,
            0 <= va2 < p,
            0 <= vb2,
    ;
}

pub proof fn lemma_threshold()
    ensures
        overflow_digits().len() == 309,
        all_digits(overflow_digits()),
        overflow_digits()[0] == '1',
        pow10(308) <= overflow_threshold() < pow10(309),
{
    reveal_strlit("179769313486231580793728971405303415079934132710037826936173778980444968292764750946649017977587207096330286416692887910946555547851940402630657488671505820681908902000708383676273854845817711531764475730270069855571366959622842914819860834936475292719074168444365510704342711559699508093042880177904174497792");
    lemma_value_bounds(overflow_digits());
    lemma_value_lower(overflow_digits());
}

/// A value with `k` significant digits and scale `s` has `k + s` digits
/// before the point: with at most 308 it is finite, with 310 or more it is
/// not.
proof fn lemma_magnitude(t: Seq<char>, s: int)
    requires
        all_digits(t),
        t.len() > 0,
        t[0] != '0',
    ensures
        t.len() + s <= 308 ==> below_overflow(t, s),
        t.len() + s >= 310 ==> !below_overflow(t, s),
{
    lemma_threshold();
    lemma_value_bounds(t);
    lemma_value_lower(t);
    let k = t.len();
    let v = digits_value(t);
    let th = overflow_threshold();
    if s >= 0 {
        let sn = s as nat;
        let ps = pow10(sn);
        lemma_pow10_positive(sn);
        if k + s <= 308 {
            lemma_pow10_add(k, sn);
            lemma_pow10_mono(k + sn, 308);
            assert(v * ps < pow10(k) * ps) by (nonlinear_arith)
                requires
                    v < pow10(k),
                    ps >= 1,
            ;
        }
        if k + s >= 310 {
            lemma_pow10_add((k - 1) as nat, sn);
            lemma_pow10_mono(309, (k - 1) as nat + sn);
            assert(v * ps >= pow10((k - 1) as nat) * ps) by (nonlinear_arith)
                requires
                    v >= pow10((k - 1) as nat),
                    ps >= 1,
            ;
        }
    } else {
        let sn = (-s) as nat;
        let ps = pow10(sn);
        lemma_pow10_positive(sn);
        if k + s <= 308 {
            lemma_pow10_mono(k, 308 + sn);
            lemma_pow10_add(308, sn);
            assert(pow10(308) * ps <= th * ps) by (nonlinear_arith)
                requires
                    pow10(308) <= th,
                    ps >= 1,
            ;
        }
        if k + s >= 310 {
            lemma_pow10_add(309, sn);
            lemma_pow10_mono(309 + sn, (k - 1) as nat);
            assert(th * ps < pow10(309) * ps) by (nonlinear_arith)
                requires
                    th < pow10(309),
                    ps >= 1,
            ;
        }
    }
}

/// `a < b` for digit strings of one length, by value.
fn less_digits(a: &[char], b: &[char]) -> (r: bool)
    requires
        a.len() == b.len(),
        all_digits(a@),
        all_digits(b@),
    ensures
        r == (digits_value(a@) < digits_value(b@)),
{
    let mut i: usize = 0;
    while i < a.len()
        invariant
            i <= a.len(),
            a.len() == b.len(),
            all_digits(a@),
            all_digits(b@),
            a@.subrange(0, i as int) == b@.subrange(0, i as int),
        decreases a.len() - i,
    {
        if a[i] != b[i] {
            if a[i] < b[i] {
                proof {
                    lemma_first_difference(a@, b@, i as int);
                }
                return true;
            } else {
                proof {
                    lemma_first_difference(b@, a@, i as int);
                }
                return false;
            }
        }
        assert(a@.subrange(0, i + 1) =~= a@.subrange(0, i as int).push(a@[i as int]));
        assert(b@.subrange(0, i + 1) =~= b@.subrange(0, i as int).push(b@[i as int]));
        i += 1;
    }
    assert(a@ =~= a@.subrange(0, a.len() as int));
    assert(b@ =~= b@.subrange(0, b.len() as int));
    false
}

/// `t` followed by `n` zeros.
fn padded(t: &[char], n: usize) -> (r: Vec<char>)
    requires
        t.len() + n <= usize::MAX,
    ensures
        r@ == t@ + zeros(n as nat),
{
    let mut r = slice(t, 0, t.len());
    assert(t@.subrange(0, t.len() as int) =~= t@);
    let mut j: usize = 0;
    while j < n
        invariant
            j <= n,
            r@ == t@ + zeros(j as nat),
        decreases n - j,
    {
        r.push('0');
        j += 1;
        assert(r@ =~= t@ + zeros(j as nat));
    }
    r
}

/// The clamped value of an exponent's digits, negated when `negative`.
pub fn clamped_exponent(d: &[char], negative: bool) -> (r: i128)
    requires
        all_digits(d@),
    ensures
        r == clamp_exponent(if negative { -digits_value(d@) } else { digits_value(d@) }),
{
    let cap = EXPONENT_CAP;
    let mut acc: i128 = 0;
    let mut i: usize = 0;
    while i < d.len()
        invariant
            i <= d.len(),
            all_digits(d@),
            cap == EXPONENT_CAP,
            digits_value(d@.take(i as int)) >= 0,
            acc == if digits_value(d@.take(i as int)) > cap {
                cap + 1
            } else {
                digits_value(d@.take(i as int))
            },
        decreases d.len() - i,
    {
        let ghost t = d@.take(i + 1);
        assert(t.drop_last() =~= d@.take(i as int));
        assert(t.last() == d@[i as int]);
        assert(is_digit(d@[i as int]));
        let digit = (d[i] as u32 - '0' as u32) as i128;
        if acc <= cap {
            acc = acc * 10 + digit;
            if acc > cap {
                acc = cap + 1;
            }
        }
        i += 1;
    }
    assert(d@.take(d.len() as int) =~= d@);
    if acc > cap {
        if negative {
            -cap
        } else {
            cap
        }
    } else if negative {
        -acc
    } else {
        acc
    }
}

/// Whether `digits × 10^(exponent − fraction)` is finite as an `f64`, where
/// `clamped` is `exponent` held within the exponent cap.
pub fn below_overflow_exec(digits: &[char], clamped: i128, fraction: usize, Ghost(exponent): Ghost<int>) -> (r: bool)
    requires
        all_digits(digits@),
        clamped == clamp_exponent(exponent),
    ensures
        r == below_overflow(digits@, exponent - fraction),
{
    let ghost scale = exponent - fraction;
    proof {
        lemma_threshold();
    }
    let mut z: usize = 0;
    while z < digits.len() && digits[z] == '0'
        invariant
            z <= digits.len(),
            forall|j: int| 0 <= j < z ==> digits@[j] == '0',
        decreases digits.len() - z,
    {
        z += 1;
    }
    let t = slice(digits, z, digits.len());
    proof {
        let lead = digits@.subrange(0, z as int);
        assert(lead =~= zeros(z as nat));
        assert(lead + t@ =~= digits@);
        lemma_value_concat(lead, t@);
        lemma_zeros_value(z as nat);
        assert(digits_value(digits@) == digits_value(t@));
        assert(all_digits(t@)) by {
            assert forall|j: int| 0 <= j < t@.len() implies is_digit(#[trigger] t@[j]) by {
                assert(t@[j] == digits@[z + j]);
            }
        }
    }
    let k = t.len();
    if k == 0 {
        proof {
            assert(t@ =~= zeros(0));
            lemma_zeros_value(0);
            lemma_pow10_positive((-scale) as nat);
            assert(0 < overflow_threshold() * pow10((-scale) as nat)) by (nonlinear_arith)
                requires
                    overflow_threshold() >= 1,
                    pow10((-scale) as nat) >= 1,
            ;
        }
        return true;
    }
    proof {
        lemma_magnitude(t@, scale);
    }
    let m: i128 = k as i128 + clamped - fraction as i128;
    if m <= 308 {
        return true;
    }
    if m >= 310 {
        return false;
    }
    assert(clamped == exponent);
    let s: i128 = clamped - fraction as i128;
    let bound = chars_of("179769313486231580793728971405303415079934132710037826936173778980444968292764750946649017977587207096330286416692887910946555547851940402630657488671505820681908902000708383676273854845817711531764475730270069855571366959622842914819860834936475292719074168444365510704342711559699508093042880177904174497792");
    proof {
        reveal_strlit("179769313486231580793728971405303415079934132710037826936173778980444968292764750946649017977587207096330286416692887910946555547851940402630657488671505820681908902000708383676273854845817711531764475730270069855571366959622842914819860834936475292719074168444365510704342711559699508093042880177904174497792");
        assert(bound@ == overflow_digits());
    }
    if s >= 0 {
        let a = padded(&t, s as usize);
        proof {
            lemma_pad(t@, s as nat);
            assert(all_digits(a@)) by {
                assert forall|j: int| 0 <= j < a@.len() implies is_digit(#[trigger] a@[j]) by {
                    if j < k {
                        assert(a@[j] == t@[j]);
                    } else {
                        assert(a@[j] == '0');
                    }
                }
            }
        }
        less_digits(&a, &bound)
    } else {
        let b = padded(&bound, (-s) as usize);
        proof {
            lemma_pad(overflow_digits(), (-s) as nat);
            assert(all_digits(b@)) by {
                assert forall|j: int| 0 <= j < b@.len() implies is_digit(#[trigger] b@[j]) by {
                    if j < 309 {
                        assert(b@[j] == overflow_digits()[j]);
                    } else {
                        assert(b@[j] == '0');
                    }
                }
            }
        }
        less_digits(&t, &b)
    }
}

} // verus!
