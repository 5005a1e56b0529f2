//! Range checks of numbers written as Rust float literals (`1.5`, `.5`,
//! `2e3`, `inf`, ...), decided as `f64` parsing decides them: the decimal
//! value is compared exactly with the points where rounding to the nearest
//! `f64` crosses the range's bounds, so no float is ever computed.
use crate::text::{
    push_chars, digit_chars, all_digits, digits_value, digit_value, is_digit, lemma_digit_char,
    lower_seq, chars_of, slice_vec, lower_chars, chars_eq,
};
use vstd::arithmetic::power::pow;
use vstd::prelude::*;

verus! {

/// A float literal: `inf`/`infinity`/`nan`, or a finite numeral given by
/// its digits (integer and fraction digits together) and the position of
/// the decimal point among them (`value = 0.digits * 10^point`).
pub enum FloatText {
    NonFinite,
    Finite { negative: bool, digits: Seq<char>, point: int },
}

/// Index of the first `e` or `E` (or the length when there is none).
pub open spec fn first_exp_mark(s: Seq<char>) -> nat
    decreases s.len(),
{
    if s.len() == 0 {
        0
    } else if s[0] == 'e' || s[0] == 'E' {
        0
    } else {
        1 + first_exp_mark(s.drop_first())
    }
}

/// Index of the first `.` (or the length when there is none).
pub open spec fn first_dot(s: Seq<char>) -> nat
    decreases s.len(),
{
    if s.len() == 0 {
        0
    } else if s[0] == '.' {
        0
    } else {
        1 + first_dot(s.drop_first())
    }
}

/// An exponent: an optional sign and at least one digit.
pub open spec fn exponent_value(t: Seq<char>) -> Option<int> {
    let neg = t.len() > 0 && t[0] == '-';
    let d = if t.len() > 0 && (t[0] == '+' || t[0] == '-') {
        t.drop_first()
    } else {
        t
    };
    if d.len() > 0 && all_digits(d) {
        Some(if neg {
            0 - digits_value(d)
        } else {
            digits_value(d) as int
        })
    } else {
        None
    }
}

/// The grammar of `f64::from_str`: an optional sign, then `inf`,
/// `infinity` or `nan` in any case, or digits with at most one `.` and at
/// least one digit, followed by an optional exponent.
pub open spec fn float_text(s: Seq<char>) -> Option<FloatText> {
    let negative = s.len() > 0 && s[0] == '-';
    let body = if s.len() > 0 && (s[0] == '+' || s[0] == '-') {
        s.drop_first()
    } else {
        s
    };
    let l = lower_seq(body);
    if l == seq!['i', 'n', 'f'] || l == seq!['i', 'n', 'f', 'i', 'n', 'i', 't', 'y'] || l == seq![
        'n',
        'a',
        'n',
    ] {
        Some(FloatText::NonFinite)
    } else {
        match numeral(body) {
            None => None,
            Some((digits, point)) => Some(FloatText::Finite { negative, digits, point }),
        }
    }
}

/// A finite numeral without sign: its digits (integer and fraction digits
/// together) and the position of the decimal point among them.
pub open spec fn numeral(body: Seq<char>) -> Option<(Seq<char>, int)> {
    let e = first_exp_mark(body);
    let mant = body.take(e as int);
    let exp = if e < body.len() {
        exponent_value(body.skip(e + 1int))
    } else {
        Some(0int)
    };
    let dot = first_dot(mant);
    let ip = mant.take(dot as int);
    let fp = if dot < mant.len() {
        mant.skip(dot + 1int)
    } else {
        Seq::empty()
    };
    if all_digits(ip) && all_digits(fp) && ip.len() + fp.len() > 0 && exp.is_some() {
        Some((ip + fp, ip.len() + exp.unwrap()))
    } else {
        None
    }
}

/// Whether `0.digits * 10^point` has a non-zero fractional part.
pub open spec fn has_fraction(digits: Seq<char>, point: int) -> bool {
    exists|i: int| 0 <= i < digits.len() && point <= i && digits[i] != '0'
}

/// Whether any digit is non-zero.
pub open spec fn nonzero_digits(digits: Seq<char>) -> bool {
    exists|i: int| 0 <= i < digits.len() && digits[i] != '0'
}


/// `d · 10^e ≤ c · 10^f`, for exponents of either sign.
pub open spec fn scaled_le(d: nat, e: int, c: nat, f: int) -> bool {
    if e <= f {
        d <= c * (pow(10, (f - e) as nat) as nat)
    } else {
        d * (pow(10, (e - f) as nat) as nat) <= c
    }
}

/// Whether `d · 10^e ≤ 2^-1075`, where 2^-1075 = 5^1075 · 10^-1075 is half
/// the smallest positive `f64`: a negative number rounds to `-0.0` exactly
/// when its magnitude is at most that (the tie goes to zero, whose
/// significand is even).
pub open spec fn rounds_to_zero(d: nat, e: int) -> bool {
    scaled_le(d, e, pow(5, 1075) as nat, -1075)
}

/// Whether `d · 10^e ≤ 10^6 + 2^-34`, that is `d · 10^e · 2^34 ≤ 10^6 ·
/// 2^34 + 1`: the next `f64` above 10^6 is 2^-33 higher, so a number
/// rounds to at most 10^6 exactly when it is at most halfway there (the
/// tie goes to 10^6, whose significand is even).  Written over powers of
/// ten: 10^6 + 2^-34 = (2^34 · 10^6 + 1) · 5^34 · 10^-34.
pub open spec fn rounds_to_at_most_a_million(d: nat, e: int) -> bool {
    scaled_le(d, e, ((pow(2, 34) * 1_000_000 + 1) * pow(5, 34)) as nat, -34)
}

/// Whether the `f64` that `str::parse` reads from `s` is finite and lies
/// within `0..=1_000_000`; `None` when `s` is no float literal.  The
/// numeral `0.digits · 10^point` denotes `digits_value(digits) ·
/// 10^(point - digits.len())`, and parsing rounds it to the nearest `f64`,
/// ties to even; so the test falls on the two rounding thresholds above.
/// Infinities and NaN are never within range.
pub open spec fn free_space_number_spec(s: Seq<char>) -> Option<bool> {
    match float_text(s) {
        None => None,
        Some(FloatText::NonFinite) => Some(false),
        Some(FloatText::Finite { negative, digits, point }) => {
            let d = digits_value(digits);
            let e = point - digits.len();
            if negative {
                Some(rounds_to_zero(d, e))
            } else {
                Some(rounds_to_at_most_a_million(d, e))
            }
        },
    }
}

} // verus!

verus! {

/// The largest exponent magnitude tracked exactly; beyond it the decision
/// no longer depends on the exponent for texts of at most 4096 characters.
pub open spec fn exp_cap() -> int {
    0x100_0000_0000
}

pub open spec fn sat(x: nat, cap: nat) -> nat {
    if x >= cap {
        cap
    } else {
        x
    }
}

pub open spec fn clamp_exp(x: int) -> int {
    if x > exp_cap() {
        exp_cap()
    } else if x < 0 - exp_cap() {
        0 - exp_cap()
    } else {
        x
    }
}

fn find_exp_mark(v: &[char]) -> (r: usize)
    ensures
        r == first_exp_mark(v@),
        r <= v.len(),
{
    let mut i: usize = 0;
    assert(v@.skip(0) =~= v@);
    while i < v.len() && v[i] != 'e' && v[i] != 'E'
        invariant
            i <= v.len(),
            first_exp_mark(v@) == i + first_exp_mark(v@.skip(i as int)),
        decreases v.len() - i,
    {
        assert(v@.skip(i as int).drop_first() =~= v@.skip(i + 1));
        i += 1;
    }
    i
}

fn find_dot(v: &[char]) -> (r: usize)
    ensures
        r == first_dot(v@),
        r <= v.len(),
{
    let mut i: usize = 0;
    assert(v@.skip(0) =~= v@);
    while i < v.len() && v[i] != '.'
        invariant
            i <= v.len(),
            first_dot(v@) == i + first_dot(v@.skip(i as int)),
        decreases v.len() - i,
    {
        assert(v@.skip(i as int).drop_first() =~= v@.skip(i + 1));
        i += 1;
    }
    i
}

/// The exponent clamped to `-exp_cap()..=exp_cap()`.
fn exponent_clamped(t: &[char]) -> (r: Option<i64>)
    ensures
        match exponent_value(t@) {
            None => r.is_none(),
            Some(x) => r == Some(clamp_exp(x) as i64),
        },
{
    let neg = t.len() > 0 && t[0] == '-';
    let start: usize = if t.len() > 0 && (t[0] == '+' || t[0] == '-') {
        1
    } else {
        0
    };
    let d = slice_vec(t, start, t.len());
    assert(d@ =~= (if t@.len() > 0 && (t@[0] == '+' || t@[0] == '-') {
        t@.drop_first()
    } else {
        t@
    }));
    if d.len() == 0 || !digit_chars(d.as_slice()) {
        return None;
    }
    let mut acc: u64 = 0;
    let mut i: usize = 0;
    while i < d.len()
        invariant
            i <= d.len(),
            all_digits(d@),
            acc == sat(digits_value(d@.take(i as int)), (exp_cap() + 1) as nat),
        decreases d.len() - i,
    {
        let c = d[i];
        assert(is_digit(d@[i as int]));
        let dv = (c as u32 - '0' as u32) as u64;
        assert(d@.take(i + 1).drop_last() =~= d@.take(i as int));
        assert(digits_value(d@.take(i + 1)) == digits_value(d@.take(i as int)) * 10 + dv);
        if acc > 0x100_0000_0000u64 {
            acc = 0x100_0000_0001u64;
        } else {
            acc = acc * 10 + dv;
            if acc > 0x100_0000_0000u64 {
                acc = 0x100_0000_0001u64;
            }
        }
        i += 1;
    }
    assert(d@.take(d.len() as int) =~= d@);
    let m: i64 = if acc > 0x100_0000_0000u64 {
        0x100_0000_0000i64
    } else {
        acc as i64
    };
    if neg {
        Some(0 - m)
    } else {
        Some(m)
    }
}

proof fn lemma_zero_digits(d: Seq<char>)
    requires
        all_digits(d),
        !nonzero_digits(d),
    ensures
        digits_value(d) == 0,
    decreases d.len(),
{
    if d.len() > 0 {
        assert(d.drop_last().len() < d.len());
        assert(!nonzero_digits(d.drop_last())) by {
            if nonzero_digits(d.drop_last()) {
                let i = choose|i: int| 0 <= i < d.drop_last().len() && d.drop_last()[i] != '0';
                assert(d[i] != '0');
            }
        }
        assert(all_digits(d.drop_last())) by {
            assert forall|i: int| 0 <= i < d.drop_last().len() implies is_digit(
                #[trigger] d.drop_last()[i],
            ) by {
                assert(is_digit(d[i]));
            }
        }
        lemma_zero_digits(d.drop_last());
        assert(d[d.len() - 1] == '0');
    }
}

proof fn lemma_nonzero_digits(d: Seq<char>)
    requires
        all_digits(d),
        nonzero_digits(d),
    ensures
        digits_value(d) >= 1,
    decreases d.len(),
{
    let i = choose|i: int| 0 <= i < d.len() && d[i] != '0';
    if i == d.len() - 1 {
        assert(is_digit(d[i]));
        assert(digits_value(d) == digits_value(d.drop_last()) * 10 + ((d[i] as u32) - ('0' as u32)));
    } else {
        assert(d.drop_last()[i] != '0');
        assert(all_digits(d.drop_last())) by {
            assert forall|j: int| 0 <= j < d.drop_last().len() implies is_digit(
                #[trigger] d.drop_last()[j],
            ) by {
                assert(is_digit(d[j]));
            }
        }
        lemma_nonzero_digits(d.drop_last());
    }
}

/// `min(value of d, cap)`.
fn sat_digits_value(d: &[char], cap: u128) -> (r: u128)
    requires
        all_digits(d@),
        1 <= cap <= 0x1_0000_0000_0000_0000,
    ensures
        r == sat(digits_value(d@), cap as nat),
{
    let mut acc: u128 = 0;
    let mut i: usize = 0;
    while i < d.len()
        invariant
            i <= d.len(),
            all_digits(d@),
            1 <= cap <= 0x1_0000_0000_0000_0000,
            acc == sat(digits_value(d@.take(i as int)), cap as nat),
        decreases d.len() - i,
    {
        let c = d[i];
        assert(is_digit(d@[i as int]));
        let dv = (c as u32 - '0' as u32) as u128;
        assert(d@.take(i + 1).drop_last() =~= d@.take(i as int));
        assert(digits_value(d@.take(i + 1)) == digits_value(d@.take(i as int)) * 10 + dv);
        if acc < cap {
            let n = acc * 10 + dv;
            acc = if n >= cap {
                cap
            } else {
                n
            };
        }
        i += 1;
    }
    assert(d@.take(d.len() as int) =~= d@);
    acc
}

fn any_nonzero_from(d: &[char], from: usize) -> (r: bool)
    requires
        from <= d.len(),
    ensures
        r == has_fraction(d@, from as int),
{
    let mut i = from;
    while i < d.len()
        invariant
            from <= i <= d.len(),
            forall|j: int| from <= j < i ==> d@[j] == '0',
        decreases d.len() - i,
    {
        if d[i] != '0' {
            return true;
        }
        i += 1;
    }
    false
}

proof fn lemma_pow_big(j: nat)
    requires
        j >= 20,
    ensures
        pow(10, j) > 0xffff_ffff_ffff_ffff,
{
    vstd::arithmetic::power::lemma_pow_increases(10, 20, j);
    reveal_with_fuel(pow, 21);
    assert(pow(10, 20) == 100000000000000000000);
}

} // verus!

verus! {

/// Two decimal-point positions that give the same decision: equal, or
/// both beyond `2^39` on the same side.
pub open spec fn same_decision(p1: int, p2: int) -> bool {
    p1 == p2 || (p1 >= 0x80_0000_0000 && p2 >= 0x80_0000_0000) || (p1 <= -0x80_0000_0000 && p2
        <= -0x80_0000_0000)
}

proof fn lemma_digits_below(s: Seq<char>)
    requires
        all_digits(s),
    ensures
        digits_value(s) < pow(10, s.len()),
    decreases s.len(),
{
    reveal(pow);
    if s.len() > 0 {
        assert(all_digits(s.drop_last())) by {
            assert forall|i: int| 0 <= i < s.drop_last().len() implies is_digit(#[trigger] s.drop_last()[i]) by {
                assert(is_digit(s[i]));
            }
        }
        lemma_digits_below(s.drop_last());
        assert(is_digit(s.last()));
        let v = digits_value(s.drop_last());
        let p = pow(10, s.drop_last().len());
        assert(pow(10, s.len()) == 10 * p);
        assert(v * 10 + digit_value(s.last()) < 10 * p) by (nonlinear_arith)
            requires
                v < p,
                digit_value(s.last()) < 10,
        ;
    }
}

proof fn lemma_five_le_ten(k: nat)
    ensures
        pow(5, k) <= pow(10, k),
        pow(5, k) >= 1,
    decreases k,
{
    reveal(pow);
    if k > 0 {
        lemma_five_le_ten((k - 1) as nat);
        let a = pow(5, (k - 1) as nat);
        let b = pow(10, (k - 1) as nat);
        assert(5 * a <= 10 * b) by (nonlinear_arith)
            requires
                a <= b,
                a >= 1,
        ;
    }
}

/// `x ≤ m · p` exactly when `x / p < m`, or `x / p == m` and `p` divides `x`.
proof fn lemma_le_by_quotient(x: nat, p: nat, m: nat)
    requires
        p > 0,
    ensures
        (x <= m * p) == ((x / p) < m || ((x / p) == m && x % p == 0)),
{
    let q = x / p;
    let r = x % p;
    vstd::arithmetic::div_mod::lemma_fundamental_div_mod(x as int, p as int);
    vstd::arithmetic::div_mod::lemma_mod_bound(x as int, p as int);
    assert((x <= m * p) == (q < m || (q == m && r == 0))) by (nonlinear_arith)
        requires
            x == p * q + r,
            0 <= r < p,
            q >= 0,
            m >= 0,
    ;
}

/// A non-zero `d` far enough above `c` on the power-of-ten scale is larger.
proof fn lemma_high(d: nat, e: int, m: nat, k: nat, f: int)
    requires
        d >= 1,
        m <= u64::MAX,
        e - f >= k + 20,
    ensures
        !scaled_le(d, e, m * (pow(5, k) as nat), f),
{
    let a = (e - f) as nat;
    lemma_five_le_ten(k);
    lemma_pow_big(20);
    vstd::arithmetic::power::lemma_pow_adds(10, k, 20);
    vstd::arithmetic::power::lemma_pow_increases(10, k + 20, a);
    let p5 = pow(5, k);
    let p10 = pow(10, k);
    let p20 = pow(10, 20);
    let pa = pow(10, a);
    assert(m * p5 < pa) by (nonlinear_arith)
        requires
            m < p20,
            1 <= p5 <= p10,
            p10 * p20 <= pa,
    ;
    assert(d * pa >= pa) by (nonlinear_arith)
        requires
            d >= 1,
            pa >= 0,
    ;
}

/// A number of `n` digits at least `n` places below `c ≥ 1` is smaller.
proof fn lemma_low(d: nat, n: nat, e: int, c: nat, f: int)
    requires
        d < pow(10, n),
        c >= 1,
        f - e >= n,
    ensures
        scaled_le(d, e, c, f),
{
    let b = (f - e) as nat;
    vstd::arithmetic::power::lemma_pow_increases(10, n, b);
    let pb = pow(10, b);
    assert(c * pb >= pb) by (nonlinear_arith)
        requires
            c >= 1,
            pb >= 0,
    ;
}

/// The digits of `value(s) / dv` (as many as `s` has) and the remainder.
fn div_small(s: &[char], dv: u32) -> (res: (Vec<char>, u32))
    requires
        all_digits(s@),
        2 <= dv <= 10,
    ensures
        all_digits(res.0@),
        res.1 < dv,
        digits_value(s@) == dv * digits_value(res.0@) + res.1,
{
    let mut q: Vec<char> = Vec::new();
    let mut rem: u32 = 0;
    let mut i: usize = 0;
    assert(s@.take(0) =~= Seq::<char>::empty());
    while i < s.len()
        invariant
            i <= s.len(),
            all_digits(s@),
            2 <= dv <= 10,
            rem < dv,
            all_digits(q@),
            digits_value(s@.take(i as int)) == dv * digits_value(q@) + rem,
        decreases s.len() - i,
    {
        assert(is_digit(s@[i as int]));
        let dig: u32 = (s[i] as u32) - ('0' as u32);
        let cur: u32 = rem * 10 + dig;
        let qd: u32 = cur / dv;
        let r2: u32 = cur % dv;
        proof {
            vstd::arithmetic::div_mod::lemma_fundamental_div_mod(cur as int, dv as int);
            assert(qd < 10) by (nonlinear_arith)
                requires
                    cur == dv * qd + r2,
                    r2 >= 0,
                    cur < 10 * dv,
                    dv > 0,
            ;
            lemma_digit_char(qd as nat);
            assert(s@.take(i + 1).drop_last() =~= s@.take(i as int));
        }
        let ghost old_q = q@;
        let ghost old_rem = rem;
        q.push(((qd as u8) + 48) as char);
        proof {
            assert(q@.drop_last() =~= old_q);
            assert(digit_value(q@.last()) == qd);
            let qv = digits_value(old_q);
            assert(digits_value(s@.take(i + 1)) == digits_value(s@.take(i as int)) * 10 + dig);
            assert((dv * qv + old_rem) * 10 + dig == dv * (qv * 10 + qd) + r2) by (nonlinear_arith)
                requires
                    cur == old_rem * 10 + dig,
                    cur == dv * qd + r2,
            ;
            assert forall|k: int| 0 <= k < q@.len() implies is_digit(#[trigger] q@[k]) by {
                if k < old_q.len() {
                    assert(q@[k] == old_q[k]);
                }
            }
        }
        rem = r2;
        i += 1;
    }
    assert(s@.take(s.len() as int) =~= s@);
    (q, rem)
}

proof fn lemma_divide_step(x: nat, pp: nat, rr: nat, v: nat, dv: nat, q2: nat, r: nat)
    requires
        pp >= 1,
        rr < pp,
        x == pp * v + rr,
        v == dv * q2 + r,
        r < dv,
    ensures
        x == (pp * dv) * q2 + (pp * r + rr),
        pp * r + rr < pp * dv,
        (pp * r + rr == 0) == (r == 0 && rr == 0),
{
    assert(x == (pp * dv) * q2 + (pp * r + rr)) by (nonlinear_arith)
        requires
            x == pp * v + rr,
            v == dv * q2 + r,
    ;
    assert(pp * r + rr < pp * dv) by (nonlinear_arith)
        requires
            pp >= 1,
            rr < pp,
            r < dv,
            r + 1 <= dv,
    ;
    assert((pp * r + rr == 0) == (r == 0 && rr == 0)) by (nonlinear_arith)
        requires
            pp >= 1,
    ;
}

/// `value(s) / (10^tens · 5^fives)`, and whether the division is exact.
#[verifier::spinoff_prover]
fn floor_divide(s: &[char], tens: u64, fives: u32) -> (res: (Vec<char>, bool))
    requires
        all_digits(s@),
    ensures
        all_digits(res.0@),
        ({
            let p = (pow(10, tens as nat) * pow(5, fives as nat)) as nat;
            &&& p > 0
            &&& digits_value(res.0@) == digits_value(s@) / p
            &&& res.1 == (digits_value(s@) % p == 0)
        }),
{
    let ghost x = digits_value(s@);
    let mut q = slice_vec(s, 0, s.len());
    assert(q@ =~= s@);
    let mut exact = true;
    let ghost mut pp: nat = 1;
    let ghost mut rr: nat = 0;
    proof {
        reveal(pow);
        assert(pow(10, 0) == 1);
    }
    let mut live = any_nonzero_from(q.as_slice(), 0);
    let mut j: u64 = 0;
    while j < tens && live
        invariant
            all_digits(q@),
            j <= tens,
            pp == pow(10, j as nat),
            pp >= 1,
            x == pp * digits_value(q@) + rr,
            rr < pp,
            exact == (rr == 0),
            live == has_fraction(q@, 0),
        decreases tens - j,
    {
        let (q2, r) = div_small(q.as_slice(), 10);
        proof {
            lemma_divide_step(x, pp, rr, digits_value(q@), 10, digits_value(q2@), r as nat);
            reveal(pow);
            assert(pow(10, (j + 1) as nat) == 10 * pow(10, j as nat));
            rr = pp * (r as nat) + rr;
            pp = pp * 10;
        }
        exact = exact && r == 0;
        q = q2;
        live = any_nonzero_from(q.as_slice(), 0);
        j += 1;
    }
    proof {
        if j < tens {
            assert(!nonzero_digits(q@)) by {
                if nonzero_digits(q@) {
                    let i = choose|i: int| 0 <= i < q@.len() && q@[i] != '0';
                    assert(0 <= i < q@.len() && 0 <= i && q@[i] != '0');
                    assert(has_fraction(q@, 0));
                }
            }
            lemma_zero_digits(q@);
            assert(digits_value(q@) == 0);
            vstd::arithmetic::power::lemma_pow_increases(10, j as nat, tens as nat);
            pp = pow(10, tens as nat) as nat;
            assert(x == pp * digits_value(q@) + rr);
        }
        vstd::arithmetic::power::lemma_pow_positive(10, tens as nat);
        assert(pp == pow(10, tens as nat));
        assert(pp * pow(5, 0) == pp) by {
            reveal(pow);
        }
    }
    let mut i: u32 = 0;
    while i < fives
        invariant
            all_digits(q@),
            i <= fives,
            pp == pow(10, tens as nat) * pow(5, i as nat),
            pp >= 1,
            x == pp * digits_value(q@) + rr,
            rr < pp,
            exact == (rr == 0),
        decreases fives - i,
    {
        let (q2, r) = div_small(q.as_slice(), 5);
        proof {
            lemma_divide_step(x, pp, rr, digits_value(q@), 5, digits_value(q2@), r as nat);
            reveal(pow);
            let t = pow(10, tens as nat);
            let a = pow(5, i as nat);
            assert(pow(5, (i + 1) as nat) == 5 * a);
            assert(t * (5 * a) == (t * a) * 5) by (nonlinear_arith);
            rr = pp * (r as nat) + rr;
            pp = pp * 5;
        }
        exact = exact && r == 0;
        q = q2;
        i += 1;
    }
    proof {
        vstd::arithmetic::div_mod::lemma_fundamental_div_mod_converse(
            x as int,
            pp as int,
            digits_value(q@) as int,
            rr as int,
        );
    }
    (q, exact)
}

/// Decides `value(digits) · 10^e ≤ m · 5^fives · 10^f`.
#[verifier::spinoff_prover]
fn scaled_le_exec(digits: &[char], e: i64, m: u64, fives: u32, f: i64) -> (r: bool)
    requires
        all_digits(digits@),
        1 <= m,
        fives <= 2000,
        -0x2000_0000_0000 <= e <= 0x2000_0000_0000,
        -0x2000_0000_0000 <= f <= 0x2000_0000_0000,
    ensures
        r == scaled_le(digits_value(digits@), e as int, (m * pow(5, fives as nat)) as nat, f as int),
{
    let ghost d = digits_value(digits@);
    proof {
        vstd::arithmetic::power::lemma_pow_positive(5, fives as nat);
    }
    let ghost c: nat = (m * pow(5, fives as nat)) as nat;
    if e <= f {
        let b: u64 = (f - e) as u64;
        let (q, exact) = floor_divide(digits, b, fives);
        let v = sat_digits_value(q.as_slice(), m as u128 + 1);
        proof {
            vstd::arithmetic::power::lemma_pow_positive(10, b as nat);
            let p = (pow(10, b as nat) * pow(5, fives as nat)) as nat;
            assert(pow(10, b as nat) * pow(5, fives as nat) > 0) by (nonlinear_arith)
                requires
                    pow(10, b as nat) > 0,
                    pow(5, fives as nat) > 0,
            ;
            lemma_le_by_quotient(d, p, m as nat);
            let t = pow(10, b as nat);
            let fv = pow(5, fives as nat);
            assert(c * t == m * p) by (nonlinear_arith)
                requires
                    c == m * fv,
                    p == t * fv,
            ;
        }
        v < m as u128 || (v == m as u128 && exact)
    } else {
        let a: u64 = (e - f) as u64;
        if !any_nonzero_from(digits, 0) {
            proof {
                assert(!nonzero_digits(digits@)) by {
                    if nonzero_digits(digits@) {
                        let i = choose|i: int| 0 <= i < digits@.len() && digits@[i] != '0';
                        assert(0 <= i < digits@.len() && 0 <= i && digits@[i] != '0');
                        assert(has_fraction(digits@, 0));
                    }
                }
                lemma_zero_digits(digits@);
                assert(0 * (pow(10, a as nat) as nat) == 0);
            }
            return true;
        }
        if a >= fives as u64 + 20 {
            proof {
                assert(nonzero_digits(digits@)) by {
                let i = choose|i: int| 0 <= i < digits@.len() && 0 <= i && digits@[i] != '0';
                assert(0 <= i < digits@.len() && digits@[i] != '0');
            }
                lemma_nonzero_digits(digits@);
                lemma_high(d, e as int, m as nat, fives as nat, f as int);
            }
            return false;
        }
        let mut padded = slice_vec(digits, 0, digits.len());
        let mut k: u64 = 0;
        proof {
            reveal(pow);
            assert(padded@ =~= digits@);
            assert(pow(10, 0) == 1);
            assert((pow(10, 0) as nat) == 1nat);
            assert(d * 1nat == d);
        }
        while k < a
            invariant
                k <= a,
                all_digits(padded@),
                digits_value(padded@) == d * (pow(10, k as nat) as nat),
            decreases a - k,
        {
            let ghost before = padded@;
            padded.push('0');
            proof {
                assert(padded@.drop_last() =~= before);
                assert(padded@.last() == '0');
                assert(digit_value('0') == 0);
                assert(digits_value(padded@) == digits_value(before) * 10);
                reveal(pow);
                vstd::arithmetic::power::lemma_pow_positive(10, k as nat);
                let pk = pow(10, k as nat);
                assert(pow(10, (k + 1) as nat) == 10 * pk);
                assert((d * (pk as nat)) * 10 == d * ((10 * pk) as nat)) by (nonlinear_arith)
                    requires
                        pk > 0,
                ;
                assert(digits_value(padded@) == d * (pow(10, (k + 1) as nat) as nat));
                assert forall|i: int| 0 <= i < padded@.len() implies is_digit(#[trigger] padded@[i]) by {
                    if i < before.len() {
                        assert(padded@[i] == before[i]);
                    }
                }
            }
            k += 1;
        }
        let (q, exact) = floor_divide(padded.as_slice(), 0, fives);
        let v = sat_digits_value(q.as_slice(), m as u128 + 1);
        proof {
            reveal(pow);
            let fv = pow(5, fives as nat);
            assert(pow(10, 0) == 1);
            let p = (pow(10, 0) * fv) as nat;
            assert(p == fv);
            lemma_le_by_quotient(digits_value(padded@), p, m as nat);
        }
        v < m as u128 || (v == m as u128 && exact)
    }
}

proof fn lemma_two_34()
    ensures
        pow(2, 34) == 17179869184,
{
    reveal(pow);
    assert(pow(2, 1) == 2) by {
        reveal_with_fuel(pow, 2);
    }
    vstd::arithmetic::power::lemma_pow_adds(2, 1, 1);
    assert(pow(2, 2) == 4);
    vstd::arithmetic::power::lemma_pow_adds(2, 2, 2);
    assert(pow(2, 4) == 16);
    vstd::arithmetic::power::lemma_pow_adds(2, 4, 4);
    assert(pow(2, 8) == 256);
    vstd::arithmetic::power::lemma_pow_adds(2, 8, 8);
    assert(pow(2, 16) == 65536);
    vstd::arithmetic::power::lemma_pow_adds(2, 16, 16);
    assert(pow(2, 32) == 4294967296);
    vstd::arithmetic::power::lemma_pow_adds(2, 32, 2);
}

/// Decides the rule for the digits and exponent of a literal.
fn decide(digits: &[char], e: i64, negative: bool) -> (r: bool)
    requires
        all_digits(digits@),
        -0x2000_0000_0000 <= e <= 0x2000_0000_0000,
    ensures
        r == (if negative {
            rounds_to_zero(digits_value(digits@), e as int)
        } else {
            rounds_to_at_most_a_million(digits_value(digits@), e as int)
        }),
{
    if negative {
        proof {
            assert(1 * pow(5, 1075) == pow(5, 1075));
        }
        scaled_le_exec(digits, e, 1, 1075, -1075)
    } else {
        proof {
            lemma_two_34();
            assert((pow(2, 34) * 1_000_000 + 1) == 17179869184000001);
        }
        scaled_le_exec(digits, e, 17179869184000001, 34, -34)
    }
}

/// Whether the `f64` that `str::parse` reads from `s` is finite and within
/// `0..=1_000_000` (see `free_space_number_spec`), `None` when `s` is no
/// float literal.  Only the setting checks call it, after they have found
/// the value to be a single line of at most 2048 bytes, so the text is
/// never longer than 4096 characters; that bound keeps the decimal point's
/// position within `i64`.
#[verifier::spinoff_prover]
pub(crate) fn free_space_number(s: &str) -> (r: Option<bool>)
    requires
        s@.len() <= 4096,
    ensures
        r == free_space_number_spec(s@),
{
    let v = chars_of(s);
    let negative = v.len() > 0 && v[0] == '-';
    let start: usize = if v.len() > 0 && (v[0] == '+' || v[0] == '-') {
        1
    } else {
        0
    };
    let body = slice_vec(v.as_slice(), start, v.len());
    assert(body@ =~= (if s@.len() > 0 && (s@[0] == '+' || s@[0] == '-') {
        s@.drop_first()
    } else {
        s@
    }));
    let l = lower_chars(body.as_slice());
    let inf = chars_of("inf");
    let infinity = chars_of("infinity");
    let nan = chars_of("nan");
    proof {
        reveal_strlit("inf");
        reveal_strlit("infinity");
        reveal_strlit("nan");
        assert(inf@ =~= seq!['i', 'n', 'f']);
        assert(infinity@ =~= seq!['i', 'n', 'f', 'i', 'n', 'i', 't', 'y']);
        assert(nan@ =~= seq!['n', 'a', 'n']);
    }
    if chars_eq(l.as_slice(), inf.as_slice()) || chars_eq(l.as_slice(), infinity.as_slice())
        || chars_eq(l.as_slice(), nan.as_slice()) {
        return Some(false);
    }
    let parsed = parse_numeral(body.as_slice());
    match parsed {
        None => None,
        Some((digits, point)) => {
            let e: i64 = point - digits.len() as i64;
            let r = decide(digits.as_slice(), e, negative);
            proof {
                let p = numeral(body@).unwrap().1;
                let d = digits_value(digits@);
                let n = digits@.len();
                let et = p - n;
                if point as int != p {
                    let c: nat = if negative {
                        pow(5, 1075) as nat
                    } else {
                        ((pow(2, 34) * 1_000_000 + 1) * pow(5, 34)) as nat
                    };
                    let f: int = if negative { -1075 } else { -34 };
                    let k: nat = if negative { 1075 } else { 34 };
                    lemma_two_34();
                    vstd::arithmetic::power::lemma_pow_positive(5, k);
                    assert(c == (if negative { 1nat } else { 17179869184000001nat }) * (pow(5, k) as nat));
                    if point >= 0x80_0000_0000 {
                        if nonzero_digits(digits@) {
                            lemma_nonzero_digits(digits@);
                            let m: nat = if negative { 1nat } else { 17179869184000001nat };
                            lemma_high(d, e as int, m, k, f);
                            lemma_high(d, et, m, k, f);
                        } else {
                            lemma_zero_digits(digits@);
                            assert(0 * (pow(10, (e - f) as nat) as nat) == 0);
                            assert(0 * (pow(10, (et - f) as nat) as nat) == 0);
                        }
                    } else {
                        lemma_digits_below(digits@);
                        assert(c >= 1) by (nonlinear_arith)
                            requires
                                c == (if negative { 1nat } else { 17179869184000001nat }) * (pow(5, k) as nat),
                                pow(5, k) >= 1,
                        ;
                        lemma_low(d, n, e as int, c, f);
                        lemma_low(d, n, et, c, f);
                    }
                }
            }
            Some(r)
        },
    }
}

fn parse_numeral(body: &[char]) -> (r: Option<(Vec<char>, i64)>)
    requires
        body.len() <= 4096,
    ensures
        match numeral(body@) {
            None => r.is_none(),
            Some((d, p)) => r.is_some() && r.unwrap().0@ == d && all_digits(d) && d.len() <= 4096
                && same_decision(r.unwrap().1 as int, p) && -0x100_0000_1000 <= r.unwrap().1
                <= 0x100_0000_1000,
        },
{
    let e = find_exp_mark(body);
    let mant = slice_vec(body, 0, e);
    assert(mant@ =~= body@.take(e as int));
    let exp = if e < body.len() {
        let t = slice_vec(body, e + 1, body.len());
        assert(t@ =~= body@.skip(e + 1));
        exponent_clamped(t.as_slice())
    } else {
        Some(0i64)
    };
    let dot = find_dot(mant.as_slice());
    let ip = slice_vec(mant.as_slice(), 0, dot);
    assert(ip@ =~= mant@.take(dot as int));
    let fp = if dot < mant.len() {
        let f = slice_vec(mant.as_slice(), dot + 1, mant.len());
        assert(f@ =~= mant@.skip(dot + 1));
        f
    } else {
        let f: Vec<char> = Vec::new();
        assert(f@ =~= Seq::<char>::empty());
        f
    };
    if !(digit_chars(ip.as_slice()) && digit_chars(fp.as_slice()) && ip.len() + fp.len() > 0) {
        return None;
    }
    let x = match exp {
        None => {
            return None;
        },
        Some(x) => x,
    };
    let mut digits: Vec<char> = Vec::new();
    push_chars(&mut digits, ip.as_slice());
    push_chars(&mut digits, fp.as_slice());
    assert(digits@ =~= ip@ + fp@);
    assert(all_digits(digits@)) by {
        assert forall|k: int| 0 <= k < digits@.len() implies is_digit(#[trigger] digits@[k]) by {
            if k < ip@.len() {
                assert(is_digit(ip@[k]));
            } else {
                assert(is_digit(fp@[k - ip@.len()]));
            }
        }
    }
    let point: i64 = ip.len() as i64 + x;
    Some((digits, point))
}

} // verus!
