//! Whole seconds of a number written as Rust's `f64` parser reads it.

use vstd::prelude::*;
use vstd::arithmetic::div_mod::{lemma_div_denominator, lemma_fundamental_div_mod_converse};
use crate::text::{
    all_digits, chars_of, decimal_value, digit, digits_value, is_digit, lemma_digits_value_nonneg,
    next_char, position_from, slice,
};

verus! {

/// Ten to the power `n`.
pub open spec fn pow10(n: nat) -> int
    decreases n,
{
    if n == 0 {
        1
    } else {
        10 * pow10((n - 1) as nat)
    }
}

/// The number that the digits `m` denote, times ten to the power `k`,
/// truncated toward zero.
pub open spec fn shifted(m: Seq<char>, k: int) -> int {
    if k >= 0 {
        digits_value(m) * pow10(k as nat)
    } else {
        digits_value(m) / pow10((-k) as nat)
    }
}

/// `x` clamped to the range of `u64`.
pub open spec fn clamp_u64(x: int) -> u64 {
    if x > u64::MAX {
        u64::MAX
    } else if x < 0 {
        0
    } else {
        x as u64
    }
}

/// `s` spells the lower-case `word`, each letter in either case.
pub open spec fn spells(s: Seq<char>, word: Seq<char>) -> bool {
    &&& s.len() == word.len()
    &&& forall|i: int|
        0 <= i < s.len() ==> (s[i] == word[i] || s[i] as u32 + 32 == word[i] as u32)
}

/// The first position at or after `i` that holds `e` or `E`, or the length of `u`.
pub open spec fn exp_start(u: Seq<char>, i: int) -> int
    decreases u.len() - i,
{
    if i < 0 || i >= u.len() {
        u.len() as int
    } else if u[i] == 'e' || u[i] == 'E' {
        i
    } else {
        exp_start(u, i + 1)
    }
}

/// Whole seconds of `tok` read as a floating-point number: an optional sign,
/// then `inf` or `infinity` in either case, or digits with an optional
/// fraction after a `.` (at least one digit in all) and an optional exponent
/// (`e` or `E`, an optional sign, digits). The value is truncated toward zero
/// and clamped to the range of `u64`: negative values give 0, infinity gives
/// `u64::MAX`, and anything else (`nan` among them) gives 0.
pub open spec fn seconds_of(tok: Seq<char>) -> u64 {
    let signed = tok.len() > 0 && (tok[0] == '+' || tok[0] == '-');
    let neg = signed && tok[0] == '-';
    let u = if signed { tok.drop_first() } else { tok };
    if spells(u, "inf"@) || spells(u, "infinity"@) {
        if neg { 0 } else { u64::MAX }
    } else {
        let q = exp_start(u, 0);
        let mant = u.subrange(0, q);
        let ex = if q < u.len() {
            decimal_value(u.subrange(q + 1, u.len() as int))
        } else {
            Some(0int)
        };
        let p = next_char(mant, '.', 0);
        let ip = mant.subrange(0, p);
        let fp = if p < mant.len() { mant.subrange(p + 1, mant.len() as int) } else { Seq::empty() };
        if all_digits(ip) && all_digits(fp) && ip.len() + fp.len() > 0 && ex is Some && !neg {
            clamp_u64(shifted(ip + fp, ex->0 - fp.len()))
        } else {
            0
        }
    }
}

proof fn lemma_pow10_mono(a: nat, b: nat)
    requires
        a <= b,
    ensures
        1 <= pow10(a) <= pow10(b),
    decreases b,
{
    if b > 0 {
        if a < b {
            lemma_pow10_mono(a, (b - 1) as nat);
        } else {
            lemma_pow10_mono((a - 1) as nat, (b - 1) as nat);
        }
    }
}

proof fn lemma_pow10_large(n: nat)
    requires
        n >= 20,
    ensures
        pow10(n) > u64::MAX,
{
    reveal_with_fuel(pow10, 21);
    assert(pow10(20) == 100000000000000000000int);
    lemma_pow10_mono(20, n);
}

proof fn lemma_digits_below(m: Seq<char>)
    requires
        all_digits(m),
    ensures
        0 <= digits_value(m) < pow10(m.len()),
    decreases m.len(),
{
    lemma_digits_value_nonneg(m);
    if m.len() > 0 {
        let p = m.drop_last();
        assert(all_digits(p)) by {
            assert forall|i: int| 0 <= i < p.len() implies is_digit(#[trigger] p[i]) by {
                assert(p[i] == m[i]);
            }
        }
        lemma_digits_below(p);
        assert(is_digit(m[m.len() - 1]));
        assert(digits_value(m) < pow10(m.len())) by (nonlinear_arith)
            requires
                digits_value(m) == digits_value(p) * 10 + (m.last() as int - '0' as int),
                0 <= m.last() as int - '0' as int <= 9,
                digits_value(p) < pow10(p.len()),
                digits_value(p) + 1 <= pow10(p.len()),
                pow10(m.len()) == 10 * pow10(p.len()),
        ;
    }
}

proof fn lemma_div_prefix(m: Seq<char>, j: nat)
    requires
        all_digits(m),
        j <= m.len(),
    ensures
        digits_value(m) / pow10(j) == digits_value(m.take(m.len() - j)),
    decreases j,
{
    if j == 0 {
        assert(m.take(m.len() as int) =~= m);
    } else {
        let p = m.drop_last();
        assert(all_digits(p)) by {
            assert forall|i: int| 0 <= i < p.len() implies is_digit(#[trigger] p[i]) by {
                assert(p[i] == m[i]);
            }
        }
        lemma_div_prefix(p, (j - 1) as nat);
        assert(p.take(p.len() - (j - 1)) =~= m.take(m.len() - j));
        lemma_digits_value_nonneg(m);
        lemma_digits_value_nonneg(p);
        lemma_pow10_mono(0, (j - 1) as nat);
        assert(is_digit(m[m.len() - 1]));
        lemma_fundamental_div_mod_converse(
            digits_value(m),
            10,
            digits_value(p),
            m.last() as int - '0' as int,
        );
        lemma_div_denominator(digits_value(m), 10, pow10((j - 1) as nat));
    }
}

proof fn lemma_small_shift_vanishes(m: Seq<char>, j: nat)
    requires
        all_digits(m),
        j >= m.len(),
    ensures
        digits_value(m) / pow10(j) == 0,
{
    lemma_digits_below(m);
    lemma_pow10_mono(m.len(), j);
    lemma_fundamental_div_mod_converse(digits_value(m), pow10(j), 0, digits_value(m));
}

proof fn lemma_large_shift_saturates(m: Seq<char>, k1: nat, k2: nat)
    requires
        all_digits(m),
        20 <= k1 <= k2,
    ensures
        clamp_u64(digits_value(m) * pow10(k1)) == clamp_u64(digits_value(m) * pow10(k2)),
{
    lemma_digits_value_nonneg(m);
    lemma_pow10_large(k1);
    lemma_pow10_mono(k1, k2);
    let v = digits_value(m);
    if v > 0 {
        assert(v * pow10(k1) >= pow10(k1)) by (nonlinear_arith)
            requires
                v >= 1,
                pow10(k1) >= 1,
        ;
        assert(v * pow10(k2) >= pow10(k1)) by (nonlinear_arith)
            requires
                v >= 1,
                pow10(k1) >= 1,
                pow10(k2) >= pow10(k1),
        ;
    } else {
        assert(v * pow10(k1) == 0 && v * pow10(k2) == 0) by (nonlinear_arith)
            requires
                v == 0,
        ;
    }
}

/// The number that the digits `v` denote, or `cap` if that is more.
pub fn digits_capped(v: &Vec<char>, cap: u128) -> (r: u128)
    requires
        all_digits(v@),
        cap <= 0x10000000000000000000000000u128,
    ensures
        r == (if digits_value(v@) > cap { cap as int } else { digits_value(v@) }),
{
    let mut acc: u128 = 0;
    let mut over = false;
    let mut k: usize = 0;
    while k < v.len()
        invariant
            k <= v.len(),
            all_digits(v@),
            cap <= 0x10000000000000000000000000u128,
            !over ==> acc as int == digits_value(v@.subrange(0, k as int)) && acc <= cap,
            over ==> digits_value(v@.subrange(0, k as int)) > cap,
        decreases v.len() - k,
    {
        let ghost p = v@.subrange(0, k as int);
        let ghost q = v@.subrange(0, k + 1);
        assert(q.drop_last() =~= p);
        assert(all_digits(p));
        proof {
            lemma_digits_value_nonneg(p);
        }
        assert(is_digit(v@[k as int]));
        if !over {
            let d = (v[k] as u32 - '0' as u32) as u128;
            let next = acc * 10 + d;
            if next > cap {
                over = true;
            } else {
                acc = next;
            }
        }
        k = k + 1;
    }
    assert(v@.subrange(0, v.len() as int) =~= v@);
    if over { cap } else { acc }
}

/// Whether every character of `v` is a digit.
fn digits_only(v: &Vec<char>) -> (r: bool)
    ensures
        r == all_digits(v@),
{
    let mut k: usize = 0;
    while k < v.len()
        invariant
            k <= v.len(),
            forall|j: int| 0 <= j < k ==> is_digit(#[trigger] v@[j]),
        decreases v.len() - k,
    {
        if !digit(v[k]) {
            return false;
        }
        k = k + 1;
    }
    true
}

/// Whether `s` spells the lower-case `word`, each letter in either case.
fn spells_word(s: &Vec<char>, word: &str) -> (r: bool)
    ensures
        r == spells(s@, word@),
{
    let w = chars_of(word);
    if s.len() != w.len() {
        return false;
    }
    let mut i: usize = 0;
    while i < s.len()
        invariant
            i <= s.len() == w.len(),
            w@ == word@,
            forall|j: int| 0 <= j < i ==> (s@[j] == w@[j] || s@[j] as u32 + 32 == w@[j] as u32),
        decreases s.len() - i,
    {
        let c = s[i];
        if !(c == w[i] || (c as u32) as u64 + 32 == (w[i] as u32) as u64) {
            return false;
        }
        i = i + 1;
    }
    true
}

/// The first position that holds `e` or `E`, or the length of `u`.
fn exp_position(u: &Vec<char>) -> (r: usize)
    ensures
        r as int == exp_start(u@, 0),
        r <= u.len(),
{
    let mut k: usize = 0;
    while k < u.len()
        invariant
            k <= u.len(),
            exp_start(u@, k as int) == exp_start(u@, 0),
        decreases u.len() - k,
    {
        if u[k] == 'e' || u[k] == 'E' {
            return k;
        }
        k = k + 1;
    }
    k
}

/// `a` followed by `b`.
fn joined(a: &Vec<char>, b: &Vec<char>) -> (r: Vec<char>)
    ensures
        r@ == a@ + b@,
{
    let mut r = slice(a, 0, a.len());
    assert(r@ =~= a@);
    let mut i: usize = 0;
    while i < b.len()
        invariant
            i <= b.len(),
            r@ == a@ + b@.subrange(0, i as int),
        decreases b.len() - i,
    {
        r.push(b[i]);
        i = i + 1;
        assert(r@ =~= a@ + b@.subrange(0, i as int));
    }
    assert(b@.subrange(0, b.len() as int) =~= b@);
    r
}

/// `m` times ten to the power `k`, clamped to the range of `u64`.
fn scaled_up(m: &Vec<char>, k: u128) -> (r: u64)
    requires
        all_digits(m@),
    ensures
        r == clamp_u64(digits_value(m@) * pow10(k as nat)),
{
    let mut acc: u64 = digits_capped(m, u64::MAX as u128) as u64;
    let ghost v = digits_value(m@);
    proof {
        lemma_digits_value_nonneg(m@);
    }
    assert(acc == clamp_u64(v * pow10(0)));
    let mut i: u128 = 0;
    while i < k
        invariant
            i <= k,
            v >= 0,
            v == digits_value(m@),
            acc == clamp_u64(v * pow10(i as nat)),
        decreases k - i,
    {
        let ghost x = v * pow10(i as nat);
        proof {
            lemma_pow10_mono(0, i as nat);
            assert(x >= 0) by (nonlinear_arith)
                requires
                    v >= 0,
                    pow10(i as nat) >= 1,
                    x == v * pow10(i as nat),
            ;
            assert(v * pow10((i + 1) as nat) == x * 10) by (nonlinear_arith)
                requires
                    pow10((i + 1) as nat) == 10 * pow10(i as nat),
                    x == v * pow10(i as nat),
            ;
        }
        if acc > u64::MAX / 10 {
            acc = u64::MAX;
        } else {
            acc = acc * 10;
        }
        i = i + 1;
    }
    acc
}

/// Whole seconds of `tok`, as `seconds_of` describes them.
pub fn seconds(tok: &Vec<char>) -> (r: u64)
    ensures
        r == seconds_of(tok@),
{
    let n = tok.len();
    let signed = n > 0 && (tok[0] == '+' || tok[0] == '-');
    let neg = signed && tok[0] == '-';
    let u = if signed {
        let u = slice(tok, 1, n);
        assert(u@ =~= tok@.drop_first());
        u
    } else {
        let u = slice(tok, 0, n);
        assert(u@ =~= tok@);
        u
    };
    if spells_word(&u, "inf") || spells_word(&u, "infinity") {
        return if neg { 0 } else { u64::MAX };
    }
    let q = exp_position(&u);
    let mant = slice(&u, 0, q);
    let p = position_from(&mant, '.', 0);
    let ip = slice(&mant, 0, p);
    let fp = if p < mant.len() {
        slice(&mant, p + 1, mant.len())
    } else {
        Vec::new()
    };
    assert(fp@ =~= (if p < mant.len() {
        mant@.subrange(p + 1, mant.len() as int)
    } else {
        Seq::empty()
    }));
    if !digits_only(&ip) || !digits_only(&fp) || ip.len() + fp.len() == 0 || neg {
        return 0;
    }
    let m = joined(&ip, &fp);
    assert(all_digits(m@)) by {
        assert forall|i: int| 0 <= i < m@.len() implies is_digit(#[trigger] m@[i]) by {
            if i < ip.len() {
                assert(m@[i] == ip@[i]);
            } else {
                assert(m@[i] == fp@[i - ip.len()]);
            }
        }
    }
    let cap: u128 = m.len() as u128 + 40;
    let mut e_neg = false;
    let mut e_mag: u128 = 0;
    let ghost ex: int = 0;
    if q < u.len() {
        let x = slice(&u, q + 1, u.len());
        let xs_start: usize = if x.len() > 0 && (x[0] == '+' || x[0] == '-') { 1 } else { 0 };
        let xs = slice(&x, xs_start, x.len());
        proof {
            if xs_start == 1 {
                assert(xs@ =~= x@.drop_first());
            } else {
                assert(xs@ =~= x@);
            }
        }
        if xs.len() == 0 || !digits_only(&xs) {
            return 0;
        }
        e_neg = xs_start == 1 && x[0] == '-';
        e_mag = digits_capped(&xs, cap);
        proof {
            lemma_digits_value_nonneg(xs@);
            ex = if e_neg { -digits_value(xs@) } else { digits_value(xs@) };
            assert(decimal_value(x@) == Some(ex));
        }
    }
    assert(seconds_of(tok@) == clamp_u64(shifted(m@, ex - fp.len())));
    shifted_clamped(&m, fp.len() as u128, e_neg, e_mag, Ghost(ex))
}

/// `m` shifted by the exponent `e` less `f`, clamped to the range of `u64`,
/// where `e` is given by its sign and its magnitude capped at `m.len() + 40`.
#[verifier::rlimit(30)]
fn shifted_clamped(m: &Vec<char>, f: u128, e_neg: bool, e_mag: u128, e: Ghost<int>) -> (r: u64)
    requires
        all_digits(m@),
        f <= m.len(),
        e_mag <= m.len() + 40,
        e_mag < m.len() + 40 ==> e@ == (if e_neg { -(e_mag as int) } else { e_mag as int }),
        e_mag == m.len() + 40 ==> (if e_neg { e@ <= -(e_mag as int) } else { e@ >= e_mag }),
    ensures
        r == clamp_u64(shifted(m@, e@ - f)),
{
    let ghost k = e@ - f;
    let e_nonneg = !e_neg || e_mag == 0;
    if e_nonneg && e_mag >= f {
        let kc = e_mag - f;
        let r = scaled_up(m, kc);
        proof {
            if e_mag == m.len() + 40 {
                assert(k >= kc);
                lemma_large_shift_saturates(m@, kc as nat, k as nat);
            } else {
                assert(k == kc);
            }
            assert(shifted(m@, k) == digits_value(m@) * pow10(k as nat));
        }
        r
    } else {
        let jc: u128 = if e_nonneg { f - e_mag } else { e_mag + f };
        assert(k <= -(jc as int));
        assert(e_mag < m.len() + 40 ==> k == -(jc as int));
        assert(shifted(m@, k) == digits_value(m@) / pow10((-k) as nat));
        if jc >= m.len() as u128 {
            proof {
                lemma_small_shift_vanishes(m@, (-k) as nat);
            }
            0
        } else {
            let keep = m.len() - jc as usize;
            let head = slice(m, 0, keep);
            proof {
                assert(k == -(jc as int));
                lemma_div_prefix(m@, jc as nat);
                assert(head@ == m@.take(keep as int));
                assert(all_digits(head@));
                lemma_digits_value_nonneg(head@);
            }
            digits_capped(&head, u64::MAX as u128) as u64
        }
    }
}

} // verus!
