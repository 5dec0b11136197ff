//! Character-level helpers over the views of strings: searching, trimming,
//! splitting into lines and reading decimal integers.

use vstd::prelude::*;

verus! {

/// ASCII decimal digit.
pub open spec fn is_digit(c: char) -> bool {
    '0' <= c && c <= '9'
}

/// Every character of `s` is a digit.
pub open spec fn all_digits(s: Seq<char>) -> bool {
    forall|i: int| 0 <= i < s.len() ==> is_digit(#[trigger] s[i])
}

/// White space as `char::is_whitespace` defines it (the Unicode `White_Space` property).
pub open spec fn is_space(c: char) -> bool {
    ||| ('\t' <= c && c <= '\r')
    ||| c == ' '
    ||| c == '\u{85}'
    ||| c == '\u{A0}'
    ||| c == '\u{1680}'
    ||| ('\u{2000}' <= c && c <= '\u{200A}')
    ||| c == '\u{2028}'
    ||| c == '\u{2029}'
    ||| c == '\u{202F}'
    ||| c == '\u{205F}'
    ||| c == '\u{3000}'
}

/// The first position at or after `i` where `pat` occurs in `s`.
pub open spec fn find_from(s: Seq<char>, pat: Seq<char>, i: int) -> Option<int>
    decreases s.len() + 1 - i,
{
    if i < 0 || i > s.len() || i + pat.len() > s.len() {
        None
    } else if s.subrange(i, i + pat.len()) == pat {
        Some(i)
    } else {
        find_from(s, pat, i + 1)
    }
}

/// `pat` occurs somewhere in `s`.
pub open spec fn occurs(s: Seq<char>, pat: Seq<char>) -> bool {
    find_from(s, pat, 0) is Some
}

/// `s` begins with `pat`.
pub open spec fn begins(s: Seq<char>, pat: Seq<char>) -> bool {
    pat.len() <= s.len() && s.subrange(0, pat.len() as int) == pat
}

/// The first position at or after `i` that holds `c`, or the length of `s`.
pub open spec fn next_char(s: Seq<char>, c: char, i: int) -> int
    decreases s.len() - i,
{
    if i < 0 || i >= s.len() {
        s.len() as int
    } else if s[i] == c {
        i
    } else {
        next_char(s, c, i + 1)
    }
}

/// `s` without its leading white space.
pub open spec fn trim_start(s: Seq<char>) -> Seq<char>
    decreases s.len(),
{
    if s.len() > 0 && is_space(s[0]) {
        trim_start(s.drop_first())
    } else {
        s
    }
}

/// `s` without its trailing white space.
pub open spec fn trim_end(s: Seq<char>) -> Seq<char>
    decreases s.len(),
{
    if s.len() > 0 && is_space(s.last()) {
        trim_end(s.drop_last())
    } else {
        s
    }
}

/// `s` without leading or trailing white space.
pub open spec fn trim(s: Seq<char>) -> Seq<char> {
    trim_end(trim_start(s))
}

/// A line whose terminating `'\n'` was preceded by `'\r'` loses the `'\r'`.
pub open spec fn strip_cr(l: Seq<char>) -> Seq<char> {
    if l.len() > 0 && l.last() == '\r' {
        l.drop_last()
    } else {
        l
    }
}

/// The lines of `s` from position `i` on, the current line having begun at `start`.
pub open spec fn lines_acc(s: Seq<char>, start: int, i: int) -> Seq<Seq<char>>
    decreases s.len() - i,
{
    if i < 0 || i >= s.len() {
        if 0 <= start < s.len() {
            seq![s.subrange(start, s.len() as int)]
        } else {
            seq![]
        }
    } else if s[i] == '\n' {
        seq![strip_cr(s.subrange(start, i))] + lines_acc(s, i + 1, i + 1)
    } else {
        lines_acc(s, start, i + 1)
    }
}

/// The lines of `s` as `str::lines` gives them: split at `'\n'`, a `'\r'` right
/// before a `'\n'` dropped, and no empty last line after a final `'\n'`.
pub open spec fn lines_of(s: Seq<char>) -> Seq<Seq<char>> {
    lines_acc(s, 0, 0)
}

/// The views of a sequence of character vectors.
pub open spec fn views(v: Seq<Vec<char>>) -> Seq<Seq<char>> {
    v.map_values(|l: Vec<char>| l@)
}

/// The number that a string of digits denotes.
pub open spec fn digits_value(s: Seq<char>) -> int
    decreases s.len(),
{
    if s.len() == 0 {
        0
    } else {
        digits_value(s.drop_last()) * 10 + (s.last() as int - '0' as int)
    }
}

/// The integer that `s` writes in decimal: an optional `+` or `-`, then one
/// or more digits.
pub open spec fn decimal_value(s: Seq<char>) -> Option<int> {
    if s.len() > 0 && (s[0] == '+' || s[0] == '-') {
        let d = s.drop_first();
        if d.len() > 0 && all_digits(d) {
            Some(if s[0] == '-' { -digits_value(d) } else { digits_value(d) })
        } else {
            None
        }
    } else if s.len() > 0 && all_digits(s) {
        Some(digits_value(s))
    } else {
        None
    }
}

/// What parsing `s` into an integer type whose range is `lo..=hi` gives.
pub open spec fn int_in(s: Seq<char>, lo: int, hi: int) -> Option<int> {
    match decimal_value(s) {
        Some(v) => if lo <= v <= hi { Some(v) } else { None },
        None => None,
    }
}

/// The number that a string of digits denotes is never negative.
pub proof fn lemma_digits_value_nonneg(s: Seq<char>)
    requires
        all_digits(s),
    ensures
        digits_value(s) >= 0,
    decreases s.len(),
{
    if s.len() > 0 {
        lemma_digits_value_nonneg(s.drop_last());
    }
}

/// The characters of `s`, in order.
pub fn chars_of(s: &str) -> (r: Vec<char>)
    ensures
        r@ == s@,
{
    let mut r: Vec<char> = Vec::new();
    for c in it: s.chars()
        invariant
            r@ == it.seq().take(it.index() as int),
    {
        r.push(c);
    }
    r
}

/// Whether `c` is white space.
pub fn space(c: char) -> (r: bool)
    ensures
        r == is_space(c),
{
    ('\t' <= c && c <= '\r') || c == ' ' || c == '\u{85}' || c == '\u{A0}' || c == '\u{1680}'
        || ('\u{2000}' <= c && c <= '\u{200A}') || c == '\u{2028}' || c == '\u{2029}'
        || c == '\u{202F}' || c == '\u{205F}' || c == '\u{3000}'
}

/// Whether `c` is an ASCII digit.
pub fn digit(c: char) -> (r: bool)
    ensures
        r == is_digit(c),
{
    '0' <= c && c <= '9'
}

/// The characters of `v` from `lo` up to `hi`.
pub fn slice(v: &Vec<char>, lo: usize, hi: usize) -> (r: Vec<char>)
    requires
        lo <= hi <= v.len(),
    ensures
        r@ == v@.subrange(lo as int, hi as int),
{
    let mut r: Vec<char> = Vec::new();
    let mut i: usize = lo;
    while i < hi
        invariant
            lo <= i <= hi <= v.len(),
            r@ == v@.subrange(lo as int, i as int),
        decreases hi - i,
    {
        r.push(v[i]);
        i = i + 1;
        assert(r@ =~= v@.subrange(lo as int, i as int));
    }
    r
}

/// Whether `pat` occurs in `s` at position `i`.
pub fn matches_at(s: &Vec<char>, pat: &Vec<char>, i: usize) -> (r: bool)
    requires
        i + pat.len() <= s.len(),
    ensures
        r == (s@.subrange(i as int, i + pat.len()) == pat@),
{
    let mut k: usize = 0;
    while k < pat.len()
        invariant
            k <= pat.len(),
            i + pat.len() <= s.len(),
            forall|j: int| 0 <= j < k ==> s@[i + j] == pat@[j],
        decreases pat.len() - k,
    {
        if s[i + k] != pat[k] {
            assert(s@.subrange(i as int, i + pat.len())[k as int] != pat@[k as int]);
            return false;
        }
        k = k + 1;
    }
    assert(s@.subrange(i as int, i + pat.len()) =~= pat@);
    true
}

/// The first position where `pat` occurs in `s`.
pub fn find(s: &Vec<char>, pat: &Vec<char>) -> (r: Option<usize>)
    ensures
        r matches Some(k) ==> find_from(s@, pat@, 0) == Some(k as int) && k + pat.len() <= s.len(),
        r is None ==> find_from(s@, pat@, 0) is None,
{
    if pat.len() > s.len() {
        return None;
    }
    let last = s.len() - pat.len();
    let mut i: usize = 0;
    while i <= last
        invariant
            last + pat.len() == s.len(),
            find_from(s@, pat@, i as int) == find_from(s@, pat@, 0),
        decreases last + 1 - i,
    {
        if matches_at(s, pat, i) {
            return Some(i);
        }
        if i == last {
            assert(find_from(s@, pat@, i + 1) is None);
            return None;
        }
        i = i + 1;
    }
    None
}

/// Whether `pat` occurs in `s`.
pub fn contains(s: &Vec<char>, pat: &Vec<char>) -> (r: bool)
    ensures
        r == occurs(s@, pat@),
{
    find(s, pat).is_some()
}

/// Whether `s` begins with `pat`.
pub fn starts_with(s: &Vec<char>, pat: &Vec<char>) -> (r: bool)
    ensures
        r == begins(s@, pat@),
{
    pat.len() <= s.len() && matches_at(s, pat, 0)
}

/// The first position at or after `i` that holds `c`, or the length of `s`.
pub fn position_from(s: &Vec<char>, c: char, i: usize) -> (r: usize)
    ensures
        r as int == next_char(s@, c, i as int),
        r <= s.len(),
        i <= s.len() ==> i <= r,
{
    let mut k: usize = i;
    if k >= s.len() {
        return s.len();
    }
    while k < s.len()
        invariant
            i <= k <= s.len(),
            next_char(s@, c, k as int) == next_char(s@, c, i as int),
        decreases s.len() - k,
    {
        if s[k] == c {
            return k;
        }
        k = k + 1;
    }
    k
}

proof fn lemma_trim_start_skip(s: Seq<char>, a: int)
    requires
        0 <= a <= s.len(),
        forall|j: int| 0 <= j < a ==> is_space(#[trigger] s[j]),
    ensures
        trim_start(s) == trim_start(s.subrange(a, s.len() as int)),
    decreases a,
{
    if a > 0 {
        assert(s.drop_first().subrange(a - 1, s.len() - 1) =~= s.subrange(a, s.len() as int));
        lemma_trim_start_skip(s.drop_first(), a - 1);
    } else {
        assert(s.subrange(0, s.len() as int) =~= s);
    }
}

proof fn lemma_trim_end_skip(s: Seq<char>, b: int)
    requires
        0 <= b <= s.len(),
        forall|j: int| b <= j < s.len() ==> is_space(#[trigger] s[j]),
    ensures
        trim_end(s) == trim_end(s.subrange(0, b)),
    decreases s.len() - b,
{
    if b < s.len() {
        assert(s.drop_last().subrange(0, b) =~= s.subrange(0, b));
        lemma_trim_end_skip(s.drop_last(), b);
    } else {
        assert(s.subrange(0, b) =~= s);
    }
}

/// `v` without leading or trailing white space.
pub fn trimmed(v: &Vec<char>) -> (r: Vec<char>)
    ensures
        r@ == trim(v@),
{
    let mut a: usize = 0;
    while a < v.len() && space(v[a])
        invariant
            a <= v.len(),
            forall|j: int| 0 <= j < a ==> is_space(#[trigger] v@[j]),
        decreases v.len() - a,
    {
        a = a + 1;
    }
    let ghost t = v@.subrange(a as int, v.len() as int);
    proof {
        lemma_trim_start_skip(v@, a as int);
        assert(trim_start(t) == t);
    }
    let mut b: usize = v.len();
    while b > a && space(v[b - 1])
        invariant
            a <= b <= v.len(),
            t == v@.subrange(a as int, v.len() as int),
            forall|j: int| b <= j < v.len() ==> is_space(#[trigger] v@[j]),
        decreases b,
    {
        b = b - 1;
    }
    proof {
        assert forall|j: int| b - a <= j < t.len() implies is_space(#[trigger] t[j]) by {
            assert(t[j] == v@[j + a]);
        }
        lemma_trim_end_skip(t, b - a);
        assert(t.subrange(0, b - a) =~= v@.subrange(a as int, b as int));
    }
    slice(v, a, b)
}

/// `v` without leading white space.
pub fn trimmed_start(v: &Vec<char>) -> (r: Vec<char>)
    ensures
        r@ == trim_start(v@),
{
    let mut a: usize = 0;
    while a < v.len() && space(v[a])
        invariant
            a <= v.len(),
            forall|j: int| 0 <= j < a ==> is_space(#[trigger] v@[j]),
        decreases v.len() - a,
    {
        a = a + 1;
    }
    proof {
        lemma_trim_start_skip(v@, a as int);
    }
    slice(v, a, v.len())
}

/// Whether the text `pat` occurs in `v`.
pub fn has_text(v: &Vec<char>, pat: &str) -> (r: bool)
    ensures
        r == occurs(v@, pat@),
{
    contains(v, &chars_of(pat))
}

/// Whether `v` begins with the text `pat`.
pub fn begins_text(v: &Vec<char>, pat: &str) -> (r: bool)
    ensures
        r == begins(v@, pat@),
{
    starts_with(v, &chars_of(pat))
}

/// Whether `v` is exactly the text `pat`.
pub fn equals_text(v: &Vec<char>, pat: &str) -> (r: bool)
    ensures
        r == (v@ == pat@),
{
    let p = chars_of(pat);
    if p.len() != v.len() {
        return false;
    }
    let r = matches_at(v, &p, 0);
    assert(v@.subrange(0, v.len() as int) =~= v@);
    r
}

/// The lines of `v`, as `lines_of` describes them.
pub fn lines(v: &Vec<char>) -> (r: Vec<Vec<char>>)
    ensures
        views(r@) == lines_of(v@),
{
    let mut out: Vec<Vec<char>> = Vec::new();
    let mut start: usize = 0;
    let mut i: usize = 0;
    while i < v.len()
        invariant
            start <= i <= v.len(),
            views(out@) + lines_acc(v@, start as int, i as int) == lines_of(v@),
        decreases v.len() - i,
    {
        if v[i] == '\n' {
            let raw = slice(v, start, i);
            let line = if i > start && v[i - 1] == '\r' {
                let l = slice(v, start, i - 1);
                assert(l@ =~= raw@.drop_last());
                l
            } else {
                raw
            };
            proof {
                assert(line@ == strip_cr(v@.subrange(start as int, i as int)));
                assert(views(out@.push(line)) =~= views(out@) + seq![line@]);
            }
            out.push(line);
            assert(views(out@) + lines_acc(v@, (i + 1) as int, (i + 1) as int) =~= lines_of(v@));
            start = i + 1;
        }
        i = i + 1;
    }
    if start < v.len() {
        let rest = slice(v, start, v.len());
        proof {
            assert(views(out@.push(rest)) =~= views(out@) + seq![rest@]);
        }
        out.push(rest);
    }
    assert(views(out@) =~= lines_of(v@));
    out
}

/// The integer that `v` writes in decimal, where it lies in `lo..=hi`.
pub fn parse_int(v: &Vec<char>, lo: i64, hi: i64) -> (r: Option<i64>)
    ensures
        r matches Some(x) ==> int_in(v@, lo as int, hi as int) == Some(x as int),
        r is None ==> int_in(v@, lo as int, hi as int) is None,
{
    let n = v.len();
    if n == 0 {
        return None;
    }
    let neg = v[0] == '-';
    let first: usize = if v[0] == '+' || v[0] == '-' { 1 } else { 0 };
    if first == n {
        assert(v@.drop_first().len() == 0);
        return None;
    }
    let ghost d = v@.subrange(first as int, n as int);
    let bound: u128 = 100_000_000_000_000_000_000;
    let mut acc: u128 = 0;
    let mut over = false;
    let mut i: usize = first;
    while i < n
        invariant
            first <= i <= n == v.len(),
            first < n,
            first == (if v@[0] == '+' || v@[0] == '-' { 1usize } else { 0usize }),
            neg == (v@[0] == '-'),
            d == v@.subrange(first as int, n as int),
            all_digits(v@.subrange(first as int, i as int)),
            !over ==> acc as int == digits_value(v@.subrange(first as int, i as int)),
            over ==> digits_value(v@.subrange(first as int, i as int)) > bound,
            acc <= bound,
            bound == 100_000_000_000_000_000_000,
        decreases n - i,
    {
        let c = v[i];
        let ghost p = v@.subrange(first as int, i as int);
        let ghost q = v@.subrange(first as int, i + 1);
        assert(q.drop_last() =~= p);
        if !digit(c) {
            assert(!all_digits(d)) by {
                assert(d[i - first] == c);
            }
            if first == 1 {
                assert(d =~= v@.drop_first());
            } else {
                assert(d =~= v@);
            }
            return None;
        }
        assert(all_digits(q)) by {
            assert forall|j: int| 0 <= j < q.len() implies is_digit(#[trigger] q[j]) by {
                if j < p.len() {
                    assert(q[j] == p[j]);
                }
            }
        }
        proof {
            lemma_digits_value_nonneg(p);
        }
        if !over {
            let next = acc * 10 + (c as u32 - '0' as u32) as u128;
            if next > bound {
                over = true;
            } else {
                acc = next;
            }
        }
        i = i + 1;
    }
    assert(v@.subrange(first as int, n as int) =~= d);
    if first == 1 {
        assert(d =~= v@.drop_first());
    } else {
        assert(d =~= v@);
    }
    if over {
        return None;
    }
    if neg {
        if acc > (i64::MAX as u128) + 1 {
            return None;
        }
        let m: i128 = -(acc as i128);
        if m < lo as i128 || m > hi as i128 {
            return None;
        }
        Some(m as i64)
    } else {
        if acc > i64::MAX as u128 {
            return None;
        }
        let m: i128 = acc as i128;
        if m < lo as i128 || m > hi as i128 {
            return None;
        }
        Some(m as i64)
    }
}

} // verus!
