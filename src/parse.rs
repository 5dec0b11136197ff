//! Parsers for the text that the device commands print. Each is total: on
//! text it does not recognise it returns a sentinel or default value.

use vstd::prelude::*;
use crate::seconds::{seconds, seconds_of};
use crate::text::{
    begins, begins_text, chars_of, contains, digit, equals_text, find, find_from, has_text, int_in,
    is_digit, is_space, lines, lines_acc, lines_of, matches_at, next_char, occurs, parse_int,
    position_from, slice, space, starts_with, trim, trim_start, trimmed, trimmed_start, views,
};

verus! {

/// Battery level reported when no `level:` line could be read.
pub const UNKNOWN_LEVEL: i32 = -1;

/// Signal strength reported when no signal line carries a reading.
pub const UNKNOWN_SIGNAL: i32 = -999;

/// Outputs of the forwarding query longer than this (in bytes) count as active forwarding.
pub const FORWARDING_MIN_LEN: usize = 50;

/// What std's parse into `i32` gives for `s`.
pub open spec fn i32_of(s: Seq<char>) -> Option<int> {
    int_in(s, i32::MIN as int, i32::MAX as int)
}

/// The text between the first `':'` of `l` and the next one (or the end),
/// as `l.split(':').nth(1)` gives it.
pub open spec fn second_field(l: Seq<char>) -> Option<Seq<char>> {
    let a = next_char(l, ':', 0);
    if a < l.len() {
        Some(l.subrange(a + 1, next_char(l, ':', a + 1)))
    } else {
        None
    }
}

/// The effect of one line of the battery dump on (level, charging).
pub open spec fn battery_step(raw: Seq<char>, st: (i32, bool)) -> (i32, bool) {
    let l = trim(raw);
    let st1 = if begins(l, "level:"@) {
        match second_field(l) {
            Some(v) => match i32_of(trim(v)) {
                Some(x) => (x as i32, st.1),
                None => (UNKNOWN_LEVEL, st.1),
            },
            None => st,
        }
    } else {
        st
    };
    if begins(l, "status:"@) {
        match second_field(l) {
            Some(v) => {
                let code = match i32_of(trim(v)) {
                    Some(x) => x,
                    None => 0,
                };
                (st1.0, code == 2 || code == 5)
            },
            None => st1,
        }
    } else {
        st1
    }
}

/// (level, charging) after the given lines, starting from `st`.
pub open spec fn battery_scan(lines: Seq<Seq<char>>, st: (i32, bool)) -> (i32, bool)
    decreases lines.len(),
{
    if lines.len() == 0 {
        st
    } else {
        battery_scan(lines.drop_first(), battery_step(lines[0], st))
    }
}

/// Battery level and charging flag of a battery dump: the last `level:` and
/// `status:` lines decide; charging means status code 2 (charging) or 5 (full).
pub open spec fn battery_of(s: Seq<char>) -> (i32, bool) {
    battery_scan(lines_of(s), (UNKNOWN_LEVEL, false))
}

/// A character that may belong to a signal reading: a digit or a minus sign.
pub open spec fn is_reading_char(c: char) -> bool {
    is_digit(c) || c == '-'
}

/// The first position at or after `i` in `s` that cannot belong to a reading,
/// if any; where there is none, the reading runs to the end of the line.
pub open spec fn reading_end(s: Seq<char>, i: int) -> Option<int>
    decreases s.len() - i,
{
    if i < 0 || i >= s.len() {
        None
    } else if !is_reading_char(s[i]) {
        Some(i)
    } else {
        reading_end(s, i + 1)
    }
}

/// The signal reading that one line of the telephony dump carries: after the
/// first `rssi=` of a line that mentions `SignalStrength`, the digits and
/// minus signs up to the next other character, read as an `i32`.
pub open spec fn signal_of_line(l: Seq<char>) -> Option<int> {
    if occurs(l, "SignalStrength"@) {
        match find_from(l, "rssi="@, 0) {
            Some(p) => {
                let rest = l.subrange(p + 5, l.len() as int);
                match reading_end(rest, 0) {
                    Some(e) => i32_of(rest.subrange(0, e)),
                    None => i32_of(rest),
                }
            },
            None => None,
        }
    } else {
        None
    }
}

/// The first reading that the lines carry, or the sentinel.
pub open spec fn signal_scan(lines: Seq<Seq<char>>) -> i32
    decreases lines.len(),
{
    if lines.len() == 0 {
        UNKNOWN_SIGNAL
    } else {
        match signal_of_line(lines[0]) {
            Some(v) => v as i32,
            None => signal_scan(lines.drop_first()),
        }
    }
}

/// Signal strength in dBm that a telephony dump reports.
pub open spec fn signal_of(s: Seq<char>) -> i32 {
    signal_scan(lines_of(s))
}

/// The first position at or after `i` in `s` that holds white space, or the length of `s`.
pub open spec fn space_from(s: Seq<char>, i: int) -> int
    decreases s.len() - i,
{
    if i < 0 || i >= s.len() {
        s.len() as int
    } else if is_space(s[i]) {
        i
    } else {
        space_from(s, i + 1)
    }
}

/// The first white-space-delimited token of `s` (empty where there is none).
pub open spec fn first_token(s: Seq<char>) -> Seq<char> {
    let t = trim_start(s);
    t.subrange(0, space_from(t, 0))
}

/// Uptime in whole seconds: the first token of `/proc/uptime`.
pub open spec fn uptime_of(s: Seq<char>) -> u64 {
    seconds_of(first_token(s))
}

/// Whether an `extra:` annotation on a line marks the network as user data,
/// `u` being what was known before it.
pub open spec fn user_data_mark(l: Seq<char>, u: bool) -> bool {
    if occurs(l, "extra: ims"@) {
        false
    } else if occurs(l, "extra: default"@) || occurs(l, "extra: internet"@) {
        true
    } else {
        u
    }
}

/// State of the connectivity-dump scanner.
#[derive(Clone, Copy)]
pub struct MobileScan {
    /// Inside a block that announces a mobile network agent.
    pub in_block: bool,
    /// That block is marked connected.
    pub connected: bool,
    /// That block carries user data (default or internet, not ims).
    pub user_data: bool,
    /// A closed block was connected and carried user data.
    pub found: bool,
}

/// The scanner before any line.
pub open spec fn mobile_start() -> MobileScan {
    MobileScan { in_block: false, connected: false, user_data: false, found: false }
}

/// `CONNECTED` stands at position `i` of `l`, and not as the end of `DISCONNECTED`.
pub open spec fn connected_at(l: Seq<char>, i: int) -> bool {
    &&& 0 <= i
    &&& i + "CONNECTED"@.len() <= l.len()
    &&& l.subrange(i, i + "CONNECTED"@.len()) == "CONNECTED"@
    &&& !(i >= "DIS"@.len() && l.subrange(i - "DIS"@.len(), i) == "DIS"@)
}

/// A block header marks its network agent connected (`DISCONNECTED` does not).
pub open spec fn marked_connected(l: Seq<char>) -> bool {
    exists|i: int| connected_at(l, i)
}

/// The open block is connected and carries user data.
pub open spec fn block_counts(st: MobileScan) -> bool {
    st.in_block && st.connected && st.user_data
}

/// The effect of one line of the connectivity dump on the scanner. A block
/// begins at a `NetworkAgentInfo` line that names `MOBILE`; it ends at the
/// next `NetworkAgentInfo` line, at a blank line, or at the end of the dump,
/// and counts when its header marks it connected and its last `extra:`
/// marker is `default` or `internet`.
pub open spec fn mobile_step(raw: Seq<char>, st: MobileScan) -> MobileScan {
    let l = trim(raw);
    if st.found {
        st
    } else if begins(l, "NetworkAgentInfo"@) || l.len() == 0 {
        if block_counts(st) {
            MobileScan { found: true, ..st }
        } else if begins(l, "NetworkAgentInfo"@) && occurs(l, "MOBILE"@) {
            MobileScan {
                in_block: true,
                connected: marked_connected(l),
                user_data: user_data_mark(l, false),
                found: false,
            }
        } else {
            mobile_start()
        }
    } else if st.in_block {
        MobileScan { user_data: user_data_mark(l, st.user_data), ..st }
    } else {
        st
    }
}

/// The scanner after the given lines, starting from `st`.
pub open spec fn mobile_scan(lines: Seq<Seq<char>>, st: MobileScan) -> MobileScan
    decreases lines.len(),
{
    if lines.len() == 0 {
        st
    } else {
        mobile_scan(lines.drop_first(), mobile_step(lines[0], st))
    }
}

/// Whether a connectivity dump shows a connected mobile network that carries user data.
pub open spec fn mobile_data_of(s: Seq<char>) -> bool {
    let st = mobile_scan(lines_of(s), mobile_start());
    st.found || block_counts(st)
}

/// The mobile-data state that one log line announces, if it is a line of the
/// data-setting controller with an `enabled=true` or `enabled=false` marker.
pub open spec fn data_marker_of_line(l: Seq<char>) -> Option<bool> {
    if occurs(l, "MultiSimSettingController"@) && occurs(l, "mobile_data"@) {
        match find_from(l, "enabled="@, 0) {
            Some(p) => {
                let v = l.subrange(p + 8, l.len() as int);
                if begins(v, "true"@) {
                    Some(true)
                } else if begins(v, "false"@) {
                    Some(false)
                } else {
                    None
                }
            },
            None => None,
        }
    } else {
        None
    }
}

/// The state that the last marked line among `lines` announces, else `acc`.
pub open spec fn data_marker_scan(lines: Seq<Seq<char>>, acc: Option<bool>) -> Option<bool>
    decreases lines.len(),
{
    if lines.len() == 0 {
        acc
    } else {
        let next = match data_marker_of_line(lines[0]) {
            Some(b) => Some(b),
            None => acc,
        };
        data_marker_scan(lines.drop_first(), next)
    }
}

/// The mobile-data state that the most recent marked line of a log announces.
pub open spec fn data_marker_of(s: Seq<char>) -> Option<bool> {
    data_marker_scan(lines_of(s), None)
}

/// The value of a global setting, trimmed, is exactly `"0"` or `"1"`.
pub open spec fn definite_setting(s: Seq<char>) -> bool {
    trim(s) == "0"@ || trim(s) == "1"@
}

/// A global on/off setting reads as on.
pub open spec fn setting_on(s: Seq<char>) -> bool {
    trim(s) == "1"@
}

proof fn lemma_single_line_acc(s: Seq<char>, i: int)
    requires
        0 <= i <= s.len(),
        s.len() > 0,
        !s.contains('\n'),
    ensures
        lines_acc(s, 0, i) == seq![s],
    decreases s.len() - i,
{
    if i < s.len() {
        assert(s[i] != '\n');
        lemma_single_line_acc(s, i + 1);
    } else {
        assert(s.subrange(0, s.len() as int) =~= s);
    }
}

/// A line that opens a block: a `NetworkAgentInfo` line that names `MOBILE`.
pub open spec fn opens_block(l: Seq<char>) -> bool {
    begins(l, "NetworkAgentInfo"@) && occurs(l, "MOBILE"@)
}

/// A line that ends an open block: any `NetworkAgentInfo` line, or a blank one.
pub open spec fn closes_block(l: Seq<char>) -> bool {
    begins(l, "NetworkAgentInfo"@) || l.len() == 0
}

/// Whether the `extra:` markers of the trimmed lines `i..j` of `ls` mark user
/// data, `u` being what was known before line `i`.
pub open spec fn marks_over(ls: Seq<Seq<char>>, i: int, j: int, u: bool) -> bool
    decreases j - i,
{
    if j <= i {
        u
    } else {
        user_data_mark(trim(ls[j - 1]), marks_over(ls, i, j - 1, u))
    }
}

/// Lines `h..e` of `ls` form a block: line `h` opens it, no line after it
/// closes it before `e`, and `e` is a closing line or the end.
pub open spec fn is_block(ls: Seq<Seq<char>>, h: int, e: int) -> bool {
    &&& 0 <= h < e <= ls.len()
    &&& opens_block(trim(ls[h]))
    &&& forall|i: int| h < i < e ==> !closes_block(#[trigger] trim(ls[i]))
    &&& (e == ls.len() || closes_block(trim(ls[e])))
}

/// Lines `h..e` form a block whose header marks it connected and whose
/// last `extra:` marker is `default` or `internet`.
pub open spec fn block_carries_data(ls: Seq<Seq<char>>, h: int, e: int) -> bool {
    is_block(ls, h, e) && marked_connected(trim(ls[h])) && marks_over(ls, h, e, false)
}

/// The scanner after the first `k` lines of `ls`.
pub open spec fn scan_upto(ls: Seq<Seq<char>>, k: int) -> MobileScan
    decreases k,
{
    if k <= 0 {
        mobile_start()
    } else {
        mobile_step(ls[k - 1], scan_upto(ls, k - 1))
    }
}

proof fn lemma_scan_split(ls: Seq<Seq<char>>, k: int)
    requires
        0 <= k <= ls.len(),
    ensures
        mobile_scan(ls.subrange(k, ls.len() as int), scan_upto(ls, k)) == mobile_scan(
            ls,
            mobile_start(),
        ),
    decreases k,
{
    if k == 0 {
        assert(ls.subrange(0, ls.len() as int) =~= ls);
    } else {
        lemma_scan_split(ls, k - 1);
        let r = ls.subrange(k - 1, ls.len() as int);
        assert(r.drop_first() =~= ls.subrange(k, ls.len() as int));
        assert(r[0] == ls[k - 1]);
    }
}

/// What the scanner knows after the first `k` lines of `ls`.
spec fn scan_inv(ls: Seq<Seq<char>>, k: int, st: MobileScan) -> bool {
    &&& st.found ==> exists|h: int, e: int| e < k && #[trigger] block_carries_data(ls, h, e)
    &&& !st.found ==> forall|h: int, e: int|
        e < k ==> !#[trigger] block_carries_data(ls, h, e)
    &&& !st.found && st.in_block ==> exists|h: int|
        {
            &&& 0 <= h < k
            &&& opens_block(trim(ls[h]))
            &&& forall|i: int| h < i < k ==> !closes_block(#[trigger] trim(ls[i]))
            &&& st.connected == marked_connected(trim(ls[h]))
            &&& st.user_data == marks_over(ls, h, k, false)
        }
    &&& !st.found && !st.in_block ==> forall|h: int|
        0 <= h < k && opens_block(trim(ls[h])) ==> exists|i: int|
            h < i < k && closes_block(#[trigger] trim(ls[i]))
}

proof fn lemma_scan_inv(ls: Seq<Seq<char>>, k: int)
    requires
        0 <= k <= ls.len(),
    ensures
        scan_inv(ls, k, scan_upto(ls, k)),
    decreases k,
{
    if k > 0 {
        lemma_scan_inv(ls, k - 1);
        let j = k - 1;
        let st = scan_upto(ls, j);
        let l = trim(ls[j]);
        let nx = scan_upto(ls, k);
        assert(nx == mobile_step(ls[j], st));
        if st.found {
            assert(nx == st);
            let (h, e) = choose|h: int, e: int| e < j && block_carries_data(ls, h, e);
            assert(e < k && block_carries_data(ls, h, e));
        } else if closes_block(l) {
            if block_counts(st) {
                let h = choose|h: int|
                    {
                        &&& 0 <= h < j
                        &&& opens_block(trim(ls[h]))
                        &&& forall|i: int| h < i < j ==> !closes_block(#[trigger] trim(ls[i]))
                        &&& st.connected == marked_connected(trim(ls[h]))
                        &&& st.user_data == marks_over(ls, h, j, false)
                    };
                assert(block_carries_data(ls, h, j));
            } else {
                assert forall|h: int, e: int| e < k implies !#[trigger] block_carries_data(ls, h, e) by {
                    if e == j && block_carries_data(ls, h, e) {
                        if st.in_block {
                            let h2 = choose|h2: int|
                                {
                                    &&& 0 <= h2 < j
                                    &&& opens_block(trim(ls[h2]))
                                    &&& forall|i: int| h2 < i < j ==> !closes_block(#[trigger] trim(ls[i]))
                                    &&& st.connected == marked_connected(trim(ls[h2]))
                                    &&& st.user_data == marks_over(ls, h2, j, false)
                                };
                            if h < h2 {
                                assert(closes_block(trim(ls[h2])));
                            } else if h2 < h {
                                assert(closes_block(trim(ls[h])));
                            }
                        } else {
                            let i = choose|i: int| h < i < j && closes_block(#[trigger] trim(ls[i]));
                        }
                    }
                }
                if opens_block(l) {
                    assert(nx.in_block && !nx.found);
                    assert(marks_over(ls, j, j, false) == false);
                    assert(marks_over(ls, j, k, false) == user_data_mark(l, false));
                    assert(opens_block(trim(ls[j])));
                } else {
                    assert(nx == mobile_start());
                    assert forall|h: int| 0 <= h < k && opens_block(trim(ls[h])) implies exists|i: int|
                        h < i < k && closes_block(#[trigger] trim(ls[i])) by {
                        if h < j {
                            assert(h < j && j < k && closes_block(trim(ls[j])));
                        } else {
                            assert(begins(l, "NetworkAgentInfo"@));
                        }
                    }
                }
            }
        } else if st.in_block {
            let h = choose|h: int|
                {
                    &&& 0 <= h < j
                    &&& opens_block(trim(ls[h]))
                    &&& forall|i: int| h < i < j ==> !closes_block(#[trigger] trim(ls[i]))
                    &&& st.connected == marked_connected(trim(ls[h]))
                    &&& st.user_data == marks_over(ls, h, j, false)
                };
            assert(marks_over(ls, h, k, false) == user_data_mark(l, marks_over(ls, h, j, false)));
            assert(forall|i: int| h < i < k ==> !closes_block(#[trigger] trim(ls[i])));
            assert forall|h1: int, e: int| e < k implies !#[trigger] block_carries_data(ls, h1, e) by {
                if e == j && block_carries_data(ls, h1, e) {
                    assert(closes_block(trim(ls[j])));
                }
            }
        } else {
            assert(nx == st);
            assert forall|h1: int, e: int| e < k implies !#[trigger] block_carries_data(ls, h1, e) by {
                if e == j && block_carries_data(ls, h1, e) {
                    assert(closes_block(trim(ls[j])));
                }
            }
            assert forall|h: int| 0 <= h < k && opens_block(trim(ls[h])) implies exists|i: int|
                h < i < k && closes_block(#[trigger] trim(ls[i])) by {
                if h == j {
                    assert(begins(l, "NetworkAgentInfo"@));
                    assert(closes_block(l));
                } else {
                    let i = choose|i: int| h < i < j && closes_block(#[trigger] trim(ls[i]));
                    assert(h < i < k);
                }
            }
        }
    }
}

/// A connectivity dump shows mobile data exactly when some block (from a
/// `NetworkAgentInfo` line naming `MOBILE` up to the next `NetworkAgentInfo`
/// line, a blank line or the end) is marked connected and its last `extra:`
/// marker is `default` or `internet`.
pub proof fn law_mobile_data_blocks(s: Seq<char>)
    ensures
        mobile_data_of(s) <==> exists|h: int, e: int| #[trigger]
            block_carries_data(lines_of(s), h, e),
{
    let ls = lines_of(s);
    let n = ls.len() as int;
    lemma_scan_split(ls, n);
    assert(ls.subrange(n, n) =~= Seq::<Seq<char>>::empty());
    lemma_scan_inv(ls, n);
    let st = scan_upto(ls, n);
    assert(mobile_scan(ls, mobile_start()) == st);
    if exists|h: int, e: int| #[trigger] block_carries_data(ls, h, e) {
        let (h, e) = choose|h: int, e: int| block_carries_data(ls, h, e);
        if !st.found && e == n {
            if st.in_block {
                let h2 = choose|h2: int|
                    {
                        &&& 0 <= h2 < n
                        &&& opens_block(trim(ls[h2]))
                        &&& forall|i: int| h2 < i < n ==> !closes_block(#[trigger] trim(ls[i]))
                        &&& st.connected == marked_connected(trim(ls[h2]))
                        &&& st.user_data == marks_over(ls, h2, n, false)
                    };
                if h < h2 {
                    assert(closes_block(trim(ls[h2])));
                } else if h2 < h {
                    assert(closes_block(trim(ls[h])));
                }
            } else {
                let i = choose|i: int| h < i < n && closes_block(#[trigger] trim(ls[i]));
            }
        }
    } else {
        if st.in_block && !st.found && st.connected && st.user_data {
            let h2 = choose|h2: int|
                {
                    &&& 0 <= h2 < n
                    &&& opens_block(trim(ls[h2]))
                    &&& forall|i: int| h2 < i < n ==> !closes_block(#[trigger] trim(ls[i]))
                    &&& st.connected == marked_connected(trim(ls[h2]))
                    &&& st.user_data == marks_over(ls, h2, n, false)
                };
            assert(block_carries_data(ls, h2, n));
        }
    }
}

/// A connectivity dump of one line that announces a connected mobile network
/// agent shows mobile data when the line marks it `default` or `internet`,
/// and does not when it marks it `ims`.
pub proof fn law_mobile_block(s: Seq<char>)
    requires
        !s.contains('\n'),
        begins(trim(s), "NetworkAgentInfo"@),
        occurs(trim(s), "MOBILE"@),
        marked_connected(trim(s)),
    ensures
        occurs(trim(s), "extra: ims"@) ==> !mobile_data_of(s),
        !occurs(trim(s), "extra: ims"@) && (occurs(trim(s), "extra: default"@) || occurs(
            trim(s),
            "extra: internet"@,
        )) ==> mobile_data_of(s),
{
    assert(s.len() > 0) by {
        if s.len() == 0 {
            assert(trim_start(s) == s);
            assert(trim(s) =~= s);
            assert(find_from(trim(s), "MOBILE"@, 0) is None) by {
                reveal_strlit("MOBILE");
            }
        }
    }
    lemma_single_line_acc(s, 0);
    let l = seq![s];
    assert(lines_of(s) == l);
    assert(l.drop_first() =~= Seq::<Seq<char>>::empty());
    let st = mobile_step(s, mobile_start());
    assert(mobile_scan(l, mobile_start()) == mobile_scan(l.drop_first(), st));
    assert(mobile_scan(Seq::<Seq<char>>::empty(), st) == st);
    assert(st.in_block && !st.found);
    assert(st.connected);
    assert(block_counts(st) == st.user_data);
}

proof fn lemma_subrange_step(ls: Seq<Seq<char>>, k: int)
    requires
        0 <= k < ls.len(),
    ensures
        ls.subrange(k, ls.len() as int).drop_first() == ls.subrange(k + 1, ls.len() as int),
        ls.subrange(k, ls.len() as int)[0] == ls[k],
        ls.subrange(k, ls.len() as int).len() > 0,
{
    assert(ls.subrange(k, ls.len() as int).drop_first() =~= ls.subrange(k + 1, ls.len() as int));
}

/// The value after the first `':'` of `l`, up to the next `':'`, if `l` has a `':'`.
fn second_field_of(l: &Vec<char>) -> (r: Option<Vec<char>>)
    ensures
        r matches Some(v) ==> second_field(l@) == Some(v@),
        r is None ==> second_field(l@) is None,
{
    let a = position_from(l, ':', 0);
    if a < l.len() {
        let b = position_from(l, ':', a + 1);
        Some(slice(l, a + 1, b))
    } else {
        None
    }
}

/// `s` read as an `i32`, else `dflt`.
fn i32_or(s: &Vec<char>, dflt: i32) -> (r: i32)
    ensures
        r == (match i32_of(s@) {
            Some(x) => x as i32,
            None => dflt,
        }),
{
    match parse_int(s, i32::MIN as i64, i32::MAX as i64) {
        Some(x) => x as i32,
        None => dflt,
    }
}

/// Battery level (`UNKNOWN_LEVEL` when none is given) and charging flag
/// read from a battery dump.
pub fn parse_battery(output: &str) -> (r: (i32, bool))
    ensures
        r == battery_of(output@),
{
    let text = chars_of(output);
    let ls = lines(&text);
    let level_key = chars_of("level:");
    let status_key = chars_of("status:");
    let mut st: (i32, bool) = (UNKNOWN_LEVEL, false);
    let mut k: usize = 0;
    assert(views(ls@).subrange(0, ls.len() as int) =~= views(ls@));
    while k < ls.len()
        invariant
            k <= ls.len(),
            views(ls@) == lines_of(output@),
            level_key@ == "level:"@,
            status_key@ == "status:"@,
            battery_scan(views(ls@).subrange(k as int, ls.len() as int), st) == battery_of(output@),
        decreases ls.len() - k,
    {
        proof {
            lemma_subrange_step(views(ls@), k as int);
        }
        let l = trimmed(&ls[k]);
        let mut next = st;
        if starts_with(&l, &level_key) {
            match second_field_of(&l) {
                Some(v) => {
                    next = (i32_or(&trimmed(&v), UNKNOWN_LEVEL), next.1);
                },
                None => {},
            }
        }
        if starts_with(&l, &status_key) {
            match second_field_of(&l) {
                Some(v) => {
                    let code = i32_or(&trimmed(&v), 0);
                    next = (next.0, code == 2 || code == 5);
                },
                None => {},
            }
        }
        assert(next == battery_step(ls@[k as int]@, st));
        st = next;
        k = k + 1;
    }
    st
}

/// The first position at or after `i` in `s` that cannot belong to a reading, if any.
fn reading_end_from(s: &Vec<char>, i: usize) -> (r: Option<usize>)
    ensures
        r matches Some(e) ==> reading_end(s@, i as int) == Some(e as int) && e < s.len(),
        r is None ==> reading_end(s@, i as int) is None,
{
    let mut k: usize = i;
    while k < s.len()
        invariant
            i <= k,
            reading_end(s@, k as int) == reading_end(s@, i as int),
        decreases s.len() - k,
    {
        if !(digit(s[k]) || s[k] == '-') {
            return Some(k);
        }
        k = k + 1;
    }
    None
}

/// Signal strength in dBm read from a telephony-registry dump, or
/// `UNKNOWN_SIGNAL` when no signal line carries a reading.
pub fn parse_signal(output: &str) -> (r: i32)
    ensures
        r == signal_of(output@),
{
    let text = chars_of(output);
    let ls = lines(&text);
    let marker = chars_of("SignalStrength");
    let key = chars_of("rssi=");
    let mut k: usize = 0;
    assert(views(ls@).subrange(0, ls.len() as int) =~= views(ls@));
    while k < ls.len()
        invariant
            k <= ls.len(),
            views(ls@) == lines_of(output@),
            marker@ == "SignalStrength"@,
            key@ == "rssi="@,
            signal_scan(views(ls@).subrange(k as int, ls.len() as int)) == signal_of(output@),
        decreases ls.len() - k,
    {
        proof {
            lemma_subrange_step(views(ls@), k as int);
            reveal_strlit("rssi=");
        }
        let l = &ls[k];
        if contains(l, &marker) {
            match find(l, &key) {
                Some(p) => {
                    let rest = slice(l, p + 5, l.len());
                    match reading_end_from(&rest, 0) {
                        Some(e) => {
                            let num = slice(&rest, 0, e);
                            match parse_int(&num, i32::MIN as i64, i32::MAX as i64) {
                                Some(v) => {
                                    return v as i32;
                                },
                                None => {},
                            }
                        },
                        None => {
                            match parse_int(&rest, i32::MIN as i64, i32::MAX as i64) {
                                Some(v) => {
                                    return v as i32;
                                },
                                None => {},
                            }
                        },
                    }
                },
                None => {},
            }
        }
        k = k + 1;
    }
    UNKNOWN_SIGNAL
}

/// The first position in `s` that holds white space, or the length of `s`.
fn space_end(s: &Vec<char>) -> (r: usize)
    ensures
        r as int == space_from(s@, 0),
        r <= s.len(),
{
    let mut k: usize = 0;
    while k < s.len()
        invariant
            k <= s.len(),
            space_from(s@, k as int) == space_from(s@, 0),
        decreases s.len() - k,
    {
        if space(s[k]) {
            return k;
        }
        k = k + 1;
    }
    k
}

/// Uptime in whole seconds read from `/proc/uptime`: the first token, read
/// as a floating-point number and truncated as `seconds_of` describes; 0
/// where it is no number.
pub fn parse_uptime(output: &str) -> (r: u64)
    ensures
        r == uptime_of(output@),
{
    let text = chars_of(output);
    let t = trimmed_start(&text);
    let e = space_end(&t);
    let tok = slice(&t, 0, e);
    seconds(&tok)
}

/// Whether the forwarding query's answer suggests active call forwarding:
/// it holds a result parcel and is longer than `FORWARDING_MIN_LEN` bytes.
/// This is a heuristic, not an authoritative reading.
pub fn parse_call_forwarding(output: &str) -> (r: bool)
    ensures
        r == (occurs(output@, "Result: Parcel"@) && output.len() > FORWARDING_MIN_LEN),
{
    let text = chars_of(output);
    if !has_text(&text, "Result: Parcel") {
        return false;
    }
    output.len() > FORWARDING_MIN_LEN
}

/// `user_data_mark` on a line.
fn user_data_mark_of(l: &Vec<char>, u: bool) -> (r: bool)
    ensures
        r == user_data_mark(l@, u),
{
    if has_text(l, "extra: ims") {
        false
    } else if has_text(l, "extra: default") || has_text(l, "extra: internet") {
        true
    } else {
        u
    }
}

/// Whether the header `l` marks its network agent connected.
fn is_marked_connected(l: &Vec<char>) -> (r: bool)
    ensures
        r == marked_connected(l@),
{
    let pat = chars_of("CONNECTED");
    let dis = chars_of("DIS");
    let mut i: usize = 0;
    proof {
        reveal_strlit("CONNECTED");
    }
    while i < l.len()
        invariant
            i <= l.len(),
            pat@ == "CONNECTED"@,
            pat.len() == 9,
            dis@ == "DIS"@,
            forall|j: int| 0 <= j < i ==> !connected_at(l@, j),
        decreases l.len() - i,
    {
        if pat.len() <= l.len() - i && matches_at(l, &pat, i) && !(i >= dis.len() && matches_at(l, &dis, i - dis.len())) {
            assert(connected_at(l@, i as int));
            return true;
        }
        i = i + 1;
    }
    assert forall|j: int| !connected_at(l@, j) by {
        if j >= i {
            assert(j + pat@.len() > l.len());
        }
    }
    false
}

proof fn lemma_found_stays(lines: Seq<Seq<char>>, st: MobileScan)
    requires
        st.found,
    ensures
        mobile_scan(lines, st) == st,
    decreases lines.len(),
{
    if lines.len() > 0 {
        lemma_found_stays(lines.drop_first(), st);
    }
}

/// Whether a connectivity dump shows a connected mobile network agent whose
/// purpose is user data (`default` or `internet`), not signalling alone (`ims`).
pub fn parse_mobile_data_connected(output: &str) -> (r: bool)
    ensures
        r == mobile_data_of(output@),
        r <==> exists|h: int, e: int| #[trigger] block_carries_data(lines_of(output@), h, e),
{
    proof {
        law_mobile_data_blocks(output@);
    }
    let text = chars_of(output);
    let ls = lines(&text);
    let mut st = MobileScan { in_block: false, connected: false, user_data: false, found: false };
    let mut k: usize = 0;
    assert(views(ls@).subrange(0, ls.len() as int) =~= views(ls@));
    while k < ls.len()
        invariant
            k <= ls.len(),
            views(ls@) == lines_of(output@),
            !st.found,
            mobile_data_of(output@) <==> exists|h: int, e: int| #[trigger] block_carries_data(
                lines_of(output@),
                h,
                e,
            ),
            mobile_scan(views(ls@).subrange(k as int, ls.len() as int), st) == mobile_scan(
                lines_of(output@),
                mobile_start(),
            ),
        decreases ls.len() - k,
    {
        proof {
            lemma_subrange_step(views(ls@), k as int);
        }
        let l = trimmed(&ls[k]);
        let ghost old_st = st;
        let header = begins_text(&l, "NetworkAgentInfo");
        if header || l.len() == 0 {
            if st.in_block && st.connected && st.user_data {
                proof {
                    let fin = MobileScan { found: true, ..old_st };
                    assert(fin == mobile_step(ls@[k as int]@, old_st));
                    lemma_found_stays(views(ls@).subrange(k + 1, ls.len() as int), fin);
                }
                return true;
            } else if header && has_text(&l, "MOBILE") {
                st = MobileScan {
                    in_block: true,
                    connected: is_marked_connected(&l),
                    user_data: user_data_mark_of(&l, false),
                    found: false,
                };
            } else {
                st = MobileScan { in_block: false, connected: false, user_data: false, found: false };
            }
        } else if st.in_block {
            st = MobileScan { user_data: user_data_mark_of(&l, st.user_data), ..st };
        }
        assert(st == mobile_step(ls@[k as int]@, old_st));
        k = k + 1;
    }
    assert(views(ls@).subrange(k as int, ls.len() as int) =~= Seq::<Seq<char>>::empty());
    st.in_block && st.connected && st.user_data
}

/// `data_marker_of_line` on a line.
fn data_marker_of_line_exec(l: &Vec<char>) -> (r: Option<bool>)
    ensures
        r == data_marker_of_line(l@),
{
    if has_text(l, "MultiSimSettingController") && has_text(l, "mobile_data") {
        let key = chars_of("enabled=");
        proof {
            reveal_strlit("enabled=");
        }
        match find(l, &key) {
            Some(p) => {
                let v = slice(l, p + 8, l.len());
                if begins_text(&v, "true") {
                    Some(true)
                } else if begins_text(&v, "false") {
                    Some(false)
                } else {
                    None
                }
            },
            None => None,
        }
    } else {
        None
    }
}

/// The mobile-data state that the most recent data-setting line of a log
/// announces (`enabled=true` or `enabled=false`), if any does.
pub fn parse_data_marker(log: &str) -> (r: Option<bool>)
    ensures
        r == data_marker_of(log@),
{
    let text = chars_of(log);
    let ls = lines(&text);
    let mut acc: Option<bool> = None;
    let mut k: usize = 0;
    assert(views(ls@).subrange(0, ls.len() as int) =~= views(ls@));
    while k < ls.len()
        invariant
            k <= ls.len(),
            views(ls@) == lines_of(log@),
            data_marker_scan(views(ls@).subrange(k as int, ls.len() as int), acc) == data_marker_of(
                log@,
            ),
        decreases ls.len() - k,
    {
        proof {
            lemma_subrange_step(views(ls@), k as int);
        }
        match data_marker_of_line_exec(&ls[k]) {
            Some(b) => {
                acc = Some(b);
            },
            None => {},
        }
        k = k + 1;
    }
    assert(views(ls@).subrange(k as int, ls.len() as int) =~= Seq::<Seq<char>>::empty());
    acc
}

/// Whether a setting's value is exactly `0` or `1`, white space aside.
pub fn is_definite_setting(output: &str) -> (r: bool)
    ensures
        r == definite_setting(output@),
{
    let t = trimmed(&chars_of(output));
    equals_text(&t, "0") || equals_text(&t, "1")
}

/// Whether an on/off setting's value reads as on (`1`, white space aside).
pub fn parse_setting_on(output: &str) -> (r: bool)
    ensures
        r == setting_on(output@),
{
    let t = trimmed(&chars_of(output));
    equals_text(&t, "1")
}

} // verus!
