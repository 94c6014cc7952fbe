//! Verified interpretation of the probe tools' textual output.
//!
//! The probe layer outside the library runs the OS Bluetooth utilities
//! and hands their raw stdout text in; the functions here decide, with
//! exact contracts, what that text means: whether a connection-status
//! query confirms a connection, whether a connect command succeeded, and
//! which signal-strength value a signal query reported.

use vstd::prelude::*;
use vstd::string::StrSliceExecFns;

verus! {

/// The needle `n` occurs in `h` starting at position `i`.
pub open spec fn occurs_at(h: Seq<char>, n: Seq<char>, i: int) -> bool {
    0 <= i && i + n.len() <= h.len() && h.subrange(i, i + n.len()) == n
}

/// The needle `n` occurs somewhere in `h`.
pub open spec fn contains_seq(h: Seq<char>, n: Seq<char>) -> bool {
    exists|i: int| #[trigger] occurs_at(h, n, i)
}

/// The needle `n` occurs at `i` and nowhere earlier.
pub open spec fn first_occurrence_at(h: Seq<char>, n: Seq<char>, i: int) -> bool {
    occurs_at(h, n, i) && forall|j: int| 0 <= j < i ==> !occurs_at(h, n, j)
}

/// The position of the first occurrence of `n` in `h`, if any.
pub open spec fn spec_find_first(h: Seq<char>, n: Seq<char>) -> Option<int> {
    if contains_seq(h, n) {
        Some(choose|i: int| first_occurrence_at(h, n, i))
    } else {
        None
    }
}

proof fn lemma_first_occurrence_unique(h: Seq<char>, n: Seq<char>, i1: int, i2: int)
    requires
        first_occurrence_at(h, n, i1),
        first_occurrence_at(h, n, i2),
    ensures
        i1 == i2,
{
    if i1 < i2 {
        assert(!occurs_at(h, n, i1));
    }
    if i2 < i1 {
        assert(!occurs_at(h, n, i2));
    }
}

/// Whether `n` occurs in `h` at exactly position `i`.
fn match_at(h: &str, n: &str, i: usize, hn: usize, nn: usize) -> (r: bool)
    requires
        hn == h@.len(),
        nn == n@.len(),
        i + nn <= hn,
    ensures
        r == occurs_at(h@, n@, i as int),
{
    let mut k: usize = 0;
    while k < nn
        invariant
            hn == h@.len(),
            nn == n@.len(),
            i + nn <= hn,
            k <= nn,
            forall|l: int| 0 <= l < k ==> h@[i + l] == n@[l],
        decreases nn - k,
    {
        if h.get_char(i + k) != n.get_char(k) {
            proof {
                if occurs_at(h@, n@, i as int) {
                    assert(h@.subrange(i as int, i + nn as int)[k as int] == n@[k as int]);
                }
            }
            return false;
        }
        k = k + 1;
    }
    proof {
        assert(h@.subrange(i as int, i + nn as int) =~= n@);
    }
    true
}

/// The position of the first occurrence of `n` in `h`, if any: `Some(i)`
/// exactly when `n` occurs at `i` and nowhere earlier, `None` exactly
/// when `n` occurs nowhere in `h`.
pub fn find_substr(h: &str, n: &str) -> (r: Option<usize>)
    ensures
        match r {
            Some(i) => spec_find_first(h@, n@) == Some(i as int) && first_occurrence_at(
                h@,
                n@,
                i as int,
            ),
            None => spec_find_first(h@, n@) is None && !contains_seq(h@, n@),
        },
{
    let hn = h.unicode_len();
    let nn = n.unicode_len();
    if nn > hn {
        return None;
    }
    if nn == 0 {
        proof {
            assert(h@.subrange(0, 0) =~= n@);
            assert(first_occurrence_at(h@, n@, 0));
            let i0 = choose|j: int| first_occurrence_at(h@, n@, j);
            lemma_first_occurrence_unique(h@, n@, i0, 0);
        }
        return Some(0);
    }
    let mut i: usize = 0;
    while i <= hn - nn
        invariant
            hn == h@.len(),
            nn == n@.len(),
            0 < nn <= hn,
            i <= hn - nn + 1,
            forall|j: int| 0 <= j < i ==> !occurs_at(h@, n@, j),
        decreases hn - nn + 1 - i,
    {
        if match_at(h, n, i, hn, nn) {
            proof {
                assert(first_occurrence_at(h@, n@, i as int));
                let i0 = choose|j: int| first_occurrence_at(h@, n@, j);
                lemma_first_occurrence_unique(h@, n@, i0, i as int);
            }
            return Some(i);
        }
        i = i + 1;
    }
    None
}

/// Whether `n` occurs anywhere in `h`.
pub fn contains_substr(h: &str, n: &str) -> (r: bool)
    ensures
        r == contains_seq(h@, n@),
{
    match find_substr(h, n) {
        Some(_) => true,
        None => false,
    }
}

/// A decimal digit character.
pub open spec fn is_digit_char(c: char) -> bool {
    48 <= c as int && c as int <= 57
}

/// The numeric value of a decimal digit character.
pub open spec fn digit_val(c: char) -> int {
    c as int - 48
}

/// The value of a digit string read in base ten.
pub open spec fn digits_value(s: Seq<char>) -> int
    decreases s.len(),
{
    if s.len() == 0 {
        0
    } else {
        digits_value(s.drop_last()) * 10 + digit_val(s.last())
    }
}

/// Every character of `s` is a decimal digit.
pub open spec fn all_digits(s: Seq<char>) -> bool {
    forall|i: int| 0 <= i < s.len() ==> is_digit_char(#[trigger] s[i])
}

/// What parsing a signed decimal means: an optional `-` or `+` sign,
/// then one or more digits, with a value inside the `i16` range;
/// anything else parses to nothing.
pub open spec fn spec_parse_i16(s: Seq<char>) -> Option<i16> {
    let has_sign = s.len() > 0 && (s[0] == '-' || s[0] == '+');
    let neg = s.len() > 0 && s[0] == '-';
    let ds = if has_sign {
        s.subrange(1, s.len() as int)
    } else {
        s
    };
    if ds.len() == 0 || !all_digits(ds) {
        None
    } else {
        let v = if neg {
            -digits_value(ds)
        } else {
            digits_value(ds)
        };
        if i16::MIN <= v && v <= i16::MAX {
            Some(v as i16)
        } else {
            None
        }
    }
}

/// The digit accumulator, capped just above the `i16` magnitude range
/// so the exec parser can detect overflow without tracking full values.
spec fn cap33(v: int) -> int {
    if v > 33000 {
        33000
    } else {
        v
    }
}

proof fn lemma_digits_value_nonneg(s: Seq<char>)
    requires
        forall|i: int| 0 <= i < s.len() ==> is_digit_char(#[trigger] s[i]),
    ensures
        digits_value(s) >= 0,
    decreases s.len(),
{
    if s.len() > 0 {
        assert forall|i: int| 0 <= i < s.drop_last().len() implies is_digit_char(
            #[trigger] s.drop_last()[i],
        ) by {
            assert(s.drop_last()[i] == s[i]);
        }
        lemma_digits_value_nonneg(s.drop_last());
    }
}

/// Parse a signed decimal integer, exactly as `spec_parse_i16` says:
/// an optional sign, one or more digits, value within the `i16` range.
pub fn parse_i16(s: &str) -> (r: Option<i16>)
    ensures
        r == spec_parse_i16(s@),
{
    let len = s.unicode_len();
    if len == 0 {
        return None;
    }
    let c0 = s.get_char(0);
    let neg = c0 == '-';
    let start: usize = if c0 == '-' || c0 == '+' {
        1
    } else {
        0
    };
    if start >= len {
        return None;
    }
    let ghost ds = if start == 1 {
        s@.subrange(1, s@.len() as int)
    } else {
        s@
    };
    let mut i: usize = start;
    let mut val: u32 = 0;
    while i < len
        invariant
            len == s@.len(),
            start <= i <= len,
            start <= 1,
            start < len,
            neg == (s@[0] == '-'),
            (start == 1) == (s@[0] == '-' || s@[0] == '+'),
            ds == if start == 1 {
                s@.subrange(1, s@.len() as int)
            } else {
                s@
            },
            forall|j: int| start <= j < i ==> is_digit_char(#[trigger] s@[j]),
            val <= 33000,
            val as int == cap33(digits_value(s@.subrange(start as int, i as int))),
        decreases len - i,
    {
        let c = s.get_char(i);
        let u = c as u32;
        if u < 48 || u > 57 {
            proof {
                assert(!all_digits(ds)) by {
                    assert(0 <= i - start < ds.len());
                    assert(ds[i - start] == s@[i as int]);
                    assert(!is_digit_char(ds[i - start]));
                }
            }
            return None;
        }
        let d = u - 48;
        let ghost pre = s@.subrange(start as int, i as int);
        let ghost post = s@.subrange(start as int, i + 1 as int);
        proof {
            assert(post.drop_last() =~= pre);
            assert(post.last() == s@[i as int]);
            assert(digits_value(post) == digits_value(pre) * 10 + digit_val(s@[i as int]));
            assert forall|j: int| 0 <= j < pre.len() implies is_digit_char(
                #[trigger] pre[j],
            ) by {
                assert(pre[j] == s@[start + j]);
            }
            lemma_digits_value_nonneg(pre);
            if val == 33000 && digits_value(pre) >= 33000 {
                assert(digits_value(pre) * 10 >= 330000);
            }
        }
        if val < 33000 {
            let cand = val * 10 + d;
            val = if cand > 33000 {
                33000
            } else {
                cand
            };
        }
        i = i + 1;
    }
    proof {
        if start == 1 {
            assert(ds =~= s@.subrange(start as int, len as int));
        } else {
            assert(ds =~= s@.subrange(start as int, len as int));
        }
        assert forall|j: int| 0 <= j < ds.len() implies is_digit_char(#[trigger] ds[j]) by {
            assert(ds[j] == s@[start + j]);
        }
        lemma_digits_value_nonneg(ds);
        assert(val as int == cap33(digits_value(ds)));
    }
    let ghost m = digits_value(ds);
    if neg {
        if val <= 32768 {
            proof {
                assert(m == val as int);
            }
            let x: i32 = 0 - (val as i32);
            proof {
                assert(i16::MIN <= x <= i16::MAX);
            }
            Some(x as i16)
        } else {
            proof {
                assert(m > 32768);
            }
            None
        }
    } else {
        if val <= 32767 {
            proof {
                assert(m == val as int);
            }
            Some(val as i16)
        } else {
            proof {
                assert(m > 32767);
            }
            None
        }
    }
}

/// A whitespace character, for trimming the extracted value text.
pub open spec fn is_space(c: char) -> bool {
    c == ' ' || c == '\t' || c == '\r' || c == '\n'
}

/// `j` is the start of the line containing position `pos`: no newline
/// stands between `j` and `pos`, and `j` is the text's start or follows
/// a newline.
pub open spec fn line_start_at(s: Seq<char>, pos: int, j: int) -> bool {
    &&& 0 <= j <= pos
    &&& forall|l: int| j <= l < pos ==> s[l] != '\n'
    &&& (j == 0 || s[j - 1] == '\n')
}

/// The start of the line containing `pos`.
pub open spec fn spec_line_start(s: Seq<char>, pos: int) -> int {
    choose|j: int| line_start_at(s, pos, j)
}

/// `k` is the end of the line containing `pos`: the first newline at or
/// after `pos`, or the text's end.
pub open spec fn line_end_at(s: Seq<char>, pos: int, k: int) -> bool {
    &&& pos <= k <= s.len()
    &&& forall|l: int| pos <= l < k ==> s[l] != '\n'
    &&& (k == s.len() || s[k] == '\n')
}

/// The end of the line containing `pos`.
pub open spec fn spec_line_end(s: Seq<char>, pos: int) -> int {
    choose|k: int| line_end_at(s, pos, k)
}

/// `k` is the last position of `c` within `[lo, hi)` of `s`.
pub open spec fn last_char_at(s: Seq<char>, c: char, lo: int, hi: int, k: int) -> bool {
    &&& lo <= k < hi
    &&& s[k] == c
    &&& forall|l: int| k < l < hi ==> s[l] != c
}

/// The last position of `c` within `[lo, hi)` of `s`, if any.
pub open spec fn spec_last_char_in(s: Seq<char>, c: char, lo: int, hi: int) -> Option<int> {
    if exists|k: int| last_char_at(s, c, lo, hi, k) {
        Some(choose|k: int| last_char_at(s, c, lo, hi, k))
    } else {
        None
    }
}

/// `(a, b)` bounds `[lo, hi)` with surrounding whitespace removed; a
/// fully blank range trims to the empty range at `lo`.
pub open spec fn trim_bounds_at(s: Seq<char>, lo: int, hi: int, a: int, b: int) -> bool {
    &&& lo <= a <= b <= hi
    &&& forall|l: int| lo <= l < a ==> is_space(s[l])
    &&& forall|l: int| b <= l < hi ==> is_space(s[l])
    &&& (a == b ==> a == lo)
    &&& (a < b ==> !is_space(s[a]) && !is_space(s[b - 1]))
}

/// The bounds of `[lo, hi)` with surrounding whitespace removed.
pub open spec fn spec_trim_bounds(s: Seq<char>, lo: int, hi: int) -> (int, int) {
    choose|a: int, b: int| trim_bounds_at(s, lo, hi, a, b)
}

proof fn lemma_line_start_unique(s: Seq<char>, pos: int, j1: int, j2: int)
    requires
        line_start_at(s, pos, j1),
        line_start_at(s, pos, j2),
    ensures
        j1 == j2,
{
    if j1 < j2 {
        assert(s[j2 - 1] != '\n');
    }
    if j2 < j1 {
        assert(s[j1 - 1] != '\n');
    }
}

proof fn lemma_line_end_unique(s: Seq<char>, pos: int, k1: int, k2: int)
    requires
        line_end_at(s, pos, k1),
        line_end_at(s, pos, k2),
    ensures
        k1 == k2,
{
    if k1 < k2 {
        assert(s[k1] != '\n');
    }
    if k2 < k1 {
        assert(s[k2] != '\n');
    }
}

proof fn lemma_last_char_unique(s: Seq<char>, c: char, lo: int, hi: int, k1: int, k2: int)
    requires
        last_char_at(s, c, lo, hi, k1),
        last_char_at(s, c, lo, hi, k2),
    ensures
        k1 == k2,
{
    if k1 < k2 {
        assert(s[k2] != c);
    }
    if k2 < k1 {
        assert(s[k1] != c);
    }
}

proof fn lemma_trim_bounds_unique(
    s: Seq<char>,
    lo: int,
    hi: int,
    a1: int,
    b1: int,
    a2: int,
    b2: int,
)
    requires
        trim_bounds_at(s, lo, hi, a1, b1),
        trim_bounds_at(s, lo, hi, a2, b2),
    ensures
        a1 == a2,
        b1 == b2,
{
    if a1 == b1 && a2 < b2 {
        assert(is_space(s[a2]));
    }
    if a2 == b2 && a1 < b1 {
        assert(is_space(s[a1]));
    }
    if a1 < b1 && a2 < b2 {
        if a1 < a2 {
            assert(is_space(s[a1]));
        }
        if a2 < a1 {
            assert(is_space(s[a2]));
        }
        if b1 < b2 {
            assert(is_space(s[b2 - 1]));
        }
        if b2 < b1 {
            assert(is_space(s[b1 - 1]));
        }
    }
}

/// The start of the line containing `pos`.
fn line_start_before(s: &str, pos: usize, len: usize) -> (lo: usize)
    requires
        len == s@.len(),
        pos <= len,
    ensures
        line_start_at(s@, pos as int, lo as int),
{
    let mut j = pos;
    while j > 0
        invariant
            len == s@.len(),
            pos <= len,
            j <= pos,
            forall|l: int| j <= l < pos ==> s@[l] != '\n',
        decreases j,
    {
        if s.get_char(j - 1) == '\n' {
            return j;
        }
        j = j - 1;
    }
    0
}

/// The end of the line containing `pos`.
fn line_end_from(s: &str, pos: usize, len: usize) -> (hi: usize)
    requires
        len == s@.len(),
        pos <= len,
    ensures
        line_end_at(s@, pos as int, hi as int),
{
    let mut k = pos;
    while k < len
        invariant
            len == s@.len(),
            pos <= k <= len,
            forall|l: int| pos <= l < k ==> s@[l] != '\n',
        decreases len - k,
    {
        if s.get_char(k) == '\n' {
            return k;
        }
        k = k + 1;
    }
    len
}

/// The last position of `c` within `[lo, hi)`, if any.
fn last_char_in(s: &str, c: char, lo: usize, hi: usize, len: usize) -> (r: Option<usize>)
    requires
        len == s@.len(),
        lo <= hi <= len,
    ensures
        match r {
            Some(k) => last_char_at(s@, c, lo as int, hi as int, k as int),
            None => forall|l: int| lo <= l < hi ==> s@[l] != c,
        },
{
    let mut k = hi;
    while k > lo
        invariant
            len == s@.len(),
            lo <= k <= hi <= len,
            forall|l: int| k <= l < hi ==> s@[l] != c,
        decreases k,
    {
        if s.get_char(k - 1) == c {
            return Some(k - 1);
        }
        k = k - 1;
    }
    None
}

/// Whether `c` counts as whitespace for trimming.
fn is_space_char(c: char) -> (r: bool)
    ensures
        r == is_space(c),
{
    c == ' ' || c == '\t' || c == '\r' || c == '\n'
}

/// The first non-whitespace position in `[lo, hi)`, or `hi`.
fn first_non_space(s: &str, lo: usize, hi: usize, len: usize) -> (a: usize)
    requires
        len == s@.len(),
        lo <= hi <= len,
    ensures
        lo <= a <= hi,
        forall|l: int| lo <= l < a ==> is_space(s@[l]),
        a < hi ==> !is_space(s@[a as int]),
{
    let mut j = lo;
    while j < hi
        invariant
            len == s@.len(),
            lo <= j <= hi <= len,
            forall|l: int| lo <= l < j ==> is_space(s@[l]),
        decreases hi - j,
    {
        if !is_space_char(s.get_char(j)) {
            return j;
        }
        j = j + 1;
    }
    hi
}

/// One past the last non-whitespace position in `[lo, hi)`, or `lo`.
fn after_last_non_space(s: &str, lo: usize, hi: usize, len: usize) -> (b: usize)
    requires
        len == s@.len(),
        lo <= hi <= len,
    ensures
        lo <= b <= hi,
        forall|l: int| b <= l < hi ==> is_space(s@[l]),
        b > lo ==> !is_space(s@[b - 1]),
{
    let mut k = hi;
    while k > lo
        invariant
            len == s@.len(),
            lo <= k <= hi <= len,
            forall|l: int| k <= l < hi ==> is_space(s@[l]),
        decreases k,
    {
        if !is_space_char(s.get_char(k - 1)) {
            return k;
        }
        k = k - 1;
    }
    lo
}

/// The bounds of `[lo, hi)` with surrounding whitespace removed.
fn trim_in(s: &str, lo: usize, hi: usize, len: usize) -> (r: (usize, usize))
    requires
        len == s@.len(),
        lo <= hi <= len,
    ensures
        trim_bounds_at(s@, lo as int, hi as int, r.0 as int, r.1 as int),
{
    let a = first_non_space(s, lo, hi, len);
    if a == hi {
        return (lo, lo);
    }
    let b = after_last_non_space(s, a, hi, len);
    proof {
        assert(b != a);
    }
    (a, b)
}

/// What the connection-status query's output means: connected exactly
/// when it announces `Connected: yes` and does not announce
/// `not available`.
pub open spec fn spec_confirms_connected(out: Seq<char>) -> bool {
    contains_seq(out, "Connected: yes"@) && !contains_seq(out, "not available"@)
}

/// Decide from the status tool's output whether the device is actually
/// connected.
pub fn confirms_connected(out: &str) -> (r: bool)
    ensures
        r == spec_confirms_connected(out@),
{
    contains_substr(out, "Connected: yes") && !contains_substr(out, "not available")
}

/// What the connect command's output means: success exactly when it
/// announces `Connection successful`, or reports the device as
/// connected without declaring it `not available`.
pub open spec fn spec_connect_success(out: Seq<char>) -> bool {
    contains_seq(out, "Connection successful"@) || (contains_seq(out, "Connected: yes"@)
        && !contains_seq(out, "not available"@))
}

/// Decide from the connect command's output whether the connection
/// attempt succeeded.
pub fn connect_indicates_success(out: &str) -> (r: bool)
    ensures
        r == spec_connect_success(out@),
{
    if contains_substr(out, "Connection successful") {
        true
    } else {
        contains_substr(out, "Connected: yes") && !contains_substr(out, "not available")
    }
}

/// What the signal query's output means: find the first line announcing
/// `RSSI return value:`, take that line's text after its last colon,
/// trim whitespace, and parse it as a signed decimal; nothing is
/// reported when the announcement is absent or the value text is
/// malformed.
pub open spec fn spec_rssi_value(out: Seq<char>) -> Option<i16> {
    match spec_find_first(out, "RSSI return value:"@) {
        None => None,
        Some(m) => {
            let lo = spec_line_start(out, m);
            let hi = spec_line_end(out, m);
            let vstart = match spec_last_char_in(out, ':', lo, hi) {
                Some(k) => k + 1,
                None => lo,
            };
            let (a, b) = spec_trim_bounds(out, vstart, hi);
            spec_parse_i16(out.subrange(a, b))
        },
    }
}

/// Extract the reported signal value from the signal query's output,
/// exactly as `spec_rssi_value` says.
pub fn rssi_from_probe_output(out: &str) -> (r: Option<i16>)
    ensures
        r == spec_rssi_value(out@),
{
    let len = out.unicode_len();
    match find_substr(out, "RSSI return value:") {
        None => None,
        Some(m) => {
            let lo = line_start_before(out, m, len);
            let hi = line_end_from(out, m, len);
            let colon = last_char_in(out, ':', lo, hi, len);
            let vstart: usize = match colon {
                Some(k) => k + 1,
                None => lo,
            };
            let ab = trim_in(out, vstart, hi, len);
            let vs = out.substring_char(ab.0, ab.1);
            let r = parse_i16(vs);
            proof {
                let lo_s = spec_line_start(out@, m as int);
                lemma_line_start_unique(out@, m as int, lo_s, lo as int);
                let hi_s = spec_line_end(out@, m as int);
                lemma_line_end_unique(out@, m as int, hi_s, hi as int);
                match colon {
                    Some(k) => {
                        let k_s = choose|j: int|
                            last_char_at(out@, ':', lo as int, hi as int, j);
                        lemma_last_char_unique(
                            out@,
                            ':',
                            lo as int,
                            hi as int,
                            k_s,
                            k as int,
                        );
                        assert(spec_last_char_in(out@, ':', lo as int, hi as int) == Some(
                            k as int,
                        ));
                    },
                    None => {
                        assert(spec_last_char_in(out@, ':', lo as int, hi as int) is None);
                    },
                }
                let (a_s, b_s) = spec_trim_bounds(out@, vstart as int, hi as int);
                lemma_trim_bounds_unique(
                    out@,
                    vstart as int,
                    hi as int,
                    a_s,
                    b_s,
                    ab.0 as int,
                    ab.1 as int,
                );
                assert(vs@ == out@.subrange(ab.0 as int, ab.1 as int));
            }
            r
        },
    }
}

} // verus!
