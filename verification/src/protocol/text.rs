//! Byte and text helpers shared by the response parsers: trimming, searching,
//! and the conversions from device bytes to text.

use vstd::prelude::*;
use vstd::slice::slice_subrange;
use vstd::utf8::decode_utf8;
use vstd::utf8::valid_utf8;
use vstd::string::StringExecFns;
use vstd::string::StrSliceExecFns;

use crate::protocol::builder::{decimal, digits};

verus! {

/// The bytes that the protocol treats as padding around a response body.
pub open spec fn is_pad_byte(b: u8) -> bool {
    b == 0x0du8 || b == 0x0au8 || b == 0x20u8
}

/// Number of leading padding bytes.
pub open spec fn pad_start(b: Seq<u8>) -> int
    decreases b.len(),
{
    if b.len() == 0 {
        0
    } else if is_pad_byte(b[0]) {
        1 + pad_start(b.drop_first())
    } else {
        0
    }
}

/// Length of `b` without its trailing padding bytes.
pub open spec fn pad_end(b: Seq<u8>) -> int
    decreases b.len(),
{
    if b.len() == 0 {
        0
    } else if is_pad_byte(b.last()) {
        pad_end(b.drop_last())
    } else {
        b.len() as int
    }
}

/// `b` without leading and trailing CR, LF and space bytes.
pub open spec fn trim_pad(b: Seq<u8>) -> Seq<u8> {
    if pad_start(b) >= pad_end(b) {
        Seq::empty()
    } else {
        b.subrange(pad_start(b), pad_end(b))
    }
}

/// Strip leading/trailing CR, LF and space bytes.
pub fn trim_bytes(b: &[u8]) -> (r: &[u8])
    ensures
        r@ == trim_pad(b@),
{
    let n = b.len();
    let mut start: usize = 0;
    proof {
        assert(b@.skip(0) =~= b@);
        assert(b@.take(n as int) =~= b@);
    }
    while start < n && (b[start] == 0x0d || b[start] == 0x0a || b[start] == 0x20)
        invariant
            n == b@.len(),
            0 <= start <= n,
            pad_start(b@) == start + pad_start(b@.skip(start as int)),
        decreases n - start,
    {
        proof {
            assert(b@.skip(start as int).drop_first() =~= b@.skip(start + 1));
            assert(b@.skip(start as int)[0] == b@[start as int]);
        }
        start = start + 1;
    }
    proof {
        if start < n {
            assert(b@.skip(start as int)[0] == b@[start as int]);
        }
    }
    let mut end: usize = n;
    while end > 0 && (b[end - 1] == 0x0d || b[end - 1] == 0x0a || b[end - 1] == 0x20)
        invariant
            n == b@.len(),
            0 <= end <= n,
            pad_end(b@) == pad_end(b@.take(end as int)),
        decreases end,
    {
        proof {
            assert(b@.take(end as int).drop_last() =~= b@.take(end - 1));
        }
        end = end - 1;
    }
    proof {
        assert(b@.take(n as int) =~= b@);
        if end > 0 {
            assert(b@.take(end as int).last() == b@[end - 1]);
        }
    }
    if start >= end {
        proof {
            assert(b@.subrange(0, 0) =~= Seq::<u8>::empty());
        }
        slice_subrange(b, 0, 0)
    } else {
        slice_subrange(b, start, end)
    }
}

/// Position of the first occurrence of `x` in `b`, if any.
pub fn find_byte(b: &[u8], x: u8) -> (r: Option<usize>)
    ensures
        match r {
            Some(i) => b@.index_of_first(x) == Some(i as int),
            None => b@.index_of_first(x) is None,
        },
{
    proof {
        b@.index_of_first_ensures(x);
    }
    let mut i: usize = 0;
    while i < b.len()
        invariant
            0 <= i <= b@.len(),
            forall|j: int| 0 <= j < i ==> b@[j] != x,
        decreases b@.len() - i,
    {
        if b[i] == x {
            proof {
                b@.index_of_first_ensures(x);
                assert(b@.contains(x));
            }
            return Some(i);
        }
        i = i + 1;
    }
    proof {
        if b@.contains(x) {
            let k = choose|k: int| 0 <= k < b@.len() && b@[k] == x;
            assert(b@[k] != x);
        }
    }
    None
}

/// A character with the Unicode `White_Space` property.
pub open spec fn is_unicode_whitespace(c: char) -> bool {
    let u = c as u32;
    ||| 0x09 <= u <= 0x0d
    ||| u == 0x20
    ||| u == 0x85
    ||| u == 0xa0
    ||| u == 0x1680
    ||| 0x2000 <= u <= 0x200a
    ||| u == 0x2028
    ||| u == 0x2029
    ||| u == 0x202f
    ||| u == 0x205f
    ||| u == 0x3000
}

/// Number of leading whitespace characters.
pub open spec fn ws_start(s: Seq<char>) -> int
    decreases s.len(),
{
    if s.len() == 0 {
        0
    } else if is_unicode_whitespace(s[0]) {
        1 + ws_start(s.drop_first())
    } else {
        0
    }
}

/// Length of `s` without its trailing whitespace.
pub open spec fn ws_end(s: Seq<char>) -> int
    decreases s.len(),
{
    if s.len() == 0 {
        0
    } else if is_unicode_whitespace(s.last()) {
        ws_end(s.drop_last())
    } else {
        s.len() as int
    }
}

/// `s` without leading and trailing Unicode whitespace.
pub open spec fn trim_ws(s: Seq<char>) -> Seq<char> {
    if ws_start(s) >= ws_end(s) {
        Seq::empty()
    } else {
        s.subrange(ws_start(s), ws_end(s))
    }
}

/// The text that `String::from_utf8_lossy` decodes from `bytes` (invalid
/// sequences replaced by U+FFFD).
pub uninterp spec fn utf8_lossy(bytes: Seq<u8>) -> Seq<char>;

/// Calls `String::from_utf8_lossy`. Claims that the result is a function of
/// the bytes alone, and, as its documentation states, that valid UTF-8 is
/// decoded unchanged.
#[verifier::external_body]
pub(crate) fn bytes_to_text(bytes: &[u8]) -> (s: String)
    ensures
        s@ == utf8_lossy(bytes@),
        valid_utf8(bytes@) ==> s@ == decode_utf8(bytes@),
{
    String::from_utf8_lossy(bytes).into_owned()
}

/// Whether `c` has the Unicode `White_Space` property.
fn is_whitespace_char(c: char) -> (r: bool)
    ensures
        r == is_unicode_whitespace(c),
{
    let u = c as u32;
    (0x09 <= u && u <= 0x0d) || u == 0x20 || u == 0x85 || u == 0xa0 || u == 0x1680 || (0x2000 <= u
        && u <= 0x200a) || u == 0x2028 || u == 0x2029 || u == 0x202f || u == 0x205f || u == 0x3000
}

/// `s` without leading and trailing Unicode whitespace, as `str::trim` gives it.
pub(crate) fn trim_text(s: &str) -> (r: &str)
    ensures
        r@ == trim_ws(s@),
{
    let n = s.unicode_len();
    let mut start: usize = 0;
    proof {
        assert(s@.skip(0) =~= s@);
        assert(s@.take(n as int) =~= s@);
    }
    while start < n && is_whitespace_char(s.get_char(start))
        invariant
            n == s@.len(),
            0 <= start <= n,
            ws_start(s@) == start + ws_start(s@.skip(start as int)),
        decreases n - start,
    {
        proof {
            assert(s@.skip(start as int).drop_first() =~= s@.skip(start + 1));
            assert(s@.skip(start as int)[0] == s@[start as int]);
        }
        start = start + 1;
    }
    proof {
        if start < n {
            assert(s@.skip(start as int)[0] == s@[start as int]);
        }
    }
    let mut end: usize = n;
    while end > 0 && is_whitespace_char(s.get_char(end - 1))
        invariant
            n == s@.len(),
            0 <= end <= n,
            ws_end(s@) == ws_end(s@.take(end as int)),
        decreases end,
    {
        proof {
            assert(s@.take(end as int).drop_last() =~= s@.take(end - 1));
        }
        end = end - 1;
    }
    proof {
        if end > 0 {
            assert(s@.take(end as int).last() == s@[end - 1]);
        }
    }
    if start >= end {
        proof {
            assert(s@.subrange(0, 0) =~= Seq::<char>::empty());
        }
        s.substring_char(0, 0)
    } else {
        s.substring_char(start, end)
    }
}

/// Copies a string slice into an owned `String`.
pub(crate) fn text_to_string(s: &str) -> (r: String)
    ensures
        r@ == s@,
{
    broadcast use vstd::string::group_string_axioms;

    s.to_string()
}


/// Characters of the ASCII decimal representation of `i`.
pub open spec fn decimal_text(i: int) -> Seq<char> {
    decimal(i).map_values(|b: u8| b as char)
}

/// The one-character text of the decimal digit `d`.
fn digit_text(d: u8) -> (s: &'static str)
    requires
        d <= 9,
    ensures
        s@ == seq![(0x30 + d) as u8 as char],
{
    match d {
        0 => {
            proof {
                reveal_strlit("0");
            }
            "0"
        },
        1 => {
            proof {
                reveal_strlit("1");
            }
            "1"
        },
        2 => {
            proof {
                reveal_strlit("2");
            }
            "2"
        },
        3 => {
            proof {
                reveal_strlit("3");
            }
            "3"
        },
        4 => {
            proof {
                reveal_strlit("4");
            }
            "4"
        },
        5 => {
            proof {
                reveal_strlit("5");
            }
            "5"
        },
        6 => {
            proof {
                reveal_strlit("6");
            }
            "6"
        },
        7 => {
            proof {
                reveal_strlit("7");
            }
            "7"
        },
        8 => {
            proof {
                reveal_strlit("8");
            }
            "8"
        },
        _ => {
            proof {
                reveal_strlit("9");
            }
            "9"
        },
    }
}

fn push_digits_text(s: &mut String, n: u64)
    ensures
        final(s)@ == old(s)@ + digits(n as nat).map_values(|b: u8| b as char),
    decreases n,
{
    if n >= 10 {
        push_digits_text(s, n / 10);
    }
    s.append(digit_text((n % 10) as u8));
    proof {
        let d = digits(n as nat);
        if n >= 10 {
            assert(d.map_values(|b: u8| b as char) =~= digits((n / 10) as nat).map_values(
                |b: u8| b as char,
            ).push((0x30 + n % 10) as u8 as char));
        } else {
            assert(d.map_values(|b: u8| b as char) =~= seq![(0x30 + n % 10) as u8 as char]);
        }
    }
}

/// Appends the decimal representation of `v`.
pub(crate) fn push_decimal_text(s: &mut String, v: i64)
    requires
        v > i64::MIN,
    ensures
        final(s)@ == old(s)@ + decimal_text(v as int),
{
    if v < 0 {
        proof {
            reveal_strlit("-");
        }
        s.append("-");
        push_digits_text(s, (-v) as u64);
        proof {
            let d = digits((-v) as nat);
            assert((seq![0x2du8] + d).map_values(|b: u8| b as char) =~= seq!['-'] + d.map_values(
                |b: u8| b as char,
            ));
            assert(old(s)@ + seq!['-'] + d.map_values(|b: u8| b as char) =~= old(s)@ + (seq!['-']
                + d.map_values(|b: u8| b as char)));
        }
    } else {
        push_digits_text(s, v as u64);
    }
}

/// The characters of a text, in order.
pub(crate) fn text_chars(s: &str) -> (r: Vec<char>)
    ensures
        r@ == s@,
{
    let n = s.unicode_len();
    let mut out: Vec<char> = Vec::new();
    let mut i: usize = 0;
    while i < n
        invariant
            n == s@.len(),
            0 <= i <= n,
            out@ == s@.take(i as int),
        decreases n - i,
    {
        out.push(s.get_char(i));
        proof {
            assert(s@.take(i + 1) =~= s@.take(i as int).push(s@[i as int]));
        }
        i = i + 1;
    }
    proof {
        assert(s@.take(n as int) =~= s@);
    }
    out
}

/// `pat` occurs in `s` at position `i`.
pub open spec fn occurs_at(s: Seq<char>, pat: Seq<char>, i: int) -> bool {
    0 <= i && i + pat.len() <= s.len() && s.subrange(i, i + pat.len()) == pat
}

/// `pat` occurs somewhere in `s`.
pub open spec fn contains_text(s: Seq<char>, pat: Seq<char>) -> bool {
    exists|i: int| occurs_at(s, pat, i)
}

/// Whether `pat` occurs in `s`.
pub(crate) fn text_contains(s: &str, pat: &str) -> (r: bool)
    ensures
        r == contains_text(s@, pat@),
{
    let sc = text_chars(s);
    let pc = text_chars(pat);
    let n = sc.len();
    let m = pc.len();
    if m > n {
        proof {
            assert forall|i: int| !occurs_at(s@, pat@, i) by {}
        }
        return false;
    }
    let mut i: usize = 0;
    while i <= n - m
        invariant
            sc@ == s@,
            pc@ == pat@,
            n == sc@.len(),
            m == pc@.len(),
            m <= n,
            0 <= i <= n - m + 1,
            forall|k: int| 0 <= k < i ==> !occurs_at(s@, pat@, k),
        decreases n - m + 1 - i,
    {
        let mut j: usize = 0;
        let mut same = true;
        while j < m
            invariant
                sc@ == s@,
                pc@ == pat@,
                n == sc@.len(),
                m == pc@.len(),
                i + m <= n,
                0 <= j <= m,
                same == (forall|k: int| 0 <= k < j ==> sc@[i + k] == pc@[k]),
            decreases m - j,
        {
            if sc[i + j] != pc[j] {
                same = false;
            }
            j = j + 1;
        }
        if same {
            proof {
                assert(s@.subrange(i as int, i + m) =~= pat@);
                assert(occurs_at(s@, pat@, i as int));
            }
            return true;
        }
        proof {
            assert(!occurs_at(s@, pat@, i as int)) by {
                if occurs_at(s@, pat@, i as int) {
                    assert forall|k: int| 0 <= k < m implies sc@[i + k] == pc@[k] by {
                        assert(s@.subrange(i as int, i + m)[k] == sc@[i + k]);
                    }
                }
            }
        }
        i = i + 1;
    }
    proof {
        assert forall|k: int| !occurs_at(s@, pat@, k) by {
            if occurs_at(s@, pat@, k) {
                assert(k < i);
            }
        }
    }
    false
}


/// An ASCII decimal digit character.
pub open spec fn is_digit_char(c: char) -> bool {
    '0' <= c <= '9'
}

/// The value of a sequence of decimal digit characters.
pub open spec fn digits_value(ds: Seq<char>) -> int
    decreases ds.len(),
{
    if ds.len() == 0 {
        0
    } else {
        digits_value(ds.drop_last()) * 10 + (ds.last() as int - 0x30)
    }
}

/// The digits part of an unsigned number: the text after an optional `+`.
pub open spec fn unsigned_digits(s: Seq<char>) -> Seq<char> {
    if s.len() > 0 && s[0] == '+' {
        s.skip(1)
    } else {
        s
    }
}

/// Every character is a decimal digit.
pub open spec fn all_digits(ds: Seq<char>) -> bool {
    forall|i: int| 0 <= i < ds.len() ==> is_digit_char(#[trigger] ds[i])
}

/// What `str::parse::<u32>` accepts: an optional `+` followed by one or more
/// decimal digits whose value fits in 32 bits.
pub open spec fn parse_u32_spec(s: Seq<char>) -> Option<u32> {
    let ds = unsigned_digits(s);
    if ds.len() == 0 || !all_digits(ds) || digits_value(ds) > u32::MAX {
        None
    } else {
        Some(digits_value(ds) as u32)
    }
}

/// Parses an unsigned 32-bit decimal number, as `str::parse::<u32>` does.
pub(crate) fn parse_u32(s: &str) -> (r: Option<u32>)
    ensures
        r == parse_u32_spec(s@),
{
    let cs = text_chars(s);
    let n = cs.len();
    let start: usize = if n > 0 && cs[0] == '+' {
        1
    } else {
        0
    };
    let ghost ds = unsigned_digits(s@);
    proof {
        assert(ds =~= cs@.skip(start as int));
    }
    if start == n {
        proof {
            assert(ds.len() == 0);
        }
        return None;
    }
    // `acc` holds the value of the digits so far, capped just above u32::MAX.
    let mut acc: u64 = 0;
    let mut i: usize = start;
    while i < n
        invariant
            cs@ == s@,
            n == cs@.len(),
            start <= i <= n,
            ds == cs@.skip(start as int),
            ds == unsigned_digits(s@),
            forall|k: int| 0 <= k < i - start ==> is_digit_char(#[trigger] ds[k]),
            acc as int == if digits_value(ds.take(i - start)) > u32::MAX {
                u32::MAX + 1
            } else {
                digits_value(ds.take(i - start))
            },
        decreases n - i,
    {
        let c = cs[i];
        if !('0' <= c && c <= '9') {
            proof {
                assert(ds.len() == n - start);
                assert(ds[i - start] == cs@[i as int]);
                assert(!all_digits(ds));
            }
            return None;
        }
        let d = (c as u32 - 0x30) as u64;
        proof {
            let t = ds.take(i + 1 - start);
            assert(t.drop_last() =~= ds.take(i - start));
            assert(t.last() == c);
        }
        if acc <= 0xffff_ffff {
            let next = acc * 10 + d;
            acc = if next > 0xffff_ffff {
                0x1_0000_0000
            } else {
                next
            };
        }
        i = i + 1;
    }
    proof {
        assert(ds.take(n - start) =~= ds);
    }
    if acc > 0xffff_ffff {
        None
    } else {
        Some(acc as u32)
    }
}

/// The text that `format!("{:?}", s)` produces for a string: the quoted,
/// escaped form.
pub uninterp spec fn debug_quoted(s: Seq<char>) -> Seq<char>;

/// Calls the `Debug` formatting of `str` (through `format!`). Claims only
/// that the result is a function of the text.
#[verifier::external_body]
pub(crate) fn debug_text(s: &str) -> (r: String)
    ensures
        r@ == debug_quoted(s@),
{
    format!("{:?}", s)
}

} // verus!
