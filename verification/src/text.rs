//! Text helpers: UTF-8 conversion of received bytes, whitespace trimming,
//! and lower-case hexadecimal rendering of byte strings.

use vstd::prelude::*;
use vstd::string::StrSliceExecFns;
use vstd::utf8::{
    decode_utf8, encode_utf8, encode_utf8_decode_utf8, encode_utf8_valid_utf8, is_ascii_chars,
    is_ascii_chars_encode_utf8, valid_utf8,
};

verus! {

/// `String::from_utf8` of std.
///
/// Claimed of it: it succeeds exactly on the byte strings that are valid
/// UTF-8 (std: "Returns `Err` if the slice is not UTF-8"), and the string it
/// returns holds the characters that the bytes encode. Validity and decoding
/// are stated with vstd's model of UTF-8 (`valid_utf8`, `decode_utf8`).
#[verifier::external_body]
pub(crate) fn string_from_utf8(bytes: Vec<u8>) -> (r: Option<String>)
    ensures
        r is Some <==> valid_utf8(bytes@),
        r matches Some(s) ==> s@ == decode_utf8(bytes@),
{
    String::from_utf8(bytes).ok()
}

/// Whether `c` is White_Space in the Unicode Character Database, which is
/// what `char::is_whitespace` and `str::trim` of std go by.
pub open spec fn is_unicode_whitespace(c: char) -> bool {
    let u = c as u32;
    ||| 0x09 <= u <= 0x0D
    ||| u == 0x20
    ||| u == 0x85
    ||| u == 0xA0
    ||| u == 0x1680
    ||| 0x2000 <= u <= 0x200A
    ||| u == 0x2028
    ||| u == 0x2029
    ||| u == 0x202F
    ||| u == 0x205F
    ||| u == 0x3000
}

/// `s` without its leading and trailing White_Space characters.
pub open spec fn trim_chars(s: Seq<char>) -> Seq<char>
    decreases s.len(),
{
    if s.len() == 0 {
        s
    } else if is_unicode_whitespace(s[0]) {
        trim_chars(s.drop_first())
    } else if is_unicode_whitespace(s.last()) {
        trim_chars(s.drop_last())
    } else {
        s
    }
}

/// Whether `c` is White_Space, as `char::is_whitespace` of std decides it.
pub fn is_whitespace_char(c: char) -> (r: bool)
    ensures
        r == is_unicode_whitespace(c),
{
    let u = c as u32;
    (0x09 <= u && u <= 0x0D) || u == 0x20 || u == 0x85 || u == 0xA0 || u == 0x1680 || (0x2000
        <= u && u <= 0x200A) || u == 0x2028 || u == 0x2029 || u == 0x202F || u == 0x205F || u
        == 0x3000
}

/// Once the first character is not whitespace, trimming both ends is
/// trimming the end.
proof fn lemma_trim_from_text(t: Seq<char>)
    requires
        t.len() == 0 || !is_unicode_whitespace(t[0]),
    ensures
        trim_chars(t) == trim_end_chars(t),
    decreases t.len(),
{
    if t.len() > 0 && is_unicode_whitespace(t.last()) {
        let d = t.drop_last();
        if d.len() > 0 {
            assert(d[0] == t[0]);
        }
        lemma_trim_from_text(d);
    }
}

/// `s` without its trailing White_Space characters, as `str::trim_end` of
/// std gives it.
pub fn str_trim_end(s: &str) -> (r: &str)
    ensures
        r@ == trim_end_chars(s@),
{
    let n = s.unicode_len();
    let mut end: usize = n;
    assert(s@.subrange(0, n as int) =~= s@);
    while end > 0 && is_whitespace_char(s.get_char(end - 1))
        invariant
            end <= n,
            n == s@.len(),
            trim_end_chars(s@) == trim_end_chars(s@.subrange(0, end as int)),
        decreases end,
    {
        let ghost t = s@.subrange(0, end as int);
        assert(t.drop_last() =~= s@.subrange(0, end - 1));
        end = end - 1;
    }
    assert(trim_end_chars(s@.subrange(0, end as int)) == s@.subrange(0, end as int));
    s.substring_char(0, end)
}

/// `s` without its leading and trailing White_Space characters, as
/// `str::trim` of std gives it.
pub fn str_trim(s: &str) -> (r: &str)
    ensures
        r@ == trim_chars(s@),
{
    let n = s.unicode_len();
    let mut start: usize = 0;
    assert(s@.subrange(0, n as int) =~= s@);
    while start < n && is_whitespace_char(s.get_char(start))
        invariant
            start <= n,
            n == s@.len(),
            trim_chars(s@) == trim_chars(s@.subrange(start as int, n as int)),
        decreases n - start,
    {
        let ghost t = s@.subrange(start as int, n as int);
        assert(t.drop_first() =~= s@.subrange(start + 1, n as int));
        start = start + 1;
    }
    let rest = s.substring_char(start, n);
    proof {
        lemma_trim_from_text(rest@);
    }
    str_trim_end(rest)
}

/// The lower-case hexadecimal digit of a value below 16.
pub open spec fn hex_digit_char(v: u8) -> char {
    if v < 10 {
        ((v + 48) as u8) as char
    } else {
        ((v + 87) as u8) as char
    }
}

/// Two lower-case hexadecimal digits per byte, high digit first.
pub open spec fn hex_lower(bytes: Seq<u8>) -> Seq<char> {
    Seq::new(
        2 * bytes.len(),
        |i: int|
            if i % 2 == 0 {
                hex_digit_char(bytes[i / 2] / 16)
            } else {
                hex_digit_char(bytes[i / 2] % 16)
            },
    )
}

fn hex_digit_byte(v: u8) -> (b: u8)
    requires
        v < 16,
    ensures
        b as char == hex_digit_char(v),
        b < 128,
{
    if v < 10 {
        v + 48
    } else {
        v + 87
    }
}

/// The bytes as lower-case hexadecimal, two digits per byte.
pub fn to_hex_lower(bytes: &[u8]) -> (s: String)
    requires
        bytes@.len() <= usize::MAX / 2,
    ensures
        s@ == hex_lower(bytes@),
{
    let mut out: Vec<u8> = Vec::new();
    let mut i: usize = 0;
    while i < bytes.len()
        invariant
            i <= bytes@.len(),
            out@.len() == 2 * i,
            forall|k: int| 0 <= k < 2 * i ==> (#[trigger] out@[k]) < 128,
            forall|k: int| 0 <= k < 2 * i ==> (#[trigger] out@[k]) as char == hex_lower(bytes@)[k],
        decreases bytes@.len() - i,
    {
        let b = bytes[i];
        let hi = hex_digit_byte(b / 16);
        let lo = hex_digit_byte(b % 16);
        out.push(hi);
        out.push(lo);
        i = i + 1;
        assert forall|k: int| 0 <= k < 2 * i implies (#[trigger] out@[k]) as char == hex_lower(
            bytes@,
        )[k] by {
            if k >= 2 * (i - 1) {
                assert(k / 2 == i - 1);
            }
        }
    }
    let ghost chars = hex_lower(bytes@);
    proof {
        assert(is_ascii_chars(chars)) by {
            assert forall|k: int| 0 <= k < chars.len() implies '\0' <= #[trigger] chars[k]
                <= '\u{7f}' by {
                assert(out@[k] < 128);
                assert(chars[k] == out@[k] as char);
            }
        }
        is_ascii_chars_encode_utf8(chars);
        assert(encode_utf8(chars) =~= out@) by {
            assert forall|k: int| 0 <= k < chars.len() implies encode_utf8(chars)[k] == out@[k] by {
                assert(out@[k] < 128);
                assert(chars[k] == out@[k] as char);
                assert(chars[k] as u8 == encode_utf8(chars)[k]);
            }
        }
        encode_utf8_valid_utf8(chars);
        encode_utf8_decode_utf8(chars);
    }
    match string_from_utf8(out) {
        Some(s) => s,
        None => {
            proof {
                assert(false);
            }
            String::new()
        },
    }
}


/// `c` with an ASCII upper-case letter turned to lower case.
pub open spec fn ascii_lower(c: char) -> char {
    if 'A' <= c <= 'Z' {
        ((c as u32) + 32) as char
    } else {
        c
    }
}

/// Whether two texts are equal up to ASCII case, as `str::eq_ignore_ascii_case`
/// compares them when the second is ASCII.
pub open spec fn eq_ignore_case(a: Seq<char>, b: Seq<char>) -> bool {
    a.len() == b.len() && forall|i: int| 0 <= i < a.len() ==> ascii_lower(#[trigger] a[i])
        == ascii_lower(b[i])
}

fn lower_char(c: char) -> (r: char)
    ensures
        r == ascii_lower(c),
{
    if 'A' <= c && c <= 'Z' {
        ((c as u8) + 32) as char
    } else {
        c
    }
}

/// Compares two texts up to ASCII case.
pub fn eq_ignore_ascii_case(a: &str, b: &str) -> (r: bool)
    ensures
        r == eq_ignore_case(a@, b@),
{
    let n = a.unicode_len();
    if n != b.unicode_len() {
        return false;
    }
    let mut i: usize = 0;
    while i < n
        invariant
            i <= n,
            n == a@.len(),
            n == b@.len(),
            forall|j: int| 0 <= j < i ==> ascii_lower(#[trigger] a@[j]) == ascii_lower(b@[j]),
        decreases n - i,
    {
        if lower_char(a.get_char(i)) != lower_char(b.get_char(i)) {
            return false;
        }
        i = i + 1;
    }
    true
}


/// Whether `s` begins with `prefix`.
pub open spec fn starts_with_spec(s: Seq<char>, prefix: Seq<char>) -> bool {
    prefix.len() <= s.len() && s.take(prefix.len() as int) == prefix
}

/// Whether `s` begins with `prefix`, character by character.
pub fn starts_with(s: &str, prefix: &str) -> (r: bool)
    ensures
        r == starts_with_spec(s@, prefix@),
{
    let n = s.unicode_len();
    let m = prefix.unicode_len();
    if m > n {
        return false;
    }
    let mut i: usize = 0;
    while i < m
        invariant
            i <= m,
            m <= n,
            n == s@.len(),
            m == prefix@.len(),
            forall|j: int| 0 <= j < i ==> s@[j] == prefix@[j],
        decreases m - i,
    {
        if s.get_char(i) != prefix.get_char(i) {
            assert(s@.take(m as int)[i as int] != prefix@[i as int]);
            return false;
        }
        i = i + 1;
    }
    assert(s@.take(m as int) =~= prefix@);
    true
}

/// Whether two texts are equal, character by character.
pub fn same_text(a: &str, b: &str) -> (r: bool)
    ensures
        r == (a@ == b@),
{
    if a.unicode_len() != b.unicode_len() {
        return false;
    }
    let r = starts_with(a, b);
    proof {
        if r {
            assert(a@ =~= a@.take(b@.len() as int));
        } else if a@ == b@ {
            assert(a@.take(b@.len() as int) =~= b@);
        }
    }
    r
}

/// `s` without its trailing White_Space characters.
pub open spec fn trim_end_chars(s: Seq<char>) -> Seq<char>
    decreases s.len(),
{
    if s.len() > 0 && is_unicode_whitespace(s.last()) {
        trim_end_chars(s.drop_last())
    } else {
        s
    }
}


} // verus!
