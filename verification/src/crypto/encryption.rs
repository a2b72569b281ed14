//! Authenticated encryption of chunks with ChaCha20-Poly1305, random keys
//! and nonces, and keys written as hexadecimal text.

use crate::text::{str_trim, trim_chars};
use chacha20poly1305::aead::{Aead, KeyInit};
use chacha20poly1305::ChaCha20Poly1305;
use crate::random::fill_random;
use vstd::prelude::*;
use vstd::utf8::{encode_utf8, is_char_boundary};

verus! {

pub const KEY_SIZE: usize = 32;

pub const NONCE_SIZE: usize = 12;

pub const TAG_SIZE: usize = 16;

/// The ChaCha20-Poly1305 ciphertext (with its 16-byte tag appended) of
/// `plaintext` under `key` and `nonce`, as the `chacha20poly1305` crate
/// computes it.
pub uninterp spec fn chacha20poly1305_seal(key: Seq<u8>, nonce: Seq<u8>, plaintext: Seq<u8>) -> Seq<
    u8,
>;

/// Whether a message of `n` bytes fits the ChaCha20 keystream left after the
/// block that keys Poly1305: at most `u32::MAX - 1` blocks of 64 bytes.
pub open spec fn aead_len_ok(n: nat) -> bool {
    n <= 0xFFFF_FFFE * 64
}

/// Whether the cipher refuses a message of `n` bytes up front, with an
/// error: `u32::MAX` blocks or more.
pub open spec fn aead_len_refused(n: nat) -> bool {
    n / 64 >= 0xFFFF_FFFF
}

/// Whether the cipher returns, rather than panics, on a message of `n`
/// bytes: the lengths in between pass its up-front check and then run out
/// of keystream, which panics.
pub open spec fn aead_len_handled(n: nat) -> bool {
    aead_len_ok(n) || aead_len_refused(n)
}

/// Whether `decrypt` returns on a ciphertext of `n` bytes: one shorter than
/// the tag is refused, and otherwise the message part must be handled.
pub open spec fn ciphertext_len_handled(n: nat) -> bool {
    n < TAG_SIZE || aead_len_handled((n - TAG_SIZE) as nat)
}


/// `ChaCha20Poly1305::encrypt` of the `chacha20poly1305` crate, without
/// associated data.
///
/// Claimed of it: on the lengths it returns on (it panics on those that pass
/// the block-count check of `encrypt_in_place_detached` but need more
/// keystream than is left after its first block), it fails exactly on the
/// lengths that check refuses, and otherwise returns the named ciphertext,
/// 16 bytes longer than the plaintext.
#[verifier::external_body]
fn chacha_encrypt(key: &[u8; 32], nonce: &[u8; 12], plaintext: &[u8]) -> (r: Option<Vec<u8>>)
    requires
        aead_len_handled(plaintext@.len()),
    ensures
        r is Some <==> aead_len_ok(plaintext@.len()),
        r matches Some(c) ==> c@ == chacha20poly1305_seal(key@, nonce@, plaintext@) && c@.len()
            == plaintext@.len() + 16,
{
    ChaCha20Poly1305::new(key.into()).encrypt(nonce.into(), plaintext).ok()
}

/// `ChaCha20Poly1305::decrypt` of the `chacha20poly1305` crate, without
/// associated data.
///
/// Claimed of it: what it returns encrypts back to the ciphertext it was
/// given (the tag was checked, and the keystream is the same both ways),
/// and a ciphertext that some plaintext of allowed length encrypts to is
/// decrypted to that plaintext. It panics when the tag verifies on a
/// message part of a length it neither refuses nor has keystream for, which
/// `requires` leaves out.
#[verifier::external_body]
fn chacha_decrypt(key: &[u8; 32], nonce: &[u8; 12], ciphertext: &[u8]) -> (r: Option<Vec<u8>>)
    requires
        ciphertext_len_handled(ciphertext@.len()),
    ensures
        r matches Some(p) ==> chacha20poly1305_seal(key@, nonce@, p@) == ciphertext@,
        r matches Some(q) ==> forall|p: Seq<u8>|
            aead_len_ok(p.len()) && #[trigger] chacha20poly1305_seal(key@, nonce@, p)
                == ciphertext@ ==> q@ == p,
        r is None ==> forall|p: Seq<u8>|
            aead_len_ok(p.len()) ==> #[trigger] chacha20poly1305_seal(key@, nonce@, p)
                != ciphertext@,
{
    ChaCha20Poly1305::new(key.into()).decrypt(nonce.into(), ciphertext).ok()
}

/// A fresh random key.
pub fn generate_key() -> [u8; KEY_SIZE] {
    let mut key = [0u8; KEY_SIZE];
    fill_random(&mut key);
    key
}

/// A fresh random nonce.
pub fn generate_nonce() -> [u8; NONCE_SIZE] {
    let mut nonce = [0u8; NONCE_SIZE];
    fill_random(&mut nonce);
    nonce
}

/// Encrypts `plaintext` under `key` with the given nonce.
pub fn encrypt_with_nonce(key: &[u8; KEY_SIZE], nonce: [u8; NONCE_SIZE], plaintext: &[u8]) -> (r:
    Result<(Vec<u8>, [u8; NONCE_SIZE]), String>)
    requires
        aead_len_handled(plaintext@.len()),
    ensures
        aead_len_ok(plaintext@.len()) ==> (r matches Ok((c, n)) && n == nonce && c@
            == chacha20poly1305_seal(key@, nonce@, plaintext@) && c@.len() == plaintext@.len()
            + TAG_SIZE),
        !aead_len_ok(plaintext@.len()) ==> (r matches Err(e) && e@ == "encryption failed"@),
{
    match chacha_encrypt(key, &nonce, plaintext) {
        Some(ciphertext) => Ok((ciphertext, nonce)),
        None => Err("encryption failed".to_string()),
    }
}

/// Encrypts `plaintext` under `key` with a fresh random nonce, which it
/// returns beside the ciphertext.
pub fn encrypt(key: &[u8; KEY_SIZE], plaintext: &[u8]) -> (r: Result<
    (Vec<u8>, [u8; NONCE_SIZE]),
    String,
>)
    requires
        aead_len_handled(plaintext@.len()),
    ensures
        aead_len_ok(plaintext@.len()) ==> (r matches Ok((c, n)) && c@ == chacha20poly1305_seal(
            key@,
            n@,
            plaintext@,
        ) && c@.len() == plaintext@.len() + TAG_SIZE),
        !aead_len_ok(plaintext@.len()) ==> (r matches Err(e) && e@ == "encryption failed"@),
{
    let nonce = generate_nonce();
    encrypt_with_nonce(key, nonce, plaintext)
}

/// Decrypts and authenticates `ciphertext`.
pub fn decrypt(key: &[u8; KEY_SIZE], nonce_bytes: &[u8; NONCE_SIZE], ciphertext: &[u8]) -> (r:
    Result<Vec<u8>, String>)
    requires
        ciphertext_len_handled(ciphertext@.len()),
    ensures
        r matches Ok(p) ==> chacha20poly1305_seal(key@, nonce_bytes@, p@) == ciphertext@,
        r matches Err(e) ==> e@ == "authentication failed"@,
        forall|p: Seq<u8>|
            aead_len_ok(p.len()) && #[trigger] chacha20poly1305_seal(key@, nonce_bytes@, p)
                == ciphertext@ ==> (r matches Ok(q) && q@ == p),
{
    match chacha_decrypt(key, nonce_bytes, ciphertext) {
        Some(plaintext) => Ok(plaintext),
        None => Err("authentication failed".to_string()),
    }
}

/// The value of a hexadecimal digit byte, upper or lower case.
pub open spec fn hex_digit_value(b: u8) -> Option<u8> {
    if 48 <= b <= 57 {
        Some((b - 48) as u8)
    } else if 97 <= b <= 102 {
        Some((b - 87) as u8)
    } else if 65 <= b <= 70 {
        Some((b - 55) as u8)
    } else {
        None
    }
}

/// What `u8::from_str_radix(.., 16)` makes of a two-byte string: a leading
/// `+` is a sign, and otherwise both bytes are digits.
pub open spec fn hex_pair_value(hi: u8, lo: u8) -> Option<u8> {
    if hi == 43 {
        hex_digit_value(lo)
    } else {
        match (hex_digit_value(hi), hex_digit_value(lo)) {
            (Some(a), Some(b)) => Some((16 * a + b) as u8),
            _ => None,
        }
    }
}

/// The UTF-8 bytes of the key text once trimmed.
pub open spec fn hex_key_bytes(value: Seq<char>) -> Seq<u8> {
    encode_utf8(trim_chars(value))
}

/// The value of the `i`-th byte pair of `b`.
pub open spec fn pair_at(b: Seq<u8>, i: int) -> Option<u8> {
    hex_pair_value(b[2 * i], b[2 * i + 1])
}

/// The message for text of the wrong length.
pub open spec fn key_length_message() -> Seq<char> {
    "key must contain exactly 64 hexadecimal characters"@
}

/// The message for text that is not hexadecimal.
pub open spec fn key_digits_message() -> Seq<char> {
    "key contains invalid hexadecimal characters"@
}

/// What `parse_hex_key` makes of a text: the key, or the message of its error.
pub open spec fn parse_hex_key_spec(value: Seq<char>) -> Result<Seq<u8>, Seq<char>> {
    let b = hex_key_bytes(value);
    if b.len() != 2 * KEY_SIZE {
        Err(key_length_message())
    } else if exists|i: int| 0 <= i < KEY_SIZE && #[trigger] pair_at(b, i) is None {
        Err(key_digits_message())
    } else {
        Ok(Seq::new(KEY_SIZE as nat, |i: int| pair_at(b, i)->Some_0))
    }
}

/// The text is cut into byte pairs at character boundaries as long as the
/// pairs before parse: the pairs are cut as string slices, which must not
/// split a character.
pub open spec fn hex_key_sliceable(value: Seq<char>) -> bool {
    let b = hex_key_bytes(value);
    b.len() == 2 * KEY_SIZE ==> forall|i: int|
        0 <= i < KEY_SIZE && (forall|j: int| 0 <= j < i ==> #[trigger] pair_at(b, j) is Some)
            ==> #[trigger] boundary_after_pair(b, i)
}

/// Whether the end of the `i`-th byte pair is a character boundary.
pub open spec fn boundary_after_pair(b: Seq<u8>, i: int) -> bool {
    is_char_boundary(b, 2 * i + 2)
}

fn hex_digit(b: u8) -> (r: Option<u8>)
    ensures
        r == hex_digit_value(b),
{
    if 48 <= b && b <= 57 {
        Some(b - 48)
    } else if 97 <= b && b <= 102 {
        Some(b - 87)
    } else if 65 <= b && b <= 70 {
        Some(b - 55)
    } else {
        None
    }
}

fn hex_pair(hi: u8, lo: u8) -> (r: Option<u8>)
    ensures
        r == hex_pair_value(hi, lo),
{
    if hi == 43 {
        return hex_digit(lo);
    }
    match (hex_digit(hi), hex_digit(lo)) {
        (Some(a), Some(b)) => Some(16 * a + b),
        _ => None,
    }
}

/// Reads a 32-byte key written as 64 hexadecimal digits, after trimming
/// surrounding whitespace.
pub fn parse_hex_key(value: &str) -> (r: Result<[u8; KEY_SIZE], String>)
    requires
        hex_key_sliceable(value@),
    ensures
        r matches Ok(k) ==> parse_hex_key_spec(value@) == Ok::<Seq<u8>, Seq<char>>(k@),
        r matches Err(e) ==> parse_hex_key_spec(value@) == Err::<Seq<u8>, Seq<char>>(e@),
{
    let trimmed = str_trim(value);
    let b = trimmed.as_bytes();
    if b.len() != KEY_SIZE * 2 {
        return Err("key must contain exactly 64 hexadecimal characters".to_string());
    }
    let mut key = [0u8; KEY_SIZE];
    let mut i: usize = 0;
    while i < KEY_SIZE
        invariant
            i <= KEY_SIZE,
            b@.len() == 2 * KEY_SIZE,
            b@ == hex_key_bytes(value@),
            forall|j: int| 0 <= j < i ==> #[trigger] pair_at(b@, j) == Some(key@[j]),
        decreases KEY_SIZE - i,
    {
        match hex_pair(b[2 * i], b[2 * i + 1]) {
            Some(v) => {
                key[i] = v;
            },
            None => {
                assert(pair_at(b@, i as int) is None);
                return Err("key contains invalid hexadecimal characters".to_string());
            },
        }
        i = i + 1;
    }
    assert(key@ =~= Seq::new(KEY_SIZE as nat, |j: int| pair_at(b@, j)->Some_0));
    Ok(key)
}


/// A character in upper case, for the ASCII letters; any other character
/// as it is.
pub open spec fn ascii_upper(c: char) -> char {
    if 'a' <= c <= 'z' {
        ((c as u8) - 32) as u8 as char
    } else {
        c
    }
}

/// Two upper-case hexadecimal digits per byte, high digit first: the
/// lower-case rendering with its letters in upper case.
pub open spec fn hex_upper(bytes: Seq<u8>) -> Seq<char> {
    crate::text::hex_lower(bytes).map_values(|c: char| ascii_upper(c))
}

/// Hexadecimal digits are read in either case: the digit of every value
/// below 16, lower or upper case, reads back as that value, and exactly the
/// bytes `0`-`9`, `a`-`f` and `A`-`F` are digits.
pub proof fn lemma_hex_digits(v: u8, b: u8)
    ensures
        v < 16 ==> hex_digit_value(crate::text::hex_digit_char(v) as u8) == Some(v),
        v < 16 ==> hex_digit_value(ascii_upper(crate::text::hex_digit_char(v)) as u8) == Some(v),
        v < 16 ==> crate::text::ascii_lower(crate::text::hex_digit_char(v))
            == crate::text::hex_digit_char(v),
        hex_digit_value(b) is Some <==> ('0' as u8 <= b <= '9' as u8 || 'a' as u8 <= b <= 'f' as u8
            || 'A' as u8 <= b <= 'F' as u8),
        'a' as u8 <= b <= 'f' as u8 ==> hex_digit_value(b) == hex_digit_value((b - 32) as u8),
{
}

/// A key written out as upper-case hexadecimal reads back as the same key.
pub proof fn lemma_hex_key_upper_roundtrip(key: Seq<u8>)
    requires
        key.len() == KEY_SIZE,
    ensures
        parse_hex_key_spec(hex_upper(key)) == Ok::<Seq<u8>, Seq<char>>(key),
{
    let s = hex_upper(key);
    assert(s.len() == 64);
    assert forall|j: int| 0 <= j < s.len() implies '\0' <= #[trigger] s[j] <= '\u{7f}'
        && !crate::text::is_unicode_whitespace(s[j]) && (s[j] as u8 == 43 ==> false) by {
        let v: u8 = if j % 2 == 0 {
            key[j / 2] / 16
        } else {
            key[j / 2] % 16
        };
        assert(s[j] == ascii_upper(crate::text::hex_digit_char(v)));
    }
    assert(trim_chars(s) == s);
    vstd::utf8::is_ascii_chars_encode_utf8(s);
    let b = hex_key_bytes(s);
    assert(b.len() == 64);
    assert forall|i: int| 0 <= i < KEY_SIZE implies #[trigger] pair_at(b, i) == Some(key[i]) by {
        let hi = key[i] / 16;
        let lo = key[i] % 16;
        assert(s[2 * i] == ascii_upper(crate::text::hex_digit_char(hi)));
        assert(s[2 * i + 1] == ascii_upper(crate::text::hex_digit_char(lo)));
        assert(b[2 * i] == s[2 * i] as u8);
        assert(b[2 * i + 1] == s[2 * i + 1] as u8);
        lemma_hex_digits(hi, 0);
        lemma_hex_digits(lo, 0);
        assert(b[2 * i] != 43);
        assert(16 * hi + lo == key[i]);
    }
    assert(Seq::new(KEY_SIZE as nat, |i: int| pair_at(b, i)->Some_0) =~= key);
}

/// A key written out as lower-case hexadecimal reads back as the same key.
pub proof fn lemma_hex_key_roundtrip(key: Seq<u8>)
    requires
        key.len() == KEY_SIZE,
    ensures
        parse_hex_key_spec(crate::text::hex_lower(key)) == Ok::<Seq<u8>, Seq<char>>(key),
        hex_key_sliceable(crate::text::hex_lower(key)),
{
    let s = crate::text::hex_lower(key);
    assert(s.len() == 64);
    assert forall|j: int| 0 <= j < s.len() implies '\0' <= #[trigger] s[j] <= '\u{7f}' && !crate::text::is_unicode_whitespace(s[j]) && (s[j] as u8 == 43 ==> false) by {
        let v: u8 = if j % 2 == 0 { key[j / 2] / 16 } else { key[j / 2] % 16 };
        assert(s[j] == crate::text::hex_digit_char(v));
    }
    assert(trim_chars(s) == s);
    vstd::utf8::is_ascii_chars_encode_utf8(s);
    let b = hex_key_bytes(s);
    assert(b.len() == 64);
    assert forall|i: int| 0 <= i < KEY_SIZE implies #[trigger] pair_at(b, i) == Some(key[i]) by {
        let hi = key[i] / 16;
        let lo = key[i] % 16;
        assert(s[2 * i] == crate::text::hex_digit_char(hi));
        assert(s[2 * i + 1] == crate::text::hex_digit_char(lo));
        assert(b[2 * i] == s[2 * i] as u8);
        assert(b[2 * i + 1] == s[2 * i + 1] as u8);
        assert(hex_digit_value(b[2 * i]) == Some(hi));
        assert(hex_digit_value(b[2 * i + 1]) == Some(lo));
        assert(b[2 * i] != 43);
        assert(16 * hi + lo == key[i]);
    }
    assert(Seq::new(KEY_SIZE as nat, |i: int| pair_at(b, i)->Some_0) =~= key);
    vstd::utf8::encode_utf8_valid_utf8(s);
    vstd::utf8::is_char_boundary_start_end_of_seq(b);
    assert forall|i: int|
        0 <= i < KEY_SIZE && (forall|j: int| 0 <= j < i ==> #[trigger] pair_at(b, j) is Some)
            implies #[trigger] boundary_after_pair(b, i) by {
        if 2 * i + 2 < b.len() {
            vstd::utf8::is_char_boundary_iff_not_is_continuation_byte(b, 2 * i + 2);
            assert(b[2 * i + 2] == s[2 * i + 2] as u8);
        }
    }
}

} // verus!
