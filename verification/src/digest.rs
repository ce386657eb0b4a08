//! Digests and instance ids.
//!
//! A digest is the hex-encoded SHA-256 of the canonical serialization of an
//! artifact's tar entries: exactly 64 lowercase hexadecimal characters.  An
//! instance id is the first 16 characters of a digest and names one container
//! per digest on one worker.

use vstd::prelude::*;
use vstd::string::*;
use sha2::Digest;

verus! {

/// One lowercase hexadecimal digit.
pub open spec fn is_hex_char(c: char) -> bool {
    ('0' <= c && c <= '9') || ('a' <= c && c <= 'f')
}

/// A valid digest: exactly 64 lowercase hex characters.
pub open spec fn is_digest(s: Seq<char>) -> bool {
    s.len() == 64 && (forall|i: int| 0 <= i < s.len() ==> is_hex_char(#[trigger] s[i]))
}

/// A valid instance id: exactly 16 lowercase hex characters.
pub open spec fn is_instance_id(s: Seq<char>) -> bool {
    s.len() == 16 && (forall|i: int| 0 <= i < s.len() ==> is_hex_char(#[trigger] s[i]))
}

/// Hex digits are ASCII, so a valid digest or instance id is an ASCII string.
pub proof fn lemma_hex_chars_ascii(s: Seq<char>)
    requires
        forall|i: int| 0 <= i < s.len() ==> is_hex_char(#[trigger] s[i]),
    ensures
        vstd::utf8::is_ascii_chars(s),
{
}

/// Decides whether a string is a valid digest.
pub fn validate_digest(s: &str) -> (r: bool)
    ensures
        r == is_digest(s@),
{
    let n = s.unicode_len();
    if n != 64 {
        return false;
    }
    let mut i: usize = 0;
    while i < 64
        invariant
            i <= 64,
            n == s@.len() == 64,
            forall|j: int| 0 <= j < i ==> is_hex_char(#[trigger] s@[j]),
        decreases 64 - i,
    {
        let c = s.get_char(i);
        if !(('0' <= c && c <= '9') || ('a' <= c && c <= 'f')) {
            return false;
        }
        i += 1;
    }
    true
}

/// The instance id derived from a digest: its first 16 characters.
pub fn instance_id_of(digest: &str) -> (r: String)
    requires
        is_digest(digest@),
    ensures
        r@ == digest@.subrange(0, 16),
        r@.len() == 16,
        is_instance_id(r@),
{
    proof {
        lemma_hex_chars_ascii(digest@);
    }
    let id = digest.substring_ascii(0, 16);
    id.to_owned()
}

/// The lowercase hex digit for a value below 16.
pub open spec fn hex_char(n: u8) -> char
    recommends
        n < 16,
{
    if n < 10 {
        ((48 + n) as u32) as char
    } else {
        ((87 + n) as u32) as char
    }
}

/// The lowercase hex encoding of a byte sequence: two digits per byte,
/// high nibble first.
pub open spec fn hex_of(bytes: Seq<u8>) -> Seq<char> {
    Seq::new(
        bytes.len() * 2,
        |i: int|
            if i % 2 == 0 {
                hex_char(bytes[i / 2] / 16)
            } else {
                hex_char(bytes[i / 2] % 16)
            },
    )
}

pub proof fn lemma_hex_char_is_hex(n: u8)
    requires
        n < 16,
    ensures
        is_hex_char(hex_char(n)),
{
}

/// A one-character string holding the hex digit for a value below 16.
fn hex_char_str(n: u8) -> (r: &'static str)
    requires
        n < 16,
    ensures
        r@.len() == 1,
        r@[0] == hex_char(n),
{
    proof {
        reveal_strlit("0");
        reveal_strlit("1");
        reveal_strlit("2");
        reveal_strlit("3");
        reveal_strlit("4");
        reveal_strlit("5");
        reveal_strlit("6");
        reveal_strlit("7");
        reveal_strlit("8");
        reveal_strlit("9");
        reveal_strlit("a");
        reveal_strlit("b");
        reveal_strlit("c");
        reveal_strlit("d");
        reveal_strlit("e");
        reveal_strlit("f");
    }
    match n {
        0 => "0",
        1 => "1",
        2 => "2",
        3 => "3",
        4 => "4",
        5 => "5",
        6 => "6",
        7 => "7",
        8 => "8",
        9 => "9",
        10 => "a",
        11 => "b",
        12 => "c",
        13 => "d",
        14 => "e",
        _ => "f",
    }
}

/// Hex-encodes a byte slice, lowercase, two digits per byte.
pub fn to_hex(bytes: &[u8]) -> (r: String)
    ensures
        r@ == hex_of(bytes@),
        r@.len() == 2 * bytes@.len(),
{
    let ghost target = hex_of(bytes@);
    let mut s = String::new();
    let mut i: usize = 0;
    while i < bytes.len()
        invariant
            i <= bytes@.len(),
            target == hex_of(bytes@),
            s@ =~= target.subrange(0, 2 * i as int),
        decreases bytes@.len() - i,
    {
        let b = bytes[i];
        let hi = hex_char_str(b / 16);
        s.append(hi);
        let lo = hex_char_str(b % 16);
        s.append(lo);
        proof {
            assert(target[2 * i as int] == hex_char(b / 16));
            assert(target[2 * i as int + 1] == hex_char(b % 16));
            assert(s@ =~= target.subrange(0, 2 * (i + 1) as int));
        }
        i += 1;
    }
    proof {
        assert(s@ =~= target);
    }
    s
}

/// The SHA-256 hash of a byte sequence, named but not defined here: the
/// implementation is supplied by an outside crate.
pub uninterp spec fn sha256_of(data: Seq<u8>) -> Seq<u8>;

/// Relies on sha2's `Sha256`: the hash is a pure function of the input bytes,
/// and its output is exactly 32 bytes.
#[verifier::external_body]
fn sha256(data: &[u8]) -> (r: Vec<u8>)
    ensures
        r@ == sha256_of(data@),
        r@.len() == 32,
{
    sha2::Sha256::digest(data).to_vec()
}

/// The digest of a byte sequence: the lowercase hex encoding of its SHA-256.
pub open spec fn spec_digest(data: Seq<u8>) -> Seq<char> {
    hex_of(sha256_of(data))
}

/// Computes the digest of a serialized artifact: hex-encoded SHA-256.
/// The result is always a valid digest.
pub fn digest_of(data: &[u8]) -> (r: String)
    ensures
        r@ == spec_digest(data@),
        is_digest(r@),
{
    let h = sha256(data);
    let r = to_hex(h.as_slice());
    proof {
        assert forall|i: int| 0 <= i < r@.len() implies is_hex_char(#[trigger] r@[i]) by {
            if i % 2 == 0 {
                lemma_hex_char_is_hex(h@[i / 2] / 16);
            } else {
                lemma_hex_char_is_hex(h@[i / 2] % 16);
            }
        }
    }
    r
}

} // verus!
