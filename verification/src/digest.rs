//! Object digests: SHA-256 over the framed body, rendered as a lowercase
//! hexadecimal string.

use sha2::Digest;
use vstd::prelude::*;

verus! {

/// The 32-byte SHA-256 digest of a byte sequence. The algorithm itself is
/// not modeled; the name stands for the hash function's output, which
/// depends on the input bytes alone.
pub uninterp spec fn sha256_of(data: Seq<u8>) -> Seq<u8>;

/// Relies on `sha2::Sha256` (through `digest::Digest`): hashing is a pure
/// function of the input bytes and always yields exactly 32 bytes.
#[verifier::external_body]
pub fn sha256_hash(data: &[u8]) -> (r: Vec<u8>)
    ensures
        r@ == sha256_of(data@),
        r@.len() == 32,
{
    let mut hasher = sha2::Sha256::new();
    hasher.update(data);
    hasher.finalize().to_vec()
}

/// Every byte of `b` is an ASCII code point.
pub open spec fn is_ascii_seq(b: Seq<u8>) -> bool {
    forall|i: int| 0 <= i < b.len() ==> #[trigger] b[i] < 128
}

/// The characters with the same code points as the given ASCII bytes.
pub open spec fn bytes_as_chars(b: Seq<u8>) -> Seq<char> {
    Seq::new(b.len(), |i: int| b[i] as char)
}

/// The bytes with the same code points as the given ASCII characters.
pub open spec fn chars_as_bytes(s: Seq<char>) -> Seq<u8> {
    Seq::new(s.len(), |i: int| s[i] as u8)
}

/// Casting a printable ASCII character to a byte keeps its code point, and
/// casting that byte back recovers the character.
pub proof fn lemma_plain_char_casts(c: char)
    requires
        33 <= c as u32 <= 126,
    ensures
        33 <= c as u8 <= 126,
        (c as u8) as char == c,
        '\0' <= c <= '\u{7f}',
{
}

/// The lowercase hexadecimal digit byte for a value below 16.
pub open spec fn hex_digit(n: nat) -> u8 {
    if n < 10 {
        (48 + n) as u8
    } else {
        (87 + n) as u8
    }
}

/// Two lowercase hexadecimal digit bytes per input byte, high nibble first.
pub open spec fn hex_bytes(data: Seq<u8>) -> Seq<u8>
    decreases data.len(),
{
    if data.len() == 0 {
        Seq::empty()
    } else {
        seq![
            hex_digit((data[0] / 16) as nat),
            hex_digit((data[0] % 16) as nat),
        ] + hex_bytes(data.drop_first())
    }
}

/// The hexadecimal rendering of a byte sequence, as characters.
pub open spec fn hex_chars(data: Seq<u8>) -> Seq<char> {
    bytes_as_chars(hex_bytes(data))
}

/// Hexadecimal digit bytes are ASCII, and two appear per input byte.
pub proof fn lemma_hex_bytes_ascii(data: Seq<u8>)
    ensures
        hex_bytes(data).len() == 2 * data.len(),
        is_ascii_seq(hex_bytes(data)),
        forall|i: int| 0 <= i < hex_bytes(data).len() ==> 33 <= #[trigger] hex_bytes(data)[i]
            <= 126,
    decreases data.len(),
{
    if data.len() > 0 {
        lemma_hex_bytes_ascii(data.drop_first());
    }
}

/// Render a byte sequence as its lowercase hexadecimal digit bytes.
pub fn to_hex_bytes(data: &Vec<u8>) -> (r: Vec<u8>)
    ensures
        r@ == hex_bytes(data@),
{
    let mut out: Vec<u8> = Vec::new();
    let mut i: usize = 0;
    proof {
        assert(data@.skip(0) =~= data@);
        assert(out@ + hex_bytes(data@) =~= hex_bytes(data@));
    }
    while i < data.len()
        invariant
            0 <= i <= data@.len(),
            out@ + hex_bytes(data@.skip(i as int)) == hex_bytes(data@),
        decreases data@.len() - i,
    {
        let b = data[i];
        let hi = b / 16;
        let lo = b % 16;
        let hd = if hi < 10 {
            48 + hi
        } else {
            87 + hi
        };
        let ld = if lo < 10 {
            48 + lo
        } else {
            87 + lo
        };
        proof {
            let rest = data@.skip(i as int);
            assert(rest[0] == data@[i as int]);
            assert(rest.drop_first() =~= data@.skip(i + 1));
            assert(hd == hex_digit((data@[i as int] / 16) as nat));
            assert(ld == hex_digit((data@[i as int] % 16) as nat));
        }
        out.push(hd);
        out.push(ld);
        proof {
            assert(out@ + hex_bytes(data@.skip(i + 1)) =~= hex_bytes(data@));
        }
        i = i + 1;
    }
    proof {
        assert(data@.skip(i as int) =~= Seq::<u8>::empty());
        assert(out@ =~= hex_bytes(data@));
    }
    out
}

/// Relies on `String::from_utf8`: ASCII bytes are valid UTF-8 and decode to
/// the characters with the same code points.
#[verifier::external_body]
pub fn ascii_bytes_to_string(v: Vec<u8>) -> (s: String)
    requires
        is_ascii_seq(v@),
    ensures
        s@ == bytes_as_chars(v@),
{
    match String::from_utf8(v) {
        Ok(s) => s,
        Err(_) => String::new(),
    }
}

/// The digest string of a byte sequence: lowercase hexadecimal SHA-256.
pub open spec fn digest_chars(data: Seq<u8>) -> Seq<char> {
    hex_chars(sha256_of(data))
}

/// Compute the digest string of a byte sequence.
pub fn compute_digest(data: &[u8]) -> (s: String)
    ensures
        s@ == digest_chars(data@),
        s@.len() == 64,
{
    let raw = sha256_hash(data);
    let hex = to_hex_bytes(&raw);
    proof {
        lemma_hex_bytes_ascii(raw@);
    }
    ascii_bytes_to_string(hex)
}

} // verus!
