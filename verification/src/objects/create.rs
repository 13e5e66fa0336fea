//! Creating stored objects: render the header line, frame it with the
//! payload, digest and compress the framed body.
//!
//! Writing the compressed bytes to disk is the caller's concern; these
//! functions return the digest and the bytes ready for storage.

use flate2::write::ZlibEncoder;
use flate2::Compression;
use std::io::Write;

use vstd::prelude::*;
use vstd::string::*;
use vstd::utf8::{is_ascii_chars, is_ascii_chars_encode_utf8};

use crate::decimal::render_decimal;
use crate::digest::{
    ascii_bytes_to_string, bytes_as_chars, chars_as_bytes, compute_digest, digest_chars,
};
use crate::objects::{
    body_bytes, header_bytes, is_plain_char, lemma_header_bytes_plain, Header, HeaderV,
};

verus! {

/// The zlib (deflate) compression of a byte sequence at the default level.
/// The stream's exact bytes are not modeled; the name stands for the
/// compressor's output, which depends on the input bytes alone.
pub uninterp spec fn deflate_of(data: Seq<u8>) -> Seq<u8>;

/// Relies on `flate2::write::ZlibEncoder` at the default compression level,
/// writing into a `Vec<u8>`, which cannot fail: the result is the zlib
/// stream of exactly the input bytes, and `flate2::read::ZlibDecoder`
/// recovers those bytes from it.
#[verifier::external_body]
pub fn encode_object(data: Vec<u8>) -> (r: Vec<u8>)
    ensures
        r@ == deflate_of(data@),
        crate::objects::read::inflate_of(r@) == Some(data@),
{
    let mut e = ZlibEncoder::new(Vec::new(), Compression::default());
    e.write_all(&data).expect("writing to a Vec cannot fail");
    e.finish().expect("writing to a Vec cannot fail")
}

/// Render the header line of an object, without the terminating newline.
fn header_line_bytes(header: &Header) -> (v: Vec<u8>)
    requires
        header@.wf(),
    ensures
        v@ == header_bytes(header@),
{
    let mut v: Vec<u8> = Vec::new();
    match header {
        Header::File(n) => {
            v.push(102);  // 'f'
            v.push(105);  // 'i'
            v.push(108);  // 'l'
            v.push(101);  // 'e'
            v.push(32);
            let mut d = render_decimal(*n);
            v.append(&mut d);
            proof {
                assert(v@ =~= header_bytes(header@));
            }
        },
        Header::Dir(n) => {
            v.push(100);  // 'd'
            v.push(105);  // 'i'
            v.push(114);  // 'r'
            v.push(32);
            let mut d = render_decimal(*n);
            v.append(&mut d);
            proof {
                assert(v@ =~= header_bytes(header@));
            }
        },
        Header::Commit(s) => {
            v.push(99);  // 'c'
            v.push(111);  // 'o'
            v.push(109);  // 'm'
            v.push(109);  // 'm'
            v.push(105);  // 'i'
            v.push(116);  // 't'
            v.push(32);
            let mut b = s.as_str().as_bytes_vec();
            proof {
                assert forall|i: int| 0 <= i < s@.len() implies '\0' <= #[trigger] s@[i]
                    <= '\u{7f}' by {
                    assert(is_plain_char(s@[i]));
                    crate::digest::lemma_plain_char_casts(s@[i]);
                }
                assert(is_ascii_chars(s@));
                is_ascii_chars_encode_utf8(s@);
                assert(b@ =~= chars_as_bytes(s@));
            }
            v.append(&mut b);
            proof {
                assert(v@ =~= header_bytes(header@));
            }
        },
    }
    v
}

/// Render the header line `"<kind> <arg>"` of an object as a string.
pub fn create_header(header: &Header) -> (r: String)
    requires
        header@.wf(),
    ensures
        r@ == bytes_as_chars(header_bytes(header@)),
{
    let v = header_line_bytes(header);
    proof {
        lemma_header_bytes_plain(header@);
    }
    ascii_bytes_to_string(v)
}

/// Encode an object: frame the payload under its header line, and return the
/// digest of the framed body together with the compressed bytes to store.
pub fn create_plain_object(header: &Header, data: &[u8]) -> (r: (String, Vec<u8>))
    requires
        header@.wf(),
    ensures
        r.0@ == digest_chars(body_bytes(header@, data@)),
        r.0@.len() == 64,
        r.1@ == deflate_of(body_bytes(header@, data@)),
        crate::objects::read::inflate_of(r.1@) == Some(body_bytes(header@, data@)),
{
    let mut body = header_line_bytes(header);
    body.push(10);
    body.extend_from_slice(data);
    proof {
        assert(body@ =~= body_bytes(header@, data@));
    }
    let digest = compute_digest(body.as_slice());
    let compressed = encode_object(body);
    (digest, compressed)
}

/// Encode a byte payload as a file object. The header records the payload's
/// length; the returned digest identifies the framed body, and the returned
/// bytes are the compressed object ready for storage.
pub fn create_file_object(data: &[u8]) -> (r: (String, Vec<u8>))
    ensures
        r.0@ == digest_chars(body_bytes(HeaderV::File(data@.len()), data@)),
        r.0@.len() == 64,
        r.1@ == deflate_of(body_bytes(HeaderV::File(data@.len()), data@)),
        crate::objects::read::inflate_of(r.1@) == Some(body_bytes(HeaderV::File(data@.len()), data@)),
{
    create_plain_object(&Header::File(data.len()), data)
}

/// Digest determinism: the digest of a file object is a function of the
/// payload bytes alone, so two encodings of the same bytes name the same
/// object.
pub proof fn lemma_digest_deterministic(data: Seq<u8>, d1: Seq<char>, d2: Seq<char>)
    requires
        d1 == digest_chars(body_bytes(HeaderV::File(data.len()), data)),
        d2 == digest_chars(body_bytes(HeaderV::File(data.len()), data)),
    ensures
        d1 == d2,
{
}

} // verus!
