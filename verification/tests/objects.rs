//! Tests of the object store: encoding, digests, decoding, and the error
//! taxonomy, run against the real hash and compression crates.

use std::io::{Read, Write};

use wn_core::errors::ObjectError;
use wn_core::objects::create::{create_file_object, create_header, create_plain_object};
use wn_core::objects::read::{read_file_object, read_plain_object};
use wn_core::objects::{resolve_filepath, Header};

fn zlib_raw(data: &[u8]) -> Vec<u8> {
    let mut e = flate2::write::ZlibEncoder::new(Vec::new(), flate2::Compression::default());
    e.write_all(data).unwrap();
    e.finish().unwrap()
}

fn unzlib(data: &[u8]) -> Vec<u8> {
    let mut d = flate2::read::ZlibDecoder::new(data);
    let mut out = Vec::new();
    d.read_to_end(&mut out).unwrap();
    out
}

#[test]
fn file_object_known_digest() {
    let (digest, _) = create_file_object(b"hello");
    assert_eq!(
        digest,
        "1a010b978e0c37bb9b504e65bc7fad0528cf6a6eaf58a5661ebb4c2d7970c1d5"
    );
    let (digest0, _) = create_file_object(b"");
    assert_eq!(
        digest0,
        "41b3fbbe4d8d6bbd44c4b610bb678c55dd53fdbe9a3ed257057ee1edf5136f5b"
    );
}

#[test]
fn file_object_round_trip() {
    let payload: Vec<u8> = (0u16..600).map(|i| (i % 251) as u8).collect();
    let (_, stored) = create_file_object(&payload);
    let back = read_file_object(&stored).unwrap();
    assert_eq!(back, payload);
}

#[test]
fn empty_file_object_round_trip() {
    let (_, stored) = create_file_object(b"");
    let back = read_file_object(&stored).unwrap();
    assert_eq!(back, Vec::<u8>::new());
}

#[test]
fn digest_is_deterministic() {
    let (d1, c1) = create_file_object(b"same bytes");
    let (d2, c2) = create_file_object(b"same bytes");
    assert_eq!(d1, d2);
    assert_eq!(c1, c2);
}

#[test]
fn digests_differ_on_distinct_inputs() {
    // A spread of varied-length inputs from a small linear congruential
    // generator; all digests must be pairwise distinct.
    let mut digests = Vec::new();
    let mut state: u64 = 0x2545F4914F6CDD1D;
    for len in 0..60usize {
        let mut data = Vec::with_capacity(len);
        for _ in 0..len {
            state = state.wrapping_mul(6364136223846793005).wrapping_add(1442695040888963407);
            data.push((state >> 33) as u8);
        }
        let (d, _) = create_file_object(&data);
        digests.push(d);
    }
    for i in 0..digests.len() {
        for j in (i + 1)..digests.len() {
            assert_ne!(digests[i], digests[j]);
        }
    }
}

#[test]
fn compressed_bytes_differ_from_body() {
    let (_, stored) = create_file_object(b"hello");
    assert_ne!(stored, b"file 5\nhello".to_vec());
    assert_eq!(unzlib(&stored), b"file 5\nhello".to_vec());
}

#[test]
fn header_rendering() {
    assert_eq!(create_header(&Header::File(42)), "file 42");
    assert_eq!(create_header(&Header::Dir(0)), "dir 0");
    assert_eq!(
        create_header(&Header::Commit(String::from("abc123"))),
        "commit abc123"
    );
}

#[test]
fn header_round_trip_all_kinds() {
    let payload = b"payload bytes";

    let (_, stored) = create_plain_object(&Header::File(13), payload);
    let (h, p) = read_plain_object(&stored).unwrap();
    assert!(matches!(h, Header::File(13)));
    assert_eq!(p, payload.to_vec());

    let (_, stored) = create_plain_object(&Header::Dir(7), payload);
    let (h, p) = read_plain_object(&stored).unwrap();
    assert!(matches!(h, Header::Dir(7)));
    assert_eq!(p, payload.to_vec());

    let (_, stored) = create_plain_object(&Header::Commit(String::from("deadbeef")), payload);
    let (h, p) = read_plain_object(&stored).unwrap();
    match h {
        Header::Commit(s) => assert_eq!(s, "deadbeef"),
        _ => panic!("wrong kind"),
    }
    assert_eq!(p, payload.to_vec());
}

#[test]
fn missing_newline_is_format_error() {
    let stored = zlib_raw(b"file 5 but never a newline");
    assert!(matches!(
        read_plain_object(&stored),
        Err(ObjectError::FormatError)
    ));
}

#[test]
fn unknown_kind_is_format_error() {
    let stored = zlib_raw(b"blob 5\nhello");
    assert!(matches!(
        read_plain_object(&stored),
        Err(ObjectError::FormatError)
    ));
}

#[test]
fn wrong_token_count_is_format_error() {
    let stored = zlib_raw(b"file\npayload");
    assert!(matches!(
        read_plain_object(&stored),
        Err(ObjectError::FormatError)
    ));
    let stored = zlib_raw(b"file 1 2\npayload");
    assert!(matches!(
        read_plain_object(&stored),
        Err(ObjectError::FormatError)
    ));
}

#[test]
fn non_numeric_size_is_format_error() {
    let stored = zlib_raw(b"file five\nhello");
    assert!(matches!(
        read_plain_object(&stored),
        Err(ObjectError::FormatError)
    ));
}

#[test]
fn oversized_size_is_format_error() {
    let stored = zlib_raw(b"file 99999999999999999999999999999\nhello");
    assert!(matches!(
        read_plain_object(&stored),
        Err(ObjectError::FormatError)
    ));
}

#[test]
fn corrupt_stream_is_format_error() {
    let stored = vec![0u8, 1, 2, 3, 4, 5];
    assert!(matches!(
        read_plain_object(&stored),
        Err(ObjectError::FormatError)
    ));
}

#[test]
fn non_file_kind_is_type_mismatch() {
    let (_, stored) = create_plain_object(&Header::Dir(3), b"entries");
    assert!(matches!(
        read_file_object(&stored),
        Err(ObjectError::TypeMismatch)
    ));
    let (_, stored) = create_plain_object(&Header::Commit(String::from("cafe")), b"");
    assert!(matches!(
        read_file_object(&stored),
        Err(ObjectError::TypeMismatch)
    ));
}

#[test]
fn sharded_storage_path() {
    let path = resolve_filepath(
        "/repo/.wn",
        "abcd12345678901234567890123456789012345678901234567890123456789a",
    );
    assert_eq!(
        path,
        "/repo/.wn/objects/ab/cd12345678901234567890123456789012345678901234567890123456789a"
    );
}

#[test]
fn created_object_path_uses_digest_prefix() {
    let (digest, _) = create_file_object(b"hello");
    let path = resolve_filepath(".wn", &digest);
    assert_eq!(
        path,
        ".wn/objects/1a/010b978e0c37bb9b504e65bc7fad0528cf6a6eaf58a5661ebb4c2d7970c1d5"
    );
}
