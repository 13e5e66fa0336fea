//! Reading stored objects: decompress the framed body, split the header
//! line from the payload at the first newline, and parse the header into a
//! kind and its argument.

use flate2::read::ZlibDecoder;
use std::io::Read;

use vstd::prelude::*;
use vstd::slice::{slice_subrange, slice_to_vec};

use crate::decimal::{dec_val, is_digits, parse_decimal};
use crate::digest::{ascii_bytes_to_string, bytes_as_chars, is_ascii_seq};
use crate::errors::ObjectError;
use crate::objects::{
    body_bytes, header_bytes, kind_arg, kind_word, kw_commit, kw_dir, kw_file,
    lemma_header_bytes_plain, Header, HeaderV,
};

verus! {

/// What zlib decompression yields on a byte sequence: the decompressed
/// bytes, or `None` where the decoder fails on the input. A function of the
/// input bytes alone.
pub uninterp spec fn inflate_of(data: Seq<u8>) -> Option<Seq<u8>>;

/// Relies on `flate2::read::ZlibDecoder`: decompression is a function of the
/// input bytes alone, and decompressing a stream the encoder produced yields
/// exactly the bytes that were compressed.
#[verifier::external_body]
pub fn decode_object(data: &Vec<u8>) -> (r: Result<Vec<u8>, ObjectError>)
    ensures
        r matches Ok(v) ==> inflate_of(data@) == Some(v@),
        r is Err ==> inflate_of(data@) is None,
        r matches Err(e) ==> e == ObjectError::FormatError,
{
    let mut dec = ZlibDecoder::new(&data[..]);
    let mut out = Vec::new();
    match dec.read_to_end(&mut out) {
        Ok(_) => Ok(out),
        Err(_) => Err(ObjectError::FormatError),
    }
}

/// An ASCII whitespace byte, as header tokens are separated by it.
pub open spec fn is_ws(b: u8) -> bool {
    b == 9 || b == 10 || b == 11 || b == 12 || b == 13 || b == 32
}

/// The position of the first newline byte of `s`, if any.
pub open spec fn find_newline(s: Seq<u8>) -> Option<int>
    decreases s.len(),
{
    if s.len() == 0 {
        None
    } else if s[0] == 10 {
        Some(0)
    } else {
        match find_newline(s.drop_first()) {
            Some(j) => Some(j + 1),
            None => None,
        }
    }
}

/// `find_newline` returns exactly the position of the first newline.
pub proof fn lemma_find_newline_at(s: Seq<u8>, i: int)
    requires
        0 <= i <= s.len(),
        forall|k: int| 0 <= k < i ==> s[k] != 10,
        i == s.len() || s[i] == 10,
    ensures
        i < s.len() ==> find_newline(s) == Some(i),
        i == s.len() ==> find_newline(s) is None,
    decreases s.len(),
{
    if s.len() == 0 {
    } else if s[0] == 10 {
        assert(i == 0);
    } else {
        let rest = s.drop_first();
        assert(forall|k: int| 0 <= k < i - 1 ==> rest[k] == s[k + 1] && rest[k] != 10);
        assert(i - 1 == rest.len() || rest[i - 1] == s[i]);
        lemma_find_newline_at(rest, i - 1);
    }
}

/// The longest whitespace-free prefix of `s`.
pub open spec fn take_token(s: Seq<u8>) -> Seq<u8>
    decreases s.len(),
{
    if s.len() == 0 || is_ws(s[0]) {
        Seq::empty()
    } else {
        seq![s[0]] + take_token(s.drop_first())
    }
}

/// A token is never longer than its source, and is nonempty where the
/// source starts with a non-whitespace byte.
pub proof fn lemma_take_token_len(s: Seq<u8>)
    ensures
        take_token(s).len() <= s.len(),
        s.len() > 0 && !is_ws(s[0]) ==> take_token(s).len() >= 1,
    decreases s.len(),
{
    if s.len() > 0 && !is_ws(s[0]) {
        lemma_take_token_len(s.drop_first());
    }
}

/// The whitespace-separated tokens of `s`, in order.
pub open spec fn tokens_of(s: Seq<u8>) -> Seq<Seq<u8>>
    decreases s.len(),
    via tokens_of_decreases
{
    if s.len() == 0 {
        Seq::empty()
    } else if is_ws(s[0]) {
        tokens_of(s.drop_first())
    } else {
        seq![take_token(s)] + tokens_of(s.skip(take_token(s).len() as int))
    }
}

#[via_fn]
proof fn tokens_of_decreases(s: Seq<u8>) {
    if s.len() > 0 && !is_ws(s[0]) {
        lemma_take_token_len(s);
    }
}

/// Where the bytes at `[0, j)` are non-whitespace and position `j` is the
/// end or whitespace, the first token is exactly those bytes.
pub proof fn lemma_take_token_run(s: Seq<u8>, j: int)
    requires
        0 <= j <= s.len(),
        forall|k: int| 0 <= k < j ==> !is_ws(#[trigger] s[k]),
        j == s.len() || is_ws(s[j]),
    ensures
        take_token(s) == s.take(j),
    decreases j,
{
    if j == 0 {
        assert(take_token(s) =~= s.take(0));
    } else {
        let rest = s.drop_first();
        assert(forall|k: int| 0 <= k < j - 1 ==> rest[k] == s[k + 1] && !is_ws(#[trigger] rest[k]));
        assert(j - 1 == rest.len() || is_ws(rest[j - 1]));
        lemma_take_token_run(rest, j - 1);
        assert(take_token(s) =~= s.take(j));
    }
}

/// Two nonempty whitespace-free byte strings joined by one space tokenize to
/// exactly those two tokens.
pub proof fn lemma_tokens_of_two(a: Seq<u8>, b: Seq<u8>)
    requires
        a.len() > 0,
        b.len() > 0,
        forall|k: int| 0 <= k < a.len() ==> !is_ws(#[trigger] a[k]),
        forall|k: int| 0 <= k < b.len() ==> !is_ws(#[trigger] b[k]),
    ensures
        tokens_of(a + seq![32u8] + b) == seq![a, b],
{
    let s = a + seq![32u8] + b;
    assert(forall|k: int| 0 <= k < a.len() ==> s[k] == a[k]);
    assert(is_ws(s[a.len() as int]));
    lemma_take_token_run(s, a.len() as int);
    assert(s.take(a.len() as int) =~= a);
    let s2 = s.skip(a.len() as int);
    assert(tokens_of(s) == seq![a] + tokens_of(s2));
    assert(s2[0] == 32u8);
    assert(s2.drop_first() =~= b);
    lemma_take_token_run(b, b.len() as int);
    assert(b.take(b.len() as int) =~= b);
    assert(b.skip(b.len() as int) =~= Seq::<u8>::empty());
    assert(tokens_of(b.skip(b.len() as int)) == Seq::<Seq<u8>>::empty());
    assert(tokens_of(b) == seq![b] + Seq::<Seq<u8>>::empty());
    assert(tokens_of(s) =~= seq![a, b]);
}

/// What a header line (the bytes before the first newline) denotes: the
/// object kind, or `None` where the line is not exactly a known keyword and
/// one argument of the right shape.
pub open spec fn parse_header_line(h: Seq<u8>) -> Option<HeaderV> {
    let toks = tokens_of(h);
    if toks.len() != 2 {
        None
    } else if toks[0] == kw_file() {
        if toks[1].len() > 0 && is_digits(toks[1]) && dec_val(toks[1]) <= usize::MAX {
            Some(HeaderV::File(dec_val(toks[1])))
        } else {
            None
        }
    } else if toks[0] == kw_dir() {
        if toks[1].len() > 0 && is_digits(toks[1]) && dec_val(toks[1]) <= usize::MAX {
            Some(HeaderV::Dir(dec_val(toks[1])))
        } else {
            None
        }
    } else if toks[0] == kw_commit() {
        if is_ascii_seq(toks[1]) {
            Some(HeaderV::Commit(bytes_as_chars(toks[1])))
        } else {
            None
        }
    } else {
        None
    }
}

/// What a decompressed object body denotes: the header's kind and the raw
/// payload (everything after the first newline), or `None` where the body
/// has no newline or its header line does not parse.
pub open spec fn parse_object(d: Seq<u8>) -> Option<(HeaderV, Seq<u8>)> {
    match find_newline(d) {
        None => None,
        Some(i) => match parse_header_line(d.take(i)) {
            None => None,
            Some(h) => Some((h, d.skip(i + 1))),
        },
    }
}

/// Find the first newline byte.
fn find_nl(data: &Vec<u8>) -> (r: Option<usize>)
    ensures
        r matches Some(i) ==> find_newline(data@) == Some(i as int) && i < data@.len(),
        r is None ==> find_newline(data@) is None,
{
    let mut i: usize = 0;
    while i < data.len()
        invariant
            0 <= i <= data@.len(),
            forall|k: int| 0 <= k < i ==> data@[k] != 10,
        decreases data@.len() - i,
    {
        if data[i] == 10 {
            proof {
                lemma_find_newline_at(data@, i as int);
            }
            return Some(i);
        }
        i = i + 1;
    }
    proof {
        lemma_find_newline_at(data@, i as int);
    }
    None
}

/// Split a byte string into its whitespace-separated tokens.
fn tokenize(h: &Vec<u8>) -> (toks: Vec<Vec<u8>>)
    ensures
        toks.deep_view() == tokens_of(h@),
{
    let mut toks: Vec<Vec<u8>> = Vec::new();
    let mut i: usize = 0;
    proof {
        assert(h@.skip(0) =~= h@);
        assert(toks.deep_view() + tokens_of(h@) =~= tokens_of(h@));
    }
    while i < h.len()
        invariant
            0 <= i <= h@.len(),
            toks.deep_view() + tokens_of(h@.skip(i as int)) == tokens_of(h@),
        decreases h@.len() - i,
    {
        let b = h[i];
        if b == 9 || b == 10 || b == 11 || b == 12 || b == 13 || b == 32 {
            proof {
                let rest = h@.skip(i as int);
                assert(rest[0] == h@[i as int]);
                assert(rest.drop_first() =~= h@.skip(i + 1));
                assert(tokens_of(rest) == tokens_of(h@.skip(i + 1)));
            }
            i = i + 1;
        } else {
            let ghost prev = toks.deep_view();
            let mut j = i;
            while j < h.len() && !(h[j] == 9 || h[j] == 10 || h[j] == 11 || h[j] == 12 || h[j]
                == 13 || h[j] == 32)
                invariant
                    0 <= i <= j <= h@.len(),
                    forall|k: int| i <= k < j ==> !is_ws(#[trigger] h@[k]),
                decreases h@.len() - j,
            {
                j = j + 1;
            }
            assert(j == h@.len() || is_ws(h@[j as int]));
            assert(!is_ws(h@[i as int]));
            assert(j > i);
            let tok = slice_to_vec(slice_subrange(h.as_slice(), i, j));
            proof {
                let rest = h@.skip(i as int);
                assert(forall|k: int| 0 <= k < j - i ==> rest[k] == h@[k + i] && !is_ws(
                    #[trigger] rest[k],
                ));
                assert(j - i == rest.len() || is_ws(rest[(j - i) as int]));
                lemma_take_token_run(rest, (j - i) as int);
                assert(rest.take((j - i) as int) =~= h@.subrange(i as int, j as int));
                assert(tok@ == h@.subrange(i as int, j as int));
                lemma_take_token_len(rest);
                assert(rest.skip((j - i) as int) =~= h@.skip(j as int));
                assert(tokens_of(rest) == seq![tok@] + tokens_of(h@.skip(j as int)));
            }
            toks.push(tok);
            proof {
                assert(toks.deep_view() =~~= prev.push(tok@));
                assert(prev.push(tok@) + tokens_of(h@.skip(j as int)) =~= prev + (seq![tok@]
                    + tokens_of(h@.skip(j as int))));
            }
            i = j;
        }
    }
    proof {
        assert(h@.skip(i as int) =~= Seq::<u8>::empty());
        assert(tokens_of(h@.skip(i as int)) == Seq::<Seq<u8>>::empty());
        assert(toks.deep_view() =~= tokens_of(h@));
    }
    toks
}

/// Compare two byte strings for equality.
fn bytes_eq(a: &Vec<u8>, b: &Vec<u8>) -> (r: bool)
    ensures
        r == (a@ == b@),
{
    if a.len() != b.len() {
        return false;
    }
    let mut i: usize = 0;
    while i < a.len()
        invariant
            0 <= i <= a@.len(),
            a@.len() == b@.len(),
            forall|k: int| 0 <= k < i ==> a@[k] == b@[k],
        decreases a@.len() - i,
    {
        if a[i] != b[i] {
            return false;
        }
        i = i + 1;
    }
    proof {
        assert(a@ =~= b@);
    }
    true
}

/// Build the keyword bytes `"file"`.
fn kw_file_vec() -> (v: Vec<u8>)
    ensures
        v@ == kw_file(),
{
    let mut v: Vec<u8> = Vec::new();
    v.push(102);
    v.push(105);
    v.push(108);
    v.push(101);
    proof {
        assert(v@ =~= kw_file());
    }
    v
}

/// Build the keyword bytes `"dir"`.
fn kw_dir_vec() -> (v: Vec<u8>)
    ensures
        v@ == kw_dir(),
{
    let mut v: Vec<u8> = Vec::new();
    v.push(100);
    v.push(105);
    v.push(114);
    proof {
        assert(v@ =~= kw_dir());
    }
    v
}

/// Build the keyword bytes `"commit"`.
fn kw_commit_vec() -> (v: Vec<u8>)
    ensures
        v@ == kw_commit(),
{
    let mut v: Vec<u8> = Vec::new();
    v.push(99);
    v.push(111);
    v.push(109);
    v.push(109);
    v.push(105);
    v.push(116);
    proof {
        assert(v@ =~= kw_commit());
    }
    v
}

/// Decode a stored object: decompress the raw on-disk bytes, split at the
/// first newline, and parse the header line. Succeeds exactly on bytes whose
/// decompression is a well-formed object body.
#[verifier::loop_isolation(false)]
pub fn read_plain_object(raw: &Vec<u8>) -> (r: Result<(Header, Vec<u8>), ObjectError>)
    ensures
        match inflate_of(raw@) {
            Some(d) => match parse_object(d) {
                Some(hp) => r matches Ok(p) && p.0@ == hp.0 && p.1@ == hp.1,
                None => r == Err::<(Header, Vec<u8>), ObjectError>(ObjectError::FormatError),
            },
            None => r == Err::<(Header, Vec<u8>), ObjectError>(ObjectError::FormatError),
        },
{
    let data = match decode_object(raw) {
        Ok(d) => d,
        Err(e) => {
            return Err(e);
        },
    };
    let nl = match find_nl(&data) {
        Some(i) => i,
        None => {
            return Err(ObjectError::FormatError);
        },
    };
    let dlen = data.len();
    assert(nl < data@.len());
    let header = slice_to_vec(slice_subrange(data.as_slice(), 0, nl));
    let payload = slice_to_vec(slice_subrange(data.as_slice(), nl + 1, dlen));
    proof {
        assert(header@ =~= data@.take(nl as int));
        assert(payload@ =~= data@.skip(nl + 1));
    }
    let toks = tokenize(&header);
    if toks.len() != 2 {
        proof {
            assert(tokens_of(header@).len() != 2);
        }
        return Err(ObjectError::FormatError);
    }
    let kw = &toks[0];
    let arg = &toks[1];
    proof {
        assert(toks.deep_view()[0] =~= kw@);
        assert(toks.deep_view()[1] =~= arg@);
        assert(tokens_of(header@)[0] == kw@);
        assert(tokens_of(header@)[1] == arg@);
    }
    if bytes_eq(kw, &kw_file_vec()) {
        match parse_decimal(arg) {
            Some(n) => {
                proof {
                    assert(parse_header_line(header@) == Some(HeaderV::File(n as nat)));
                }
                Ok((Header::File(n), payload))
            },
            None => Err(ObjectError::FormatError),
        }
    } else if bytes_eq(kw, &kw_dir_vec()) {
        match parse_decimal(arg) {
            Some(n) => {
                proof {
                    assert(parse_header_line(header@) == Some(HeaderV::Dir(n as nat)));
                }
                Ok((Header::Dir(n), payload))
            },
            None => Err(ObjectError::FormatError),
        }
    } else if bytes_eq(kw, &kw_commit_vec()) {
        let mut i: usize = 0;
        while i < arg.len()
            invariant
                0 <= i <= arg@.len(),
                forall|k: int| 0 <= k < i ==> #[trigger] arg@[k] < 128,
            decreases arg@.len() - i,
        {
            if arg[i] >= 128 {
                assert(!is_ascii_seq(arg@));
                return Err(ObjectError::FormatError);
            }
            i = i + 1;
        }
        assert(is_ascii_seq(arg@));
        let s = ascii_bytes_to_string(arg.clone());
        proof {
            assert(parse_header_line(header@) == Some(HeaderV::Commit(bytes_as_chars(arg@))));
        }
        Ok((Header::Commit(s), payload))
    } else {
        Err(ObjectError::FormatError)
    }
}

/// Decode a stored object that must be a file object, and return its raw
/// payload. Any other kind is a type mismatch.
pub fn read_file_object(raw: &Vec<u8>) -> (r: Result<Vec<u8>, ObjectError>)
    ensures
        match inflate_of(raw@) {
            Some(d) => match parse_object(d) {
                Some(hp) => if hp.0 is File {
                    r matches Ok(v) && v@ == hp.1
                } else {
                    r == Err::<Vec<u8>, ObjectError>(ObjectError::TypeMismatch)
                },
                None => r == Err::<Vec<u8>, ObjectError>(ObjectError::FormatError),
            },
            None => r == Err::<Vec<u8>, ObjectError>(ObjectError::FormatError),
        },
{
    match read_plain_object(raw) {
        Ok((header, data)) => match header {
            Header::File(_) => Ok(data),
            _ => Err(ObjectError::TypeMismatch),
        },
        Err(e) => Err(e),
    }
}

/// A well-formed header line parses back to exactly the header it was
/// rendered from.
pub proof fn lemma_parse_header_line_of_render(h: HeaderV)
    requires
        h.wf(),
    ensures
        parse_header_line(header_bytes(h)) == Some(h),
{
    lemma_header_bytes_plain(h);
    assert(forall|k: int| 0 <= k < kind_word(h).len() ==> !is_ws(#[trigger] kind_word(h)[k]));
    assert(forall|k: int| 0 <= k < kind_arg(h).len() ==> !is_ws(#[trigger] kind_arg(h)[k]));
    lemma_tokens_of_two(kind_word(h), kind_arg(h));
    let toks = tokens_of(header_bytes(h));
    assert(toks == seq![kind_word(h), kind_arg(h)]);
    assert(kw_file().len() == 4 && kw_dir().len() == 3 && kw_commit().len() == 6);
    match h {
        HeaderV::File(n) => {
            crate::decimal::lemma_dec_digits_are_digits(n);
            crate::decimal::lemma_dec_val_of_dec_digits(n);
        },
        HeaderV::Dir(n) => {
            assert(toks[0] != kw_file());
            crate::decimal::lemma_dec_digits_are_digits(n);
            crate::decimal::lemma_dec_val_of_dec_digits(n);
        },
        HeaderV::Commit(s) => {
            assert(toks[0] != kw_file());
            assert(toks[0] != kw_dir());
            assert(is_ascii_seq(crate::digest::chars_as_bytes(s)));
            assert forall|i: int| 0 <= i < s.len() implies #[trigger] bytes_as_chars(
                crate::digest::chars_as_bytes(s),
            )[i] == s[i] by {
                assert(crate::objects::is_plain_char(s[i]));
                crate::digest::lemma_plain_char_casts(s[i]);
                assert(crate::digest::chars_as_bytes(s)[i] == s[i] as u8);
            }
            assert(bytes_as_chars(crate::digest::chars_as_bytes(s)) =~= s);
        },
    }
}

/// Header round-trip: decoding the framed body of a well-formed header and
/// any payload yields exactly that header and payload.
pub proof fn lemma_object_round_trip(h: HeaderV, payload: Seq<u8>)
    requires
        h.wf(),
    ensures
        parse_object(body_bytes(h, payload)) == Some((h, payload)),
{
    let d = body_bytes(h, payload);
    let hlen = header_bytes(h).len() as int;
    lemma_header_bytes_plain(h);
    assert(forall|k: int| 0 <= k < hlen ==> d[k] == header_bytes(h)[k] && d[k] != 10);
    assert(d[hlen] == 10);
    lemma_find_newline_at(d, hlen);
    assert(d.take(hlen) =~= header_bytes(h));
    lemma_parse_header_line_of_render(h);
    assert(d.skip(hlen + 1) =~= payload);
}

/// File-object round-trip: the framed body that `create_file_object` hashes
/// and compresses decodes back to a file header carrying the payload's
/// length, and to the payload itself.
pub proof fn lemma_file_round_trip(data: Seq<u8>)
    requires
        data.len() <= usize::MAX,
    ensures
        parse_object(body_bytes(HeaderV::File(data.len()), data)) == Some(
            (HeaderV::File(data.len()), data),
        ),
{
    lemma_object_round_trip(HeaderV::File(data.len()), data);
}

} // verus!
