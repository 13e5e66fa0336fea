//! The object store's data model: object kinds, their header lines, and the
//! sharded storage path of a digest.

pub mod create;
pub mod read;

use vstd::prelude::*;
use vstd::string::*;

use crate::decimal::{dec_digits, is_digit, lemma_dec_digits_are_digits};
use crate::digest::{bytes_as_chars, chars_as_bytes, is_ascii_seq};

verus! {

/// The kind of a stored object together with its scalar header argument.
#[derive(Debug)]
pub enum Header {
    /// A file payload; the argument is its size in bytes.
    File(usize),
    /// A directory object; the argument is its entry count.
    Dir(usize),
    /// A commit object; the argument is the digest of the directory object
    /// the commit points to.
    Commit(String),
}

/// The mathematical value of a [`Header`].
pub enum HeaderV {
    File(nat),
    Dir(nat),
    Commit(Seq<char>),
}

impl View for Header {
    type V = HeaderV;

    open spec fn view(&self) -> HeaderV {
        match self {
            Header::File(n) => HeaderV::File(*n as nat),
            Header::Dir(n) => HeaderV::Dir(*n as nat),
            Header::Commit(s) => HeaderV::Commit(s@),
        }
    }
}

/// A printable ASCII character other than space: what a digest string is
/// made of, and the only characters a commit argument may carry so that the
/// header line stays a single line of exactly two tokens.
pub open spec fn is_plain_char(c: char) -> bool {
    33 <= c as u32 <= 126
}

impl HeaderV {
    /// A header that can be rendered to a well-formed single-line header:
    /// sizes fit the machine, and a commit argument is a nonempty string of
    /// printable, non-whitespace ASCII characters.
    pub open spec fn wf(self) -> bool {
        match self {
            HeaderV::File(n) => n <= usize::MAX,
            HeaderV::Dir(n) => n <= usize::MAX,
            HeaderV::Commit(s) => s.len() > 0 && forall|i: int|
                0 <= i < s.len() ==> is_plain_char(#[trigger] s[i]),
        }
    }
}

/// The keyword bytes `"file"`.
pub open spec fn kw_file() -> Seq<u8> {
    seq![102u8, 105u8, 108u8, 101u8]
}

/// The keyword bytes `"dir"`.
pub open spec fn kw_dir() -> Seq<u8> {
    seq![100u8, 105u8, 114u8]
}

/// The keyword bytes `"commit"`.
pub open spec fn kw_commit() -> Seq<u8> {
    seq![99u8, 111u8, 109u8, 109u8, 105u8, 116u8]
}

/// The kind keyword of a header, as bytes.
pub open spec fn kind_word(h: HeaderV) -> Seq<u8> {
    match h {
        HeaderV::File(_) => kw_file(),
        HeaderV::Dir(_) => kw_dir(),
        HeaderV::Commit(_) => kw_commit(),
    }
}

/// The argument bytes of a header: a decimal size or count, or the commit's
/// digest string.
pub open spec fn kind_arg(h: HeaderV) -> Seq<u8> {
    match h {
        HeaderV::File(n) => dec_digits(n),
        HeaderV::Dir(n) => dec_digits(n),
        HeaderV::Commit(s) => chars_as_bytes(s),
    }
}

/// The header line of an object, without the terminating newline:
/// `"<kind> <arg>"`.
pub open spec fn header_bytes(h: HeaderV) -> Seq<u8> {
    kind_word(h) + seq![32u8] + kind_arg(h)
}

/// The full framed body of an object: header line, one newline byte, then
/// the raw payload. The digest is computed over exactly these bytes, and
/// these bytes are what gets compressed for storage.
pub open spec fn body_bytes(h: HeaderV, payload: Seq<u8>) -> Seq<u8> {
    header_bytes(h) + seq![10u8] + payload
}

/// A well-formed header renders to ASCII bytes in which neither token is
/// empty and no byte is whitespace.
pub proof fn lemma_header_bytes_plain(h: HeaderV)
    requires
        h.wf(),
    ensures
        kind_word(h).len() > 0,
        kind_arg(h).len() > 0,
        forall|i: int| 0 <= i < kind_word(h).len() ==> 33 <= #[trigger] kind_word(h)[i] <= 126,
        forall|i: int| 0 <= i < kind_arg(h).len() ==> 33 <= #[trigger] kind_arg(h)[i] <= 126,
        is_ascii_seq(header_bytes(h)),
{
    match h {
        HeaderV::File(n) => {
            lemma_dec_digits_are_digits(n);
            assert(forall|i: int| 0 <= i < kind_arg(h).len() ==> is_digit(#[trigger] kind_arg(h)[i]));
        },
        HeaderV::Dir(n) => {
            lemma_dec_digits_are_digits(n);
            assert(forall|i: int| 0 <= i < kind_arg(h).len() ==> is_digit(#[trigger] kind_arg(h)[i]));
        },
        HeaderV::Commit(s) => {
            assert forall|i: int| 0 <= i < chars_as_bytes(s).len() implies 33
                <= #[trigger] chars_as_bytes(s)[i] <= 126 by {
                assert(is_plain_char(s[i]));
                crate::digest::lemma_plain_char_casts(s[i]);
                assert(chars_as_bytes(s)[i] == s[i] as u8);
            }
        },
    }
}

/// The storage path of a digest under a repository metadata root:
/// `<root>/objects/<first two hex characters>/<rest>`. Sharding by the
/// two-character prefix bounds the fan-out of any one directory.
pub fn resolve_filepath(root: &str, hash: &str) -> (r: String)
    requires
        hash@.len() >= 2,
    ensures
        r@ == root@ + "/objects/"@ + hash@.take(2) + "/"@ + hash@.skip(2),
{
    let n = hash.unicode_len();
    let prefix = hash.substring_char(0, 2);
    let rest = hash.substring_char(2, n);
    let mut out = String::from_str(root);
    out.append("/objects/");
    out.append(prefix);
    out.append("/");
    out.append(rest);
    proof {
        assert(out@ =~= root@ + "/objects/"@ + hash@.take(2) + "/"@ + hash@.skip(2));
    }
    out
}

} // verus!
