//! Decimal rendering and parsing of unsigned sizes, as they appear in the
//! argument position of `file` and `dir` header lines.

use vstd::prelude::*;

verus! {

/// A decimal digit byte, `'0'` through `'9'`.
pub open spec fn is_digit(b: u8) -> bool {
    48 <= b <= 57
}

/// Every byte of `s` is a decimal digit.
pub open spec fn is_digits(s: Seq<u8>) -> bool {
    forall|i: int| 0 <= i < s.len() ==> is_digit(#[trigger] s[i])
}

/// Numeric value of a digit byte.
pub open spec fn digit_val(b: u8) -> nat {
    (b - 48) as nat
}

/// The decimal digit bytes of `n`, most significant first, with no sign and
/// no leading zero (except for `n == 0`, rendered as `"0"`).
pub open spec fn dec_digits(n: nat) -> Seq<u8>
    decreases n,
{
    if n < 10 {
        seq![(48 + n) as u8]
    } else {
        dec_digits(n / 10).push((48 + n % 10) as u8)
    }
}

/// The value denoted by a sequence of decimal digit bytes (leading zeros
/// permitted; meaningful only when `is_digits(s)`).
pub open spec fn dec_val(s: Seq<u8>) -> nat
    decreases s.len(),
{
    if s.len() == 0 {
        0
    } else {
        dec_val(s.drop_last()) * 10 + digit_val(s.last())
    }
}

/// Rendering produces at least one byte, and only digit bytes.
pub proof fn lemma_dec_digits_are_digits(n: nat)
    ensures
        dec_digits(n).len() >= 1,
        is_digits(dec_digits(n)),
    decreases n,
{
    if n < 10 {
    } else {
        lemma_dec_digits_are_digits(n / 10);
    }
}

/// Parsing inverts rendering: the digit string of `n` denotes `n`.
pub proof fn lemma_dec_val_of_dec_digits(n: nat)
    ensures
        dec_val(dec_digits(n)) == n,
    decreases n,
{
    if n < 10 {
        let s = dec_digits(n);
        assert(s.drop_last() =~= Seq::<u8>::empty());
        assert(s.last() == (48 + n) as u8);
        assert(digit_val((48 + n) as u8) == n);
        assert(dec_val(s) == dec_val(s.drop_last()) * 10 + digit_val(s.last()));
    } else {
        lemma_dec_val_of_dec_digits(n / 10);
        let s = dec_digits(n / 10).push((48 + n % 10) as u8);
        assert(s.drop_last() =~= dec_digits(n / 10));
        assert(digit_val(s.last()) == n % 10);
        vstd::arithmetic::div_mod::lemma_fundamental_div_mod(n as int, 10);
    }
}

/// The value of a digit string bounds the value of each of its prefixes.
pub proof fn lemma_dec_val_prefix(s: Seq<u8>, j: int)
    requires
        0 <= j <= s.len(),
    ensures
        dec_val(s.take(j)) <= dec_val(s),
    decreases s.len() - j,
{
    if j < s.len() {
        assert(s.take(j + 1).drop_last() =~= s.take(j));
        assert(s.take(j + 1).last() == s[j]);
        assert(dec_val(s.take(j)) <= dec_val(s.take(j)) * 10 + digit_val(s[j]));
        lemma_dec_val_prefix(s, j + 1);
    } else {
        assert(s.take(j) =~= s);
    }
}

/// Render `n` as its decimal digit bytes.
pub fn render_decimal(n: usize) -> (r: Vec<u8>)
    ensures
        r@ == dec_digits(n as nat),
    decreases n,
{
    if n < 10 {
        let mut v: Vec<u8> = Vec::new();
        v.push(48 + (n as u8));
        proof {
            assert(v@ =~= dec_digits(n as nat));
        }
        v
    } else {
        let mut v = render_decimal(n / 10);
        v.push(48 + ((n % 10) as u8));
        v
    }
}

/// Parse a decimal digit string into a size. Returns `Some` exactly when the
/// input is a nonempty all-digit string whose value fits in `usize`.
pub fn parse_decimal(s: &Vec<u8>) -> (r: Option<usize>)
    ensures
        r is Some <==> s@.len() > 0 && is_digits(s@) && dec_val(s@) <= usize::MAX,
        r matches Some(v) ==> v == dec_val(s@),
{
    if s.len() == 0 {
        return None;
    }
    let mut acc: usize = 0;
    let mut i: usize = 0;
    while i < s.len()
        invariant
            0 <= i <= s@.len(),
            is_digits(s@.take(i as int)),
            acc == dec_val(s@.take(i as int)),
        decreases s@.len() - i,
    {
        let b = s[i];
        if b < 48 || b > 57 {
            assert(!is_digit(s@[i as int]));
            return None;
        }
        let d = b - 48;
        if acc > (usize::MAX - (d as usize)) / 10 {
            proof {
                assert(s@.take(i + 1).drop_last() =~= s@.take(i as int));
                assert(dec_val(s@.take(i + 1)) == acc * 10 + digit_val(b));
                assert(acc * 10 + digit_val(b) > usize::MAX);
                lemma_dec_val_prefix(s@, i + 1);
            }
            return None;
        }
        proof {
            assert(acc <= (usize::MAX - (d as usize)) / 10);
            assert(acc * 10 <= ((usize::MAX - (d as usize)) / 10) * 10);
            assert(((usize::MAX - (d as usize)) / 10) * 10 <= usize::MAX - (d as usize));
            assert(s@.take(i + 1).drop_last() =~= s@.take(i as int));
        }
        acc = acc * 10 + (d as usize);
        i = i + 1;
    }
    proof {
        assert(s@.take(i as int) =~= s@);
    }
    Some(acc)
}

} // verus!
