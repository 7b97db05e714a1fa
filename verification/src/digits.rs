//! Decimal digit strings.
//!
//! Identities travel as the ASCII decimal digits of their numeric value, and
//! the wire payload carries token bytes as decimal numbers. This module gives
//! the digit strings their mathematical meaning (`dec_value_bytes`,
//! `dec_bytes_of`) and the verified conversions between machine integers and
//! digit strings.

use vstd::prelude::*;
use vstd::utf8::{encode_utf8, is_ascii_chars, is_ascii_chars_encode_utf8};

verus! {

/// `b` is the ASCII code of a decimal digit.
pub open spec fn is_digit_byte(b: u8) -> bool {
    48 <= b && b <= 57
}

/// Every byte of `s` is the ASCII code of a decimal digit.
pub open spec fn all_digit_bytes(s: Seq<u8>) -> bool {
    forall|i: int| 0 <= i < s.len() ==> is_digit_byte(#[trigger] s[i])
}

/// Numeric value of a big-endian decimal digit string.
pub open spec fn dec_value_bytes(s: Seq<u8>) -> nat
    decreases s.len(),
{
    if s.len() == 0 {
        0
    } else {
        dec_value_bytes(s.drop_last()) * 10 + (s.last() - 48) as nat
    }
}

/// Canonical decimal digit string of `n`: most significant digit first,
/// no leading zeros (`0` itself is the single digit `"0"`).
pub open spec fn dec_bytes_of(n: nat) -> Seq<u8>
    decreases n,
{
    if n < 10 {
        seq![(n + 48) as u8]
    } else {
        dec_bytes_of(n / 10).push((n % 10 + 48) as u8)
    }
}

/// The canonical digit string is non-empty and consists of digits.
pub proof fn lemma_dec_bytes_of_digits(n: nat)
    ensures
        dec_bytes_of(n).len() >= 1,
        all_digit_bytes(dec_bytes_of(n)),
    decreases n,
{
    if n >= 10 {
        lemma_dec_bytes_of_digits(n / 10);
        let s = dec_bytes_of(n / 10);
        let t = s.push((n % 10 + 48) as u8);
        assert forall|i: int| 0 <= i < t.len() implies is_digit_byte(#[trigger] t[i]) by {
            if i < s.len() {
                assert(is_digit_byte(s[i]));
            }
        }
    }
}

/// Reading back the canonical digit string of `n` yields `n`.
pub proof fn lemma_dec_bytes_of_value(n: nat)
    ensures
        dec_value_bytes(dec_bytes_of(n)) == n,
    decreases n,
{
    if n < 10 {
        let s = dec_bytes_of(n);
        assert(s.drop_last() =~= Seq::<u8>::empty());
        assert(dec_value_bytes(Seq::<u8>::empty()) == 0);
        assert(s.last() == (n + 48) as u8);
        assert(dec_value_bytes(s) == 0 * 10 + (s.last() - 48) as nat);
    } else {
        lemma_dec_bytes_of_value(n / 10);
        let s = dec_bytes_of(n / 10);
        let t = s.push((n % 10 + 48) as u8);
        assert(t.drop_last() =~= s);
        assert(dec_value_bytes(t) == (n / 10) * 10 + n % 10);
        assert((n / 10) * 10 + n % 10 == n) by (nonlinear_arith);
    }
}

/// The value of a prefix of a digit string never exceeds the whole string's value.
pub proof fn lemma_dec_value_prefix(s: Seq<u8>, j: int)
    requires
        0 <= j <= s.len(),
    ensures
        dec_value_bytes(s.take(j)) <= dec_value_bytes(s),
    decreases s.len() - j,
{
    if j < s.len() {
        assert(s.take(j + 1).drop_last() =~= s.take(j));
        assert(dec_value_bytes(s.take(j + 1)) == dec_value_bytes(s.take(j)) * 10 + (s.take(
            j + 1,
        ).last() - 48) as nat);
        lemma_dec_value_prefix(s, j + 1);
    } else {
        assert(s.take(j) =~= s);
    }
}

/// The decimal digit string of `n`, most significant digit first.
pub fn u64_to_dec_bytes(n: u64) -> (r: Vec<u8>)
    ensures
        r@ == dec_bytes_of(n as nat),
{
    let mut rev: Vec<u8> = Vec::new();
    let mut m: u64 = n;
    loop
        invariant_except_break
            dec_bytes_of(n as nat) =~= dec_bytes_of(m as nat) + rev@.reverse(),
        ensures
            dec_bytes_of(n as nat) =~= rev@.reverse(),
        decreases m,
    {
        let ghost prev = rev@;
        let d: u8 = (m % 10) as u8 + 48;
        rev.push(d);
        proof {
            assert(rev@.reverse() =~= seq![d] + prev.reverse());
            if m >= 10 {
                assert(dec_bytes_of(m as nat) =~= dec_bytes_of((m as nat) / 10).push(d));
                assert(dec_bytes_of((m as nat) / 10).push(d) =~= dec_bytes_of((m as nat) / 10)
                    + seq![d]);
                assert(dec_bytes_of(m as nat) + prev.reverse() =~= dec_bytes_of((m as nat) / 10)
                    + (seq![d] + prev.reverse()));
            } else {
                assert(dec_bytes_of(m as nat) =~= seq![d]);
                assert(dec_bytes_of(n as nat) =~= rev@.reverse());
            }
        }
        if m < 10 {
            break;
        }
        m = m / 10;
    }
    let mut out: Vec<u8> = Vec::new();
    let total: usize = rev.len();
    let ghost full = dec_bytes_of(n as nat);
    while out.len() < total
        invariant
            total == rev@.len(),
            full =~= rev@.reverse(),
            out@.len() <= total,
            forall|k: int| 0 <= k < out@.len() ==> out@[k] == full[k],
        decreases total - out.len(),
    {
        let i: usize = out.len();
        let b: u8 = rev[total - 1 - i];
        out.push(b);
    }
    proof {
        assert(out@ =~= full);
    }
    out
}

/// Parses a big-endian decimal digit string as a `u64`.
///
/// Succeeds exactly on non-empty all-digit strings whose value fits in `u64`.
pub fn parse_u64_dec_bytes(s: &[u8]) -> (r: Option<u64>)
    ensures
        r is Some <==> (s@.len() > 0 && all_digit_bytes(s@) && dec_value_bytes(s@) <= u64::MAX),
        r matches Some(v) ==> v == dec_value_bytes(s@),
{
    let n = s.len();
    if n == 0 {
        return None;
    }
    let mut acc: u128 = 0;
    let mut i: usize = 0;
    while i < n
        invariant
            n == s@.len(),
            0 <= i <= n,
            all_digit_bytes(s@.take(i as int)),
            acc == dec_value_bytes(s@.take(i as int)),
            acc <= u64::MAX,
        decreases n - i,
    {
        let b = s[i];
        if b < 48 || b > 57 {
            assert(!is_digit_byte(s@[i as int]));
            return None;
        }
        let step: u128 = acc * 10 + (b - 48) as u128;
        proof {
            assert(s@.take(i + 1).drop_last() =~= s@.take(i as int));
            assert(s@.take(i + 1).last() == s@[i as int]);
            assert(all_digit_bytes(s@.take(i + 1)));
            assert(step == dec_value_bytes(s@.take(i + 1)));
        }
        if step > u64::MAX as u128 {
            proof {
                lemma_dec_value_prefix(s@, i + 1);
            }
            return None;
        }
        acc = step;
        i = i + 1;
    }
    proof {
        assert(s@.take(n as int) =~= s@);
    }
    Some(acc as u64)
}

/// `c` is a decimal digit character.
pub open spec fn is_digit_char(c: char) -> bool {
    48 <= c as u32 && c as u32 <= 57
}

/// Every character of `s` is a decimal digit.
pub open spec fn all_digit_chars(s: Seq<char>) -> bool {
    forall|i: int| 0 <= i < s.len() ==> is_digit_char(#[trigger] s[i])
}

/// Numeric value of a big-endian decimal digit character string.
pub open spec fn dec_value_chars(s: Seq<char>) -> nat
    decreases s.len(),
{
    if s.len() == 0 {
        0
    } else {
        dec_value_chars(s.drop_last()) * 10 + (s.last() as u32 - 48) as nat
    }
}

/// The value of a prefix of a digit character string never exceeds the whole
/// string's value.
pub proof fn lemma_dec_value_chars_prefix(s: Seq<char>, j: int)
    requires
        0 <= j <= s.len(),
    ensures
        dec_value_chars(s.take(j)) <= dec_value_chars(s),
    decreases s.len() - j,
{
    if j < s.len() {
        assert(s.take(j + 1).drop_last() =~= s.take(j));
        assert(dec_value_chars(s.take(j + 1)) == dec_value_chars(s.take(j)) * 10 + (s.take(
            j + 1,
        ).last() as u32 - 48) as nat);
        lemma_dec_value_chars_prefix(s, j + 1);
    } else {
        assert(s.take(j) =~= s);
    }
}

/// `cs` is the character-for-byte reading of the ASCII byte string `bs`.
pub open spec fn chars_are_ascii_bytes(cs: Seq<char>, bs: Seq<u8>) -> bool {
    &&& cs.len() == bs.len()
    &&& forall|i: int|
        0 <= i < cs.len() ==> '\0' <= #[trigger] cs[i] && cs[i] <= '\u{7f}' && cs[i] as u8
            == bs[i]
}

/// ASCII characters UTF-8-encode to exactly their code-point bytes.
pub proof fn lemma_ascii_chars_encode(cs: Seq<char>, bs: Seq<u8>)
    requires
        chars_are_ascii_bytes(cs, bs),
    ensures
        encode_utf8(cs) == bs,
{
    assert(is_ascii_chars(cs));
    is_ascii_chars_encode_utf8(cs);
    assert(encode_utf8(cs) =~= bs);
}

/// Relies on `String::from_utf8`: bytes below 128 are valid UTF-8 and decode
/// to the string whose characters are exactly those bytes' code points.
#[verifier::external_body]
pub(crate) fn ascii_to_string(bytes: Vec<u8>) -> (r: String)
    requires
        forall|i: int| 0 <= i < bytes@.len() ==> bytes@[i] < 128,
    ensures
        chars_are_ascii_bytes(r@, bytes@),
{
    match String::from_utf8(bytes) {
        Ok(s) => s,
        Err(_) => String::new(),
    }
}

/// The decimal digit string of `n`, as a `String`.
pub fn u64_to_string(n: u64) -> (r: String)
    ensures
        chars_are_ascii_bytes(r@, dec_bytes_of(n as nat)),
{
    let digits = u64_to_dec_bytes(n);
    proof {
        lemma_dec_bytes_of_digits(n as nat);
        assert forall|i: int| 0 <= i < digits@.len() implies digits@[i] < 128 by {
            assert(is_digit_byte(digits@[i]));
        }
    }
    ascii_to_string(digits)
}

} // verus!

