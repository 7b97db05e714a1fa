//! Web-side callback verification.
//!
//! The verification link carries the token as a comma-separated list of
//! decimal byte values. This module parses that wire payload — rejecting an
//! empty payload and any malformed element, tolerating exactly one trailing
//! delimiter — and chooses the fixed response page for an outcome. Every
//! failure, whatever its reason, is answered with the same page, so an
//! outside caller learns nothing about why a request failed.

use vstd::prelude::*;

use crate::digits::{all_digit_chars, dec_value_chars, is_digit_char, lemma_dec_value_chars_prefix};

verus! {

/// `s` split at every occurrence of `d`. Splitting the empty string gives
/// one empty element, as splitting any delimiter-free string gives itself.
pub open spec fn split_on(s: Seq<char>, d: char) -> Seq<Seq<char>>
    decreases s.len(),
{
    if s.len() == 0 {
        seq![s]
    } else if s[0] == d {
        seq![Seq::<char>::empty()] + split_on(s.drop_first(), d)
    } else {
        let rest = split_on(s.drop_first(), d);
        seq![seq![s[0]] + rest[0]] + rest.drop_first()
    }
}

/// A split has at least one element.
pub proof fn lemma_split_on_len(s: Seq<char>, d: char)
    ensures
        split_on(s, d).len() >= 1,
    decreases s.len(),
{
    if s.len() > 0 {
        lemma_split_on_len(s.drop_first(), d);
    }
}

/// Splitting, read off the first delimiter: if the first `e` characters are
/// delimiter-free and `e` sits on a delimiter (or the end), the first
/// element is `s.take(e)` and the rest is the split of what follows it.
pub proof fn lemma_split_on_step(s: Seq<char>, d: char, e: int)
    requires
        0 <= e <= s.len(),
        forall|k: int| 0 <= k < e ==> s[k] != d,
        e == s.len() || s[e] == d,
    ensures
        e == s.len() ==> split_on(s, d) == seq![s],
        e < s.len() ==> split_on(s, d) == seq![s.take(e)] + split_on(s.skip(e + 1), d),
        split_on(s, d)[0] == s.take(e),
    decreases s.len(),
{
    lemma_split_on_len(s, d);
    if s.len() == 0 {
        assert(s.take(0) =~= s);
        assert(split_on(s, d) =~= seq![s]);
    } else if s[0] == d {
        assert(e == 0);
        assert(s.take(0) =~= Seq::<char>::empty());
        assert(s.skip(1) =~= s.drop_first());
        assert(split_on(s, d) =~~= seq![s.take(e)] + split_on(s.skip(e + 1), d));
    } else {
        assert(e >= 1);
        let t = s.drop_first();
        lemma_split_on_len(t, d);
        assert(forall|k: int| 0 <= k < e - 1 ==> t[k] != d);
        lemma_split_on_step(t, d, e - 1);
        let rest = split_on(t, d);
        if e == s.len() {
            assert(rest == seq![t]);
            assert(seq![s[0]] + rest[0] =~= s);
            assert(rest.drop_first() =~= Seq::<Seq<char>>::empty());
            assert(split_on(s, d) =~~= seq![s]);
            assert(s.take(e) =~= s);
        } else {
            assert(rest == seq![t.take(e - 1)] + split_on(t.skip(e), d));
            assert(rest[0] == t.take(e - 1));
            assert(seq![s[0]] + t.take(e - 1) =~= s.take(e));
            assert(rest.drop_first() =~= split_on(t.skip(e), d));
            assert(t.skip(e) =~= s.skip(e + 1));
            assert(split_on(s, d) =~~= seq![s.take(e)] + split_on(s.skip(e + 1), d));
        }
    }
}

/// `s` split at `d`, with one trailing delimiter tolerated: a final empty
/// element after the last delimiter is stripped, and the empty string has
/// no elements at all.
pub open spec fn split_terminator_on(s: Seq<char>, d: char) -> Seq<Seq<char>> {
    if s.len() == 0 {
        Seq::empty()
    } else if s.last() == d {
        split_on(s.drop_last(), d)
    } else {
        split_on(s, d)
    }
}

/// A wire-payload element read as one byte: non-empty decimal digits whose
/// value fits in a byte.
pub open spec fn parse_byte_chars(e: Seq<char>) -> Option<u8> {
    if e.len() > 0 && all_digit_chars(e) && dec_value_chars(e) <= 255 {
        Some(dec_value_chars(e) as u8)
    } else {
        None
    }
}

/// The token bytes a wire payload denotes, if it is well-formed: non-empty,
/// split at `d` with one trailing delimiter tolerated, every element a byte.
pub open spec fn payload_bytes(s: Seq<char>, d: char) -> Option<Seq<u8>> {
    if s.len() == 0 {
        None
    } else {
        let elems = split_terminator_on(s, d);
        if forall|k: int| 0 <= k < elems.len() ==> (#[trigger] parse_byte_chars(elems[k])) is Some {
            Some(Seq::new(elems.len(), |k: int| parse_byte_chars(elems[k]).unwrap()))
        } else {
            None
        }
    }
}

/// Why a wire payload was rejected.
#[derive(Clone, Copy, Debug, PartialEq, Eq, Structural)]
pub enum ParseError {
    /// The payload was empty.
    Empty,
    /// Some element — other than an empty one after a single trailing
    /// delimiter — failed to parse as a decimal byte value.
    BadElement,
}

/// Parses a non-empty delimiter-separated string of decimal byte values.
/// A single trailing delimiter is tolerated and stripped; an empty element
/// anywhere else, or any element that is not a byte value, is an error.
pub fn delimited_string_try_into_vec(input: &str, delimiter: &str) -> (r: Result<
    Vec<u8>,
    ParseError,
>)
    requires
        delimiter@.len() == 1,
    ensures
        r is Ok <==> payload_bytes(input@, delimiter@[0]) is Some,
        r matches Ok(v) ==> payload_bytes(input@, delimiter@[0]) == Some(v@),
        r == Err::<Vec<u8>, ParseError>(ParseError::Empty) <==> input@.len() == 0,
{
    let n: usize = input.unicode_len();
    if n == 0 {
        return Err(ParseError::Empty);
    }
    let d: char = delimiter.get_char(0);
    let mut cs: Vec<char> = Vec::new();
    let mut ci: usize = 0;
    while ci < n
        invariant
            n == input@.len(),
            ci <= n,
            cs@ =~= input@.take(ci as int),
        decreases n - ci,
    {
        cs.push(input.get_char(ci));
        proof {
            assert(input@.take(ci + 1) =~= input@.take(ci as int).push(input@[ci as int]));
        }
        ci = ci + 1;
    }
    proof {
        assert(input@.take(n as int) =~= input@);
    }
    let m: usize = if cs[n - 1] == d {
        n - 1
    } else {
        n
    };
    let ghost full = input@.take(m as int);
    let ghost elems = split_on(full, d);
    proof {
        if m < n {
            assert(full =~= input@.drop_last());
        } else {
            assert(full =~= input@);
        }
        assert(split_terminator_on(input@, d) == elems);
        assert(full.skip(0) =~= full);
    }
    let mut out: Vec<u8> = Vec::new();
    let mut start: usize = 0;
    let ghost mut done: int = 0;
    loop
        invariant_except_break
            delimiter@.len() == 1,
            d == delimiter@[0],
            n == input@.len(),
            n >= 1,
            n == cs@.len(),
            cs@ == input@,
            m <= n,
            full == input@.take(m as int),
            elems == split_on(full, d),
            split_terminator_on(input@, d) == elems,
            start <= m,
            done == out@.len(),
            0 <= done <= elems.len(),
            elems.skip(done) == split_on(full.skip(start as int), d),
            forall|k: int|
                0 <= k < done ==> (#[trigger] parse_byte_chars(elems[k])) == Some(out@[k]),
        ensures
            payload_bytes(input@, d) == Some(out@),
        decreases m - start,
    {
        let mut end: usize = start;
        #[verifier::loop_isolation(false)]
        while end < m && cs[end] != d
            invariant
                n == input@.len(),
                n == cs@.len(),
                cs@ == input@,
                m <= n,
                full == input@.take(m as int),
                start <= end <= m,
                forall|k: int| start <= k < end ==> full[k] != d,
            decreases m - end,
        {
            proof {
                assert(full[end as int] == input@[end as int]);
            }
            end = end + 1;
        }
        let ghost tail = full.skip(start as int);
        let ghost e = end - start;
        proof {
            assert(tail.len() == m - start);
            assert forall|k: int| 0 <= k < e implies tail[k] != d by {
                assert(tail[k] == full[start + k]);
            }
            if end < m {
                assert(full[end as int] == input@[end as int]);
                assert(tail[e] == full[end as int]);
            }
            lemma_split_on_step(tail, d, e);
            lemma_split_on_len(tail, d);
            assert(elems.skip(done)[0] == elems[done]);
            assert(elems[done] == tail.take(e));
        }
        let ghost elem = tail.take(e);
        // parse the element cs[start..end) as one decimal byte value
        if end == start {
            proof {
                assert(elem =~= Seq::<char>::empty());
                assert(parse_byte_chars(elems[done]) is None);
                assert(payload_bytes(input@, d) is None);
            }
            return Err(ParseError::BadElement);
        }
        let mut acc: u32 = 0;
        let mut k: usize = start;
        #[verifier::loop_isolation(false)]
        while k < end
            invariant
                n == input@.len(),
                n == cs@.len(),
                cs@ == input@,
                m <= n,
                full == input@.take(m as int),
                start <= k <= end <= m,
                elem == full.subrange(start as int, end as int),
                all_digit_chars(elem.take(k - start)),
                acc == dec_value_chars(elem.take(k - start)),
                acc <= 255,
            decreases end - k,
        {
            let c = cs[k];
            let u = c as u32;
            proof {
                assert(elem[k - start] == full[k as int]);
                assert(full[k as int] == input@[k as int]);
            }
            if u < 48 || u > 57 {
                proof {
                    assert(!is_digit_char(elem[k - start]));
                    assert(!all_digit_chars(elem));
                    assert(parse_byte_chars(elems[done]) is None);
                    assert(payload_bytes(input@, d) is None);
                }
                return Err(ParseError::BadElement);
            }
            let acc2 = acc * 10 + (u - 48);
            proof {
                let pre = elem.take(k - start);
                let cur = elem.take(k + 1 - start);
                assert(cur.drop_last() =~= pre);
                assert(cur.last() == elem[k - start]);
                assert(acc2 == dec_value_chars(cur));
            }
            if acc2 > 255 {
                proof {
                    lemma_dec_value_chars_prefix(elem, k + 1 - start);
                    assert(dec_value_chars(elem) > 255);
                    assert(parse_byte_chars(elems[done]) is None);
                    assert(payload_bytes(input@, d) is None);
                }
                return Err(ParseError::BadElement);
            }
            acc = acc2;
            k = k + 1;
        }
        proof {
            assert(elem.take(end - start) =~= elem);
            assert(parse_byte_chars(elems[done]) == Some(acc as u8));
        }
        out.push(acc as u8);
        proof {
            done = done + 1;
        }
        if end == m {
            proof {
                assert(e == tail.len());
                assert(split_on(tail, d) == seq![tail]);
                assert(elems.skip(done - 1) =~~= seq![tail]);
                assert(elems.len() == done);
                assert forall|j: int|
                    0 <= j < elems.len() implies (#[trigger] parse_byte_chars(
                    elems[j],
                )) is Some by {}
                assert(payload_bytes(input@, d) == Some(
                    Seq::new(elems.len(), |j: int| parse_byte_chars(elems[j]).unwrap()),
                ));
                assert(Seq::new(elems.len(), |j: int| parse_byte_chars(elems[j]).unwrap())
                    =~= out@);
            }
            break;
        }
        proof {
            assert(split_on(tail, d) == seq![elem] + split_on(tail.skip(e + 1), d));
            assert(tail.skip(e + 1) =~= full.skip(end + 1));
            assert(elems.skip(done - 1).drop_first() =~~= elems.skip(done));
            assert((seq![elem] + split_on(full.skip(end + 1), d)).drop_first() =~~= split_on(
                full.skip(end + 1),
                d,
            ));
            assert(elems.skip(done) =~~= split_on(full.skip(end + 1), d));
        }
        start = end + 1;
    }
    Ok(out)
}

/// Why a verification attempt failed. The reason stays on the server side:
/// the remote caller sees one generic failure response for all of them.
#[derive(Clone, Copy, Debug, PartialEq, Eq, Structural)]
pub enum FailReason {
    /// The wire payload was malformed.
    Parse,
    /// The token did not decode: tampered, wrong key, or ill-formed plaintext.
    Crypto,
    /// The access grantor refused or could not be reached.
    Grant,
}

/// Result of one verification attempt.
#[derive(Clone, Copy, Debug, PartialEq, Eq, Structural)]
pub enum Outcome {
    /// The identity was decoded and access was granted.
    Granted,
    /// The attempt failed; the reason is for local logs only.
    Failed(FailReason),
}

/// The page answering a successful verification.
pub open spec fn verified_page() -> Seq<char> {
    "mcmonarch_web/static/verified.html"@
}

/// The page answering every failed verification, whatever the reason.
pub open spec fn failed_page() -> Seq<char> {
    "mcmonarch_web/static/failed.html"@
}

/// Chooses the response page for an outcome. Every failure maps to the same
/// fixed page — no reason reaches the remote caller.
pub fn response_path(outcome: &Outcome) -> (r: String)
    ensures
        outcome is Granted ==> r@ == verified_page(),
        !(outcome is Granted) ==> r@ == failed_page(),
{
    match outcome {
        Outcome::Granted => String::from_str("mcmonarch_web/static/verified.html"),
        Outcome::Failed(_) => String::from_str("mcmonarch_web/static/failed.html"),
    }
}

} // verus!
