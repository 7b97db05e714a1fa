//! Outbound verification email and address extraction.
//!
//! `Email::extract_odu_email` pulls the first restricted-domain address out
//! of free text: a maximal run of local-part characters followed immediately
//! by the fixed organizational domain, scanning left to right. Trailing
//! punctuation after the domain is never part of the match.

use vstd::prelude::*;
use vstd::string::StringSliceAdditionalSpecFns;

use crate::codec::{decrypt_of, encrypt_bytes};
use crate::digits::{
    chars_are_ascii_bytes, dec_bytes_of, is_digit_byte, lemma_dec_bytes_of_digits,
    u64_to_dec_bytes,
};

verus! {

/// `c` may appear in the local part of an address: ASCII letters, digits,
/// and `.!#$%&'*+/=?^_`{|}~-` (the unquoted-address character set).
pub open spec fn is_local_char(c: char) -> bool {
    let u = c as u32;
    (97 <= u && u <= 122)  // 'a'-'z'
     || (65 <= u && u <= 90)  // 'A'-'Z'
     || (48 <= u && u <= 57)  // '0'-'9'
     || u == 33  // '!'
     || u == 35  // '#'
     || u == 36  // '$'
     || u == 37  // '%'
     || u == 38  // '&'
     || u == 39  // '\''
     || u == 42  // '*'
     || u == 43  // '+'
     || u == 45  // '-'
     || u == 46  // '.'
     || u == 47  // '/'
     || u == 61  // '='
     || u == 63  // '?'
     || u == 94  // '^'
     || u == 95  // '_'
     || u == 96  // '`'
     || u == 123  // '{'
     || u == 124  // '|'
     || u == 125  // '}'
     || u == 126  // '~'
}

/// The fixed organizational domain, with the separating `@`.
pub open spec fn odu_domain() -> Seq<char> {
    seq!['@', 'o', 'd', 'u', '.', 'e', 'd', 'u']
}

/// An address occupies `s[i..j + 8)`: a non-empty run of local-part
/// characters `s[i..j)` followed immediately by the domain.
pub open spec fn email_at(s: Seq<char>, i: int, j: int) -> bool {
    &&& 0 <= i < j
    &&& j + 8 <= s.len()
    &&& (forall|k: int| i <= k < j ==> is_local_char(#[trigger] s[k]))
    &&& s.subrange(j, j + 8) == odu_domain()
}

/// Some restricted-domain address occurs in `s`.
pub open spec fn has_email(s: Seq<char>) -> bool {
    exists|i: int, j: int| email_at(s, i, j)
}

/// `r` is the first address in `s`: an address match whose local part starts
/// no later than any other match's.
pub open spec fn is_first_email(s: Seq<char>, r: Seq<char>) -> bool {
    exists|i: int, j: int|
        email_at(s, i, j) && r == s.subrange(i, j + 8) && (forall|i2: int, j2: int|
            #[trigger] email_at(s, i2, j2) ==> i <= i2)
}

/// For a fixed local-part start, the `@` of a match sits at one place only:
/// the end of the maximal local run.
pub proof fn lemma_email_at_unique(s: Seq<char>, i: int, j1: int, j2: int)
    requires
        email_at(s, i, j1),
        email_at(s, i, j2),
    ensures
        j1 == j2,
{
    assert(!is_local_char('@'));
    if j1 < j2 {
        assert(s.subrange(j1, j1 + 8)[0] == s[j1]);
        assert(s[j1] == '@');
        assert(is_local_char(s[j1]));
    }
    if j2 < j1 {
        assert(s.subrange(j2, j2 + 8)[0] == s[j2]);
        assert(s[j2] == '@');
        assert(is_local_char(s[j2]));
    }
}

/// The first address in `s` is one sequence, not many.
pub proof fn lemma_first_email_unique(s: Seq<char>, r1: Seq<char>, r2: Seq<char>)
    requires
        is_first_email(s, r1),
        is_first_email(s, r2),
    ensures
        r1 == r2,
{
    let (i1, j1) = choose|i: int, j: int|
        email_at(s, i, j) && r1 == s.subrange(i, j + 8) && (forall|i2: int, j2: int|
            #[trigger] email_at(s, i2, j2) ==> i <= i2);
    let (i2, j2) = choose|i: int, j: int|
        email_at(s, i, j) && r2 == s.subrange(i, j + 8) && (forall|i3: int, j3: int|
            #[trigger] email_at(s, i3, j3) ==> i <= i3);
    assert(i1 <= i2);
    assert(i2 <= i1);
    lemma_email_at_unique(s, i1, j1, j2);
}

/// An extracted address extracts to itself: it is exactly one local run plus
/// the domain, so scanning it again finds the whole of it, first.
pub proof fn lemma_first_email_self(s: Seq<char>, r: Seq<char>)
    requires
        is_first_email(s, r),
    ensures
        has_email(r),
        is_first_email(r, r),
{
    let (i, j) = choose|i: int, j: int|
        email_at(s, i, j) && r == s.subrange(i, j + 8) && (forall|i2: int, j2: int|
            #[trigger] email_at(s, i2, j2) ==> i <= i2);
    let m = j - i;
    assert forall|k: int| 0 <= k < m implies is_local_char(#[trigger] r[k]) by {
        assert(r[k] == s[i + k]);
    }
    assert(r.subrange(m, m + 8) =~= odu_domain()) by {
        assert forall|k: int| 0 <= k < 8 implies r.subrange(m, m + 8)[k] == odu_domain()[k] by {
            assert(r.subrange(m, m + 8)[k] == r[m + k]);
            assert(r[m + k] == s[j + k]);
            assert(s.subrange(j, j + 8)[k] == s[j + k]);
        }
    }
    assert(email_at(r, 0, m));
    assert(r == r.subrange(0, m + 8)) by {
        assert(r =~= r.subrange(0, m + 8));
    }
}

/// Outbound verification email: fixed sender, subject and template, the
/// extracted recipient, and the template variables carrying the token.
pub struct Email {
    pub from: String,
    pub to: String,
    pub subject: String,
    pub template: String,
    pub variables: String,
}

/// `b == is_local_char(c)`, decided executably.
fn local_char(c: char) -> (b: bool)
    ensures
        b == is_local_char(c),
{
    let u = c as u32;
    (97 <= u && u <= 122) || (65 <= u && u <= 90) || (48 <= u && u <= 57) || u == 33 || u == 35
        || u == 36 || u == 37 || u == 38 || u == 39 || u == 42 || u == 43 || u == 45 || u == 46
        || u == 47 || u == 61 || u == 63 || u == 94 || u == 95 || u == 96 || u == 123 || u == 124
        || u == 125 || u == 126
}

impl Email {
    /// The first restricted-domain address in `msg`, if any: scans left to
    /// right and returns the earliest maximal local run followed by the
    /// domain. Text after the domain — a sentence-ending period, further
    /// words — is never included.
    pub fn extract_odu_email<'a>(msg: &'a str) -> (r: Option<&'a str>)
        ensures
            r is Some <==> has_email(msg@),
            r matches Some(sub) ==> is_first_email(msg@, sub@),
    {
        let n: usize = msg.unicode_len();
        let mut pos: usize = 0;
        while pos < n
            invariant
                n == msg@.len(),
                pos <= n,
                forall|i2: int, j2: int| #[trigger] email_at(msg@, i2, j2) ==> i2 >= pos as int,
            decreases n - pos,
        {
            let c = msg.get_char(pos);
            if !local_char(c) {
                proof {
                    assert forall|i2: int, j2: int|
                        #[trigger] email_at(msg@, i2, j2) implies i2 >= pos + 1 by {
                        if i2 == pos as int {
                            assert(is_local_char(msg@[i2]));
                        }
                    }
                }
                pos = pos + 1;
            } else {
                let start = pos;
                let mut j = pos;
                while j < n && local_char(msg.get_char(j))
                    invariant
                        n == msg@.len(),
                        start <= j <= n,
                        start < n,
                        is_local_char(msg@[start as int]),
                        forall|k: int| start <= k < j ==> is_local_char(#[trigger] msg@[k]),
                    decreases n - j,
                {
                    j = j + 1;
                }
                proof {
                    if j == start {
                        assert(is_local_char(msg@[start as int]));
                        assert(false);
                    }
                }
                if n - j >= 8 && msg.get_char(j) == '@' && msg.get_char(j + 1) == 'o'
                    && msg.get_char(j + 2) == 'd' && msg.get_char(j + 3) == 'u' && msg.get_char(
                    j + 4,
                ) == '.' && msg.get_char(j + 5) == 'e' && msg.get_char(j + 6) == 'd' && msg.get_char(
                    j + 7,
                ) == 'u' {
                    proof {
                        assert(msg@.subrange(j as int, j as int + 8) =~= odu_domain());
                        assert(email_at(msg@, start as int, j as int));
                    }
                    let found = msg.substring_char(start, j + 8);
                    proof {
                        assert(found@ == msg@.subrange(start as int, j as int + 8));
                    }
                    return Some(found);
                } else {
                    proof {
                        assert(!is_local_char('@'));
                        assert forall|i2: int, j2: int|
                            #[trigger] email_at(msg@, i2, j2) implies i2 > j as int by {
                            if i2 <= j as int {
                                assert(i2 >= pos as int);
                                if i2 == j as int {
                                    // the run ended at j: either the text did, or a
                                    // non-local character sits there
                                    assert(i2 < j2 && j2 + 8 <= n);
                                    assert(is_local_char(msg@[i2]));
                                    assert(j < n);
                                    assert(false);
                                } else {
                                    // i2 lies inside the local run; its match would
                                    // put the domain at j, where it is not
                                    if j2 < j as int {
                                        assert(msg@.subrange(j2, j2 + 8)[0] == msg@[j2]);
                                        assert(msg@[j2] == '@');
                                        assert(is_local_char(msg@[j2]));
                                        assert(false);
                                    } else if j2 > j as int {
                                        assert(is_local_char(msg@[j as int]));
                                        assert(j < n);
                                        assert(false);
                                    } else {
                                        assert(j2 == j as int);
                                        assert(j2 + 8 <= n);
                                        assert(msg@[j as int] == msg@.subrange(j2, j2 + 8)[0]);
                                        assert(msg@[j as int + 1] == msg@.subrange(j2, j2 + 8)[1]);
                                        assert(msg@[j as int + 2] == msg@.subrange(j2, j2 + 8)[2]);
                                        assert(msg@[j as int + 3] == msg@.subrange(j2, j2 + 8)[3]);
                                        assert(msg@[j as int + 4] == msg@.subrange(j2, j2 + 8)[4]);
                                        assert(msg@[j as int + 5] == msg@.subrange(j2, j2 + 8)[5]);
                                        assert(msg@[j as int + 6] == msg@.subrange(j2, j2 + 8)[6]);
                                        assert(msg@[j as int + 7] == msg@.subrange(j2, j2 + 8)[7]);
                                        assert(false);
                                    }
                                }
                            }
                        }
                    }
                    if j >= n {
                        pos = n;
                    } else {
                        pos = j + 1;
                    }
                }
            }
        }
        proof {
            if has_email(msg@) {
                let (i, j) = choose|i: int, j: int| email_at(msg@, i, j);
                assert(i >= pos as int);
                assert(i < j && j + 8 <= n);
                assert(false);
            }
        }
        None
    }
}

/// Template variables of the outbound email: the encrypted identity, byte
/// for byte. The recipient proves control of the address by handing these
/// bytes back through the verification link.
pub struct EmailVariables {
    pub uid: Vec<u8>,
}

impl EmailVariables {
    /// Seals `data` — normally the identity's decimal digits — under
    /// `passphrase`. Whatever ciphertext comes back decrypts to exactly
    /// `data`'s bytes.
    pub fn new(data: &str, passphrase: &[u8]) -> (r: EmailVariables)
        ensures
            decrypt_of(r.uid@, passphrase@) == Some(data.spec_bytes()),
    {
        EmailVariables { uid: encrypt_bytes(data.as_bytes(), passphrase) }
    }
}

/// The serialized form of [`EmailVariables`]: `{"uid":[...]}` with the
/// token bytes as comma-separated decimal values.
pub open spec fn json_digits(uid: Seq<u8>) -> Seq<u8>
    decreases uid.len(),
{
    if uid.len() == 0 {
        Seq::empty()
    } else if uid.len() == 1 {
        dec_bytes_of(uid[0] as nat)
    } else {
        json_digits(uid.drop_last()) + seq![44u8] + dec_bytes_of(uid.last() as nat)
    }
}

/// The whole serialized variables object.
pub open spec fn json_uid_bytes(uid: Seq<u8>) -> Seq<u8> {
    seq![123u8, 34, 117, 105, 100, 34, 58, 91] + json_digits(uid) + seq![93u8, 125]
}

/// Every byte of the serialized variables object is ASCII.
proof fn lemma_json_digits_ascii(uid: Seq<u8>)
    ensures
        forall|i: int| 0 <= i < json_digits(uid).len() ==> #[trigger] json_digits(uid)[i] < 128,
    decreases uid.len(),
{
    if uid.len() == 0 {
    } else if uid.len() == 1 {
        lemma_dec_bytes_of_digits(uid[0] as nat);
        assert forall|i: int|
            0 <= i < json_digits(uid).len() implies #[trigger] json_digits(uid)[i] < 128 by {
            assert(is_digit_byte(dec_bytes_of(uid[0] as nat)[i]));
        }
    } else {
        lemma_json_digits_ascii(uid.drop_last());
        lemma_dec_bytes_of_digits(uid.last() as nat);
        let head = json_digits(uid.drop_last());
        let tail = dec_bytes_of(uid.last() as nat);
        assert forall|i: int|
            0 <= i < json_digits(uid).len() implies #[trigger] json_digits(uid)[i] < 128 by {
            if i < head.len() {
                assert(json_digits(uid)[i] == head[i]);
            } else if i == head.len() {
                assert(json_digits(uid)[i] == 44);
            } else {
                assert(json_digits(uid)[i] == tail[i - head.len() - 1]);
                assert(is_digit_byte(tail[i - head.len() - 1]));
            }
        }
    }
}

/// Appends `add` to `out`.
fn append_bytes(out: &mut Vec<u8>, add: &[u8])
    ensures
        final(out)@ == old(out)@ + add@,
{
    let mut k: usize = 0;
    while k < add.len()
        invariant
            k <= add@.len(),
            out@ =~= old(out)@ + add@.take(k as int),
        decreases add@.len() - k,
    {
        out.push(add[k]);
        proof {
            assert(add@.take(k + 1) =~= add@.take(k as int).push(add@[k as int]));
            assert(out@ =~= old(out)@ + add@.take(k + 1));
        }
        k = k + 1;
    }
    proof {
        assert(add@.take(add@.len() as int) =~= add@);
    }
}

/// Serializes the template variables: `{"uid":[...]}` with each token byte
/// as its decimal value.
fn json_of_uid(uid: &Vec<u8>) -> (r: String)
    ensures
        chars_are_ascii_bytes(r@, json_uid_bytes(uid@)),
{
    let ghost prefix = seq![123u8, 34, 117, 105, 100, 34, 58, 91];
    let mut out: Vec<u8> = Vec::new();
    out.push(123);  // '{'
    out.push(34);  // '"'
    out.push(117);  // 'u'
    out.push(105);  // 'i'
    out.push(100);  // 'd'
    out.push(34);  // '"'
    out.push(58);  // ':'
    out.push(91);  // '['
    proof {
        assert(out@ =~= prefix + json_digits(uid@.take(0)));
    }
    let mut i: usize = 0;
    while i < uid.len()
        invariant
            i <= uid@.len(),
            out@ =~= prefix + json_digits(uid@.take(i as int)),
        decreases uid@.len() - i,
    {
        if i > 0 {
            out.push(44);  // ','
        }
        let digits = u64_to_dec_bytes(uid[i] as u64);
        append_bytes(&mut out, digits.as_slice());
        proof {
            let cur = uid@.take(i + 1);
            assert(cur.drop_last() =~= uid@.take(i as int));
            assert(cur.last() == uid@[i as int]);
            if i == 0 {
                assert(json_digits(cur) == dec_bytes_of(uid@[0] as nat));
                assert(out@ =~= prefix + json_digits(cur));
            } else {
                assert(json_digits(cur) == json_digits(uid@.take(i as int)) + seq![44u8]
                    + dec_bytes_of(cur.last() as nat));
                assert(out@ =~= prefix + json_digits(cur));
            }
        }
        i = i + 1;
    }
    out.push(93);  // ']'
    out.push(125);  // '}'
    proof {
        assert(uid@.take(uid@.len() as int) =~= uid@);
        assert(out@ =~= json_uid_bytes(uid@));
        lemma_json_digits_ascii(uid@);
        assert forall|k: int| 0 <= k < out@.len() implies out@[k] < 128 by {
            let body = json_digits(uid@);
            if 8 <= k < 8 + body.len() {
                assert(out@[k] == body[k - 8]);
            }
        }
    }
    crate::digits::ascii_to_string(out)
}

/// Why an outbound email could not be built.
#[derive(Clone, Copy, Debug, PartialEq, Eq, Structural)]
pub enum EmailError {
    /// The recipient text holds no restricted-domain address.
    AddressNotFound,
}

/// The fixed sender line of every verification email.
pub open spec fn from_address() -> Seq<char> {
    "CS @ ODU Discord <postmaster@mg.odu-cs-community.codes>"@
}

/// The fixed subject of every verification email.
pub open spec fn subject_line() -> Seq<char> {
    "Verify your email"@
}

/// The fixed provider-side template of every verification email.
pub open spec fn template_name() -> Seq<char> {
    "odu-cs-monarch-verify"@
}

impl Email {
    /// Builds the outbound verification email: recipient is the first
    /// restricted-domain address in `to`, sender, subject and template are
    /// fixed, and the serialized variables carry the sealed identity. Fails
    /// exactly when `to` holds no such address.
    pub fn new(to: &str, vars: EmailVariables) -> (r: Result<Email, EmailError>)
        ensures
            r is Ok <==> has_email(to@),
            r matches Ok(e) ==> is_first_email(to@, e.to@) && e.from@ == from_address()
                && e.subject@ == subject_line() && e.template@ == template_name()
                && chars_are_ascii_bytes(e.variables@, json_uid_bytes(vars.uid@)),
            r matches Err(err) ==> err == EmailError::AddressNotFound,
    {
        let vars_ser = json_of_uid(&vars.uid);
        match Self::extract_odu_email(to) {
            None => Err(EmailError::AddressNotFound),
            Some(addr) => Ok(
                Email {
                    from: String::from_str(
                        "CS @ ODU Discord <postmaster@mg.odu-cs-community.codes>",
                    ),
                    to: addr.to_owned(),
                    subject: String::from_str("Verify your email"),
                    template: String::from_str("odu-cs-monarch-verify"),
                    variables: vars_ser,
                },
            ),
        }
    }
}

} // verus!
