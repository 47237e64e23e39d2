//! Rules that turn what an operator typed into values.
use vstd::prelude::*;
use vstd::string::*;
use crate::key::{key_fields, split_key};

verus! {

/// `s` in lower case, as `str::to_lowercase` gives it.
pub uninterp spec fn lower_of(s: Seq<char>) -> Seq<char>;

/// `s` without leading and trailing whitespace, as `str::trim` gives it.
pub uninterp spec fn trim_of(s: Seq<char>) -> Seq<char>;

/// Relies on `str::to_lowercase`: the result depends on the characters alone,
/// and an empty text stays empty.
#[verifier::external_body]
pub(crate) fn lowercase(s: &str) -> (r: String)
    ensures
        r@ == lower_of(s@),
        s@.len() == 0 ==> r@.len() == 0,
{
    s.to_lowercase()
}

/// Relies on `str::trim`: the result depends on the characters alone.
#[verifier::external_body]
fn trim(s: &str) -> (r: &str)
    ensures
        r@ == trim_of(s@),
{
    s.trim()
}

/// Whether two texts are equal.
pub fn text_eq(a: &str, b: &str) -> (r: bool)
    ensures
        r == (a@ == b@),
{
    let x = String::from_str(a);
    let y = String::from_str(b);
    x == y
}

/// An answer as it is compared: trimmed, then in lower case.
pub fn fold(s: &str) -> (r: String)
    ensures
        r@ == lower_of(trim_of(s@)),
{
    lowercase(trim(s))
}

/// A folded answer that stands for "no value".
pub open spec fn blank_or_null(folded: Seq<char>) -> bool {
    folded == ""@ || folded == "null"@
}

/// Whether a folded answer stands for "no value".
pub fn is_blank_or_null(folded: &str) -> (r: bool)
    ensures
        r == blank_or_null(folded@),
{
    text_eq(folded, "") || text_eq(folded, "null")
}

/// An optional text as typed: none for an empty answer or `null` in any
/// case, else the answer unchanged.
pub fn optional_text(input: String) -> (r: Option<String>)
    ensures
        match r {
            Some(s) => !blank_or_null(lower_of(trim_of(input@))) && s@ == input@,
            None => blank_or_null(lower_of(trim_of(input@))),
        },
{
    let folded = fold(input.as_str());
    if is_blank_or_null(folded.as_str()) {
        None
    } else {
        Some(input)
    }
}

/// A new comment for an existing entity: an empty answer keeps `old`,
/// `null` in any case clears it, anything else replaces it unchanged.
pub fn updated_comment(input: String, old: Option<String>) -> (r: Option<String>)
    ensures
        lower_of(input@) == ""@ ==> r == old,
        lower_of(input@) != ""@ && lower_of(trim_of(input@)) == "null"@ ==> r is None,
        lower_of(input@) != ""@ && lower_of(trim_of(input@)) != "null"@ ==> r is Some && r->0@
            == input@,
{
    let lowered = lowercase(input.as_str());
    if text_eq(lowered.as_str(), "") {
        old
    } else {
        let folded = fold(input.as_str());
        if text_eq(folded.as_str(), "null") {
            None
        } else {
            Some(input)
        }
    }
}

/// Whether the answer to a `[y/N]` question confirms it.
pub fn is_confirmation(answer: &str) -> (r: bool)
    ensures
        r == (lower_of(trim_of(answer@)) == "y"@),
{
    let folded = fold(answer);
    text_eq(folded.as_str(), "y")
}

/// Whether the answer to a `[Y/n]` question declines it.
pub fn is_refusal(answer: &str) -> (r: bool)
    ensures
        r == (lower_of(trim_of(answer@)) == "n"@),
{
    let folded = fold(answer);
    text_eq(folded.as_str(), "n")
}

/// How many times `c` occurs in `s`.
pub open spec fn count_char(s: Seq<char>, c: char) -> nat
    decreases s.len(),
{
    if s.len() == 0 {
        0
    } else {
        count_char(s.drop_last(), c) + if s.last() == c {
            1nat
        } else {
            0nat
        }
    }
}

/// How many spaces `s` holds.
pub fn count_spaces(s: &str) -> (r: usize)
    ensures
        r == count_char(s@, ' '),
{
    let n = s.unicode_len();
    let mut i: usize = 0;
    let mut k: usize = 0;
    while i < n
        invariant
            n == s@.len(),
            i <= n,
            k == count_char(s@.take(i as int), ' '),
            k <= i,
        decreases n - i,
    {
        proof {
            assert(s@.take(i + 1).drop_last() =~= s@.take(i as int));
        }
        if s.get_char(i) == ' ' {
            k += 1;
        }
        i += 1;
    }
    assert(s@.take(n as int) =~= s@);
    k
}

/// The client of an SSH session, from the session's connection description
/// (`<client address> <client port> <server address> <server port>`): the
/// address and port joined by `:`, an IPv6 address in brackets. A description
/// of another shape is returned as it is; without one it is the local user.
pub open spec fn client_identity_of(connection: Option<Seq<char>>, ipv6: bool) -> Seq<char> {
    match connection {
        None => "local user"@,
        Some(con) => if count_char(con, ' ') != 3 {
            con
        } else {
            match key_fields(con) {
                Some((ip, port)) => (if ipv6 {
                    "["@ + ip + "]"@
                } else {
                    ip
                }) + ":"@ + port,
                None => con,
            }
        },
    }
}

/// The client marker written into the audit log. `first_field_is_ipv6`
/// tells whether the description's first field is an IPv6 address.
pub fn client_identity(connection: Option<&str>, first_field_is_ipv6: bool) -> (r: String)
    ensures
        r@ == client_identity_of(
            match connection {
                Some(c) => Some(c@),
                None => None,
            },
            first_field_is_ipv6,
        ),
{
    match connection {
        None => String::from_str("local user"),
        Some(con) => {
            if count_spaces(con) != 3 {
                return String::from_str(con);
            }
            match split_key(con) {
                Some((ip, port)) => {
                    let mut r = String::new();
                    if first_field_is_ipv6 {
                        r.append("[");
                        r.append(ip.as_str());
                        r.append("]");
                    } else {
                        r.append(ip.as_str());
                    }
                    r.append(":");
                    r.append(port.as_str());
                    r
                },
                None => String::from_str(con),
            }
        },
    }
}

/// What an answer to an update prompt asks for.
#[derive(Clone, Debug)]
pub enum Answer {
    /// Keep the current value: the answer was empty.
    Keep,
    /// Clear the value: the answer was `null` in any case.
    Clear,
    /// Use the answer as the new value.
    Value(String),
}

/// An answer to an update prompt: empty keeps the current value, `null` in
/// any case clears it, anything else is the new value, unchanged.
pub fn classify_answer(input: String) -> (r: Answer)
    ensures
        input@ == ""@ ==> r is Keep,
        input@ != ""@ && lower_of(trim_of(input@)) == "null"@ ==> r is Clear,
        input@ != ""@ && lower_of(trim_of(input@)) != "null"@ ==> r is Value && r->Value_0@
            == input@,
{
    if text_eq(input.as_str(), "") {
        return Answer::Keep;
    }
    let folded = fold(input.as_str());
    if text_eq(folded.as_str(), "null") {
        Answer::Clear
    } else {
        Answer::Value(input)
    }
}

/// The new value of an optional field after an update prompt.
pub fn updated_optional(input: String, old: Option<String>) -> (r: Option<String>)
    ensures
        input@ == ""@ ==> r == old,
        input@ != ""@ && lower_of(trim_of(input@)) == "null"@ ==> r is None,
        input@ != ""@ && lower_of(trim_of(input@)) != "null"@ ==> r is Some && r->0@ == input@,
{
    match classify_answer(input) {
        Answer::Keep => old,
        Answer::Clear => None,
        Answer::Value(v) => Some(v),
    }
}

/// The new value of a required field after an update prompt: an empty
/// answer keeps `old`.
pub fn updated_required(input: String, old: String) -> (r: String)
    ensures
        input@ == ""@ ==> r == old,
        input@ != ""@ ==> r@ == input@,
{
    if text_eq(input.as_str(), "") {
        old
    } else {
        input
    }
}

} // verus!
