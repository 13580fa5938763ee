//! Decoding one request line and deciding the reply to it.
use vstd::prelude::*;
use vstd::string::{StrSliceExecFns, StringSliceAdditionalSpecFns};
use crate::decimal::{Decimal, is_prime_decimal, parse_decimal, parsed_decimal, prime_at, whole_at};

verus! {

/// What a connection sends back for one request line.
#[derive(Debug, Clone, Copy, PartialEq, Eq, Structural)]
pub enum Reply {
    /// A well-formed request, answered with whether its number is prime.
    Response(bool),
    /// A request that failed validation; the connection ends after it.
    Malformed,
}

impl Reply {
    /// The bytes written to the client for this reply.
    pub open spec fn wire(&self) -> Seq<u8> {
        match self {
            Reply::Response(true) => "{\"method\":\"isPrime\",\"prime\":true}\n".spec_bytes(),
            Reply::Response(false) => "{\"method\":\"isPrime\",\"prime\":false}\n".spec_bytes(),
            Reply::Malformed => "Malformed Request".spec_bytes(),
        }
    }

    /// Whether the connection stays open after this reply.
    pub open spec fn keeps_open(&self) -> bool {
        self is Response
    }

    /// Encodes the reply: a one-line JSON response, or the malformed signal.
    pub fn to_bytes(&self) -> (r: Vec<u8>)
        ensures
            r@ == self.wire(),
    {
        match self {
            Reply::Response(true) => "{\"method\":\"isPrime\",\"prime\":true}\n".as_bytes_vec(),
            Reply::Response(false) => "{\"method\":\"isPrime\",\"prime\":false}\n".as_bytes_vec(),
            Reply::Malformed => "Malformed Request".as_bytes_vec(),
        }
    }
}

/// Whether `doc` decodes as a JSON value (`serde_json::from_slice`).
pub uninterp spec fn json_is_valid(doc: Seq<u8>) -> bool;

/// The compact JSON text of member `key` of the JSON value in `doc`:
/// `null` where the member is absent or the value is no object.
pub uninterp spec fn json_member_text(doc: Seq<u8>, key: Seq<char>) -> Seq<char>;

/// Relies on `serde_json::from_slice` to decode `doc` into a `Value`, then on
/// indexing it by `key` and writing the member back as text (`ToString`).
#[verifier::external_body]
fn member_text(doc: &[u8], key: &str) -> (r: Option<String>)
    ensures
        (r is Some) == json_is_valid(doc@),
        r matches Some(t) ==> t@ == json_member_text(doc@, key@),
{
    serde_json::from_slice::<serde_json::Value>(doc).ok().map(|v| v[key].to_string())
}

/// The text of a member whose value is the string `isPrime`.
pub open spec fn method_text() -> Seq<char> {
    "\"isPrime\""@
}

/// JSON text of a number: it begins with a minus sign or a digit, which no
/// string, literal, array or object does.
pub open spec fn is_number_text(t: Seq<char>) -> bool {
    t.len() > 0 && (t[0] == '-' || ('0' <= t[0] && t[0] <= '9'))
}

/// The reply to a number that parsed as `parsed` (nothing where it did not).
pub open spec fn number_reply(parsed: Option<(int, int)>) -> Reply {
    match parsed {
        None => Reply::Malformed,
        Some(d) => Reply::Response(prime_at(d.0, d.1)),
    }
}

/// The reply to a JSON object whose `method` and `number` members read as given.
pub open spec fn members_reply(method: Seq<char>, number: Seq<char>) -> Reply {
    if method != method_text() || !is_number_text(number) {
        Reply::Malformed
    } else {
        number_reply(parsed_decimal(number))
    }
}

/// The reply to one request line.
pub open spec fn line_reply(line: Seq<u8>) -> Reply {
    if !json_is_valid(line) {
        Reply::Malformed
    } else {
        members_reply(json_member_text(line, "method"@), json_member_text(line, "number"@))
    }
}

/// A line that is not JSON, or whose `method` member is missing or is not
/// the string `isPrime`, is malformed.
pub proof fn lemma_bad_method_is_malformed(line: Seq<u8>)
    requires
        !json_is_valid(line) || json_member_text(line, "method"@) != method_text(),
    ensures
        line_reply(line) == Reply::Malformed,
{
}

/// A JSON line that names the method but whose `number` member is missing,
/// is no JSON number, or is no decimal, is malformed.
pub proof fn lemma_bad_number_is_malformed(line: Seq<u8>)
    requires
        json_is_valid(line),
        !is_number_text(json_member_text(line, "number"@))
            || parsed_decimal(json_member_text(line, "number"@)) is None,
    ensures
        line_reply(line) == Reply::Malformed,
{
}

/// A number with a fractional part is answered, not rejected, and is not prime.
pub proof fn lemma_fraction_not_prime(unscaled: int, scale: int)
    requires
        !whole_at(unscaled, scale),
    ensures
        number_reply(Some((unscaled, scale))) == Reply::Response(false),
{
}

/// The reply to a number, given what parsing it as a decimal produced: a
/// number with a fractional part is well-formed and not prime.
pub fn reply_to_number(parsed: Option<Decimal>) -> (r: Reply)
    ensures
        r == number_reply(
            match parsed {
                None => None,
                Some(d) => Some(d.model()),
            },
        ),
{
    match parsed {
        None => Reply::Malformed,
        Some(d) => Reply::Response(is_prime_decimal(d)),
    }
}

/// The reply to a decoded JSON object, given the texts of its `method` and
/// `number` members.
pub fn reply_to_members(method: &str, number: &str) -> (r: Reply)
    ensures
        r == members_reply(method@, number@),
{
    proof {
        reveal_strlit("\"isPrime\"");
    }
    if method.to_owned() != "\"isPrime\"".to_owned() {
        return Reply::Malformed;
    }
    if number.unicode_len() == 0 {
        return Reply::Malformed;
    }
    let c = number.get_char(0);
    if !(c == '-' || ('0' <= c && c <= '9')) {
        return Reply::Malformed;
    }
    reply_to_number(parse_decimal(number))
}

/// The reply to one request line: JSON that names the `isPrime` method and
/// holds a numeric `number` is answered, anything else is malformed.
pub fn handle_line(line: &[u8]) -> (r: Reply)
    ensures
        r == line_reply(line@),
{
    let method = match member_text(line, "method") {
        None => return Reply::Malformed,
        Some(t) => t,
    };
    let number = match member_text(line, "number") {
        None => return Reply::Malformed,
        Some(t) => t,
    };
    reply_to_members(method.as_str(), number.as_str())
}

} // verus!
