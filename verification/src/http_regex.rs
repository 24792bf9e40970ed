//! The RFC 7230 wire grammar: the regular-expression patterns the
//! engine publishes for its callers, and the tokenizer calls the
//! validation code relies on.
//!
//! The patterns are fixed, so each checking function compiles its
//! pattern and reports a match; the character classes involved are
//! simple enough that each call carries an exact contract over the
//! byte classes of `crate::ascii`.

use vstd::prelude::*;
use vstd::string::StringExecFns;

use crate::ascii::{is_digits, is_printable, is_token, is_vchar_run};

verus! {

/// Field content, RFC 7230 section 3.2.6: visible-or-obs-text runs
/// separated by single runs of space or tab.
pub fn field_content() -> (r: String)
    ensures
        r@ == "[^\\x00\\s]+(?:[ \\t]+[^\\x00\\s])*"@,
{
    String::from_str("[^\\x00\\s]+(?:[ \\t]+[^\\x00\\s])*")
}

/// Field value, RFC 7230 section 3.2.6: an optional field content.
pub fn field_value() -> (r: String)
    ensures
        r@ == "([^\\x00\\s]+(?:[ \\t]+[^\\x00\\s])*)?"@,
{
    String::from_str("([^\\x00\\s]+(?:[ \\t]+[^\\x00\\s])*)?")
}

/// Header field, RFC 7230 section 3.2.6: a field name, a colon with
/// optional whitespace around it, and an optional field value.
pub fn header_field() -> (r: String)
    ensures
        r@ == "(?P<field_name>[-!#$%&'*+.^_`|~0-9a-zA-Z]+)[ \\t]*:[ \\t]*(?P<field_value>([^\\x00\\s]+(?:[ \\t]+[^\\x00\\s])*)?)[ \\t]*"@,
{
    String::from_str(
        "(?P<field_name>[-!#$%&'*+.^_`|~0-9a-zA-Z]+)[ \\t]*:[ \\t]*(?P<field_value>([^\\x00\\s]+(?:[ \\t]+[^\\x00\\s])*)?)[ \\t]*",
    )
}

/// Request line, RFC 7230 section 3.1: method, target and HTTP
/// version, separated by single spaces.
pub fn request_line() -> (r: String)
    ensures
        r@ == "(?P<method>[-!#$%&'*+.^_`|~0-9a-zA-Z]+) (?P<target>[\\x21-\\x7e]+) HTTP/(?P<http_version>[0-9]\\.[0-9])"@,
{
    String::from_str(
        "(?P<method>[-!#$%&'*+.^_`|~0-9a-zA-Z]+) (?P<target>[\\x21-\\x7e]+) HTTP/(?P<http_version>[0-9]\\.[0-9])",
    )
}

/// Status line, RFC 7230 section 3.1: HTTP version, a three-digit
/// status code, and an optional reason phrase.
pub fn status_line() -> (r: String)
    ensures
        r@ == "HTTP/(?P<http_version>[0-9]\\.[0-9]) (?P<status_code>[0-9]{3})(?: (?P<reason>([ \\t]|[^\\x00\\s])*))?"@,
{
    String::from_str(
        "HTTP/(?P<http_version>[0-9]\\.[0-9]) (?P<status_code>[0-9]{3})(?: (?P<reason>([ \\t]|[^\\x00\\s])*))?",
    )
}

/// Chunk header, RFC 7230 section 4.1: one to twenty hexadecimal
/// digits, an optional extension, optional trailing whitespace, then
/// CRLF.
pub fn chunk_header() -> (r: String)
    ensures
        r@ == "(?P<chunk_size>[0-9A-Fa-f]{1,20})(?P<chunk_ext>;.*)?[ \\t]*\\r\\n"@,
{
    String::from_str("(?P<chunk_size>[0-9A-Fa-f]{1,20})(?P<chunk_ext>;.*)?[ \\t]*\\r\\n")
}

/// Relies on `regex::bytes::Regex::is_match` with the anchored pattern
/// `^[-!#$%&'*+.^_`|~0-9a-zA-Z]+$`: true exactly when the input is a
/// nonempty run of token bytes.
#[verifier::external_body]
pub(crate) fn matches_field_name(v: &[u8]) -> (r: bool)
    ensures
        r == is_token(v@),
{
    regex::bytes::Regex::new(r"^[-!#$%&'*+.^_`|~0-9a-zA-Z]+$").unwrap().is_match(v)
}

/// Relies on `regex::bytes::Regex::is_match` with the anchored pattern
/// `^[ -~]+$`: true exactly when the input is a nonempty run of
/// printable ASCII bytes.
#[verifier::external_body]
pub(crate) fn matches_field_value(v: &[u8]) -> (r: bool)
    ensures
        r == is_printable(v@),
{
    regex::bytes::Regex::new(r"^[ -~]+$").unwrap().is_match(v)
}

/// Relies on `regex::bytes::Regex::is_match` with the anchored pattern
/// `^[\x21-\x7e]+$`: true exactly when the input is a nonempty run
/// of visible ASCII bytes.
#[verifier::external_body]
pub(crate) fn matches_request_target(v: &[u8]) -> (r: bool)
    ensures
        r == is_vchar_run(v@),
{
    regex::bytes::Regex::new(r"^[\x21-\x7e]+$").unwrap().is_match(v)
}

/// Relies on `regex::bytes::Regex::is_match` with the anchored pattern
/// `^[0-9]+$`: true exactly when the input is a nonempty run of
/// decimal digits.
#[verifier::external_body]
pub(crate) fn matches_digits(v: &[u8]) -> (r: bool)
    ensures
        r == is_digits(v@),
{
    regex::bytes::Regex::new(r"^[0-9]+$").unwrap().is_match(v)
}

} // verus!
