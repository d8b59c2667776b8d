//! Authentication inputs: validation of the instance URL and of the access
//! token before they are stored. Credential storage itself and the test
//! query against the remote service are host concerns.
use vstd::prelude::*;
use vstd::string::StrSliceExecFns;
use crate::text::is_unicode_space;
use crate::text::is_space_char;

verus! {

/// The authentication command's inputs: an instance URL and an access token,
/// either of which may be absent (the host then prompts for it).
pub struct AuthCommand {
    pub url: Option<String>,
    pub access_token: Option<String>,
}

/// Whether a token is acceptable: it carries no leading or trailing
/// white space (the empty token is acceptable).
pub open spec fn token_acceptable(t: Seq<char>) -> bool {
    t.len() == 0 || (!is_unicode_space(t.first()) && !is_unicode_space(t.last()))
}

/// Validates an access token: accepted exactly when it has no leading or
/// trailing white space; the accepted token is returned unchanged.
pub fn validate_access_token(token: &str) -> (r: Result<String, String>)
    ensures
        r is Ok <==> token_acceptable(token@),
        r matches Ok(t) ==> t@ == token@,
        r matches Err(m) ==> m@ == "Token cannot have any leading or trailing whitespace"@,
{
    let n = token.unicode_len();
    if n == 0 {
        Ok(token.to_owned())
    } else if is_space_char(token.get_char(0)) || is_space_char(token.get_char(n - 1)) {
        Err("Token cannot have any leading or trailing whitespace".to_owned())
    } else {
        Ok(token.to_owned())
    }
}

/// Whether the url crate accepts a string as an absolute URL.
pub uninterp spec fn url_accepts(s: Seq<char>) -> bool;

/// The url crate's normalized serialization of an accepted URL.
pub uninterp spec fn url_normalized(s: Seq<char>) -> Seq<char>;

/// Relies on `url::Url::parse` for acceptance and on `url::Url`'s
/// serialization for the normalized form; both depend on the input alone.
/// The error text is the parse error's own rendering.
#[verifier::external_body]
fn parse_and_normalize_url(input: &str) -> (r: Result<String, String>)
    ensures
        r is Ok <==> url_accepts(input@),
        r matches Ok(u) ==> u@ == url_normalized(input@),
{
    match url::Url::parse(input) {
        Ok(u) => Ok(u.to_string()),
        Err(e) => Err(e.to_string()),
    }
}

/// Validates an instance URL: accepted exactly when the url crate parses it,
/// and the accepted value is the normalized form (for instance, a bare
/// authority gains a trailing slash).
pub fn validate_url(input: &str) -> (r: Result<String, String>)
    ensures
        r is Ok <==> url_accepts(input@),
        r matches Ok(u) ==> u@ == url_normalized(input@),
{
    parse_and_normalize_url(input)
}

} // verus!
