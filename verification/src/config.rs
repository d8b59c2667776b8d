//! Configuration handed in by the host environment: a base URL and an access
//! token, both of which must be present and non-empty before the pipeline
//! runs.
use vstd::prelude::*;
use crate::errors::SubmitError;

verus! {

/// Raw configuration as loaded by the host: either field may be absent.
pub struct Config {
    pub url: Option<String>,
    pub access_token: Option<String>,
}

/// Validated configuration: both fields present and non-empty.
pub struct NonEmptyConfig {
    pub url: String,
    pub access_token: String,
}

/// Whether a raw configuration is complete: both fields present with at
/// least one character each.
pub open spec fn config_complete(c: &Config) -> bool {
    &&& c.url matches Some(u) && u@.len() > 0
    &&& c.access_token matches Some(t) && t@.len() > 0
}

impl Config {
    /// Validates the configuration. Returns the two fields exactly when both
    /// are present and non-empty; otherwise the one fatal precondition error
    /// that tells the user to authenticate first.
    pub fn ensure_non_empty(&self) -> (r: Result<NonEmptyConfig, SubmitError>)
        ensures
            r is Ok <==> config_complete(self),
            r matches Ok(c) ==> c.url@ == self.url->0@ && c.access_token@ == self.access_token->0@,
            r is Err ==> r->Err_0 == SubmitError::NotConfigured,
    {
        match (&self.url, &self.access_token) {
            (Some(url), Some(access_token)) => {
                if url.as_str().is_empty() || access_token.as_str().is_empty() {
                    Err(SubmitError::NotConfigured)
                } else {
                    Ok(NonEmptyConfig { url: url.clone(), access_token: access_token.clone() })
                }
            },
            _ => Err(SubmitError::NotConfigured),
        }
    }
}

} // verus!
