//! The error taxonomy of the submission pipeline. Every failure at any stage
//! is fatal and propagates unchanged to the caller; no error is swallowed or
//! downgraded.
use vstd::prelude::*;
use crate::text::{dec_digits, push_u32};

verus! {

/// One fatal pipeline error.
///
/// Precondition errors (`NotConfigured`, `NoFiles`, `FileMissing`) are
/// detected before any network call. Transport errors (`Connection`,
/// `BadStatus`, `MalformedResponse`) abort the whole pipeline at any stage.
/// Lookup errors (`CourseNotFound`, `AssignmentNotFound`) come from an
/// explicit identifier that does not exist. Protocol errors
/// (`MissingLocation`) come from a payload-transfer response without the
/// expected redirect header. `InvalidUrl` marks a supplied assignment URL
/// that does not match the expected pattern. `FinalizeFailed` is a
/// non-success status on the one finalization call.
#[derive(Debug, PartialEq, Eq)]
pub enum SubmitError {
    NotConfigured,
    NoFiles,
    FileMissing { index: usize },
    InvalidUrl,
    Connection,
    BadStatus { status: u16 },
    MalformedResponse,
    CourseNotFound,
    AssignmentNotFound,
    MissingLocation,
    FinalizeFailed { status: u16 },
}

/// The rendering of one error as text. Exact wording is not load-bearing;
/// the contract pins it anyway so that callers can rely on it.
pub open spec fn message_of(e: SubmitError) -> Seq<char> {
    match e {
        SubmitError::NotConfigured => "not configured: run the auth command first"@,
        SubmitError::NoFiles => "Must submit at least one file"@,
        SubmitError::FileMissing { index } => "missing local file at position "@ + dec_digits(
            index as int,
        ),
        SubmitError::InvalidUrl => "could not parse the supplied URL"@,
        SubmitError::Connection => "connection failure"@,
        SubmitError::BadStatus { status } => "request failed with status "@ + dec_digits(
            status as int,
        ),
        SubmitError::MalformedResponse => "malformed response body"@,
        SubmitError::CourseNotFound => "course not found"@,
        SubmitError::AssignmentNotFound => "assignment not found"@,
        SubmitError::MissingLocation => "upload response carried no location header"@,
        SubmitError::FinalizeFailed { status } => "submission failed with status "@ + dec_digits(
            status as int,
        ),
    }
}

impl SubmitError {
    /// Renders the error as text for the host environment to print.
    pub fn message(&self) -> (r: String)
        ensures
            r@ == message_of(*self),
    {
        match self {
            SubmitError::NotConfigured => "not configured: run the auth command first".to_owned(),
            SubmitError::NoFiles => "Must submit at least one file".to_owned(),
            SubmitError::FileMissing { index } => {
                let mut s = "missing local file at position ".to_owned();
                let i: usize = *index;
                if i <= u32::MAX as usize {
                    push_u32(&mut s, i as u32);
                } else {
                    push_usize_large(&mut s, i);
                }
                s
            },
            SubmitError::InvalidUrl => "could not parse the supplied URL".to_owned(),
            SubmitError::Connection => "connection failure".to_owned(),
            SubmitError::BadStatus { status } => {
                let mut s = "request failed with status ".to_owned();
                push_u32(&mut s, *status as u32);
                s
            },
            SubmitError::MalformedResponse => "malformed response body".to_owned(),
            SubmitError::CourseNotFound => "course not found".to_owned(),
            SubmitError::AssignmentNotFound => "assignment not found".to_owned(),
            SubmitError::MissingLocation => {
                "upload response carried no location header".to_owned()
            },
            SubmitError::FinalizeFailed { status } => {
                let mut s = "submission failed with status ".to_owned();
                push_u32(&mut s, *status as u32);
                s
            },
        }
    }
}

/// Appends the decimal rendering of a `usize` beyond the `u32` range.
fn push_usize_large(s: &mut String, n: usize)
    ensures
        final(s)@ == old(s)@ + dec_digits(n as int),
    decreases n,
{
    if n >= 10 {
        push_usize_large(s, n / 10);
        push_u32(s, (n % 10) as u32);
        proof {
            assert(s@ =~= old(s)@ + dec_digits(n as int));
        }
    } else {
        push_u32(s, n as u32);
    }
}

} // verus!
