//! The three-stage per-file upload protocol, as a state machine: intent
//! (request an upload bucket), payload transfer (multipart form to the
//! bucket's URL, echoing its fields verbatim), confirmation (zero-length
//! follow-up to the returned location). One machine instance drives one
//! file; instances are fully independent of each other.
//!
//! The host performs the network calls: it asks the machine for the next
//! action, performs it, and feeds the outcome back as an event. Stage
//! ordering is enforced by the machine: the payload action exists only in
//! the bucket-received state, and the confirmation action only in the
//! location-received state.
use vstd::prelude::*;
use vstd::string::StringExecFns;
use crate::errors::SubmitError;
use crate::text::{dec_digits, push_u32, push_u64};

verus! {

/// The one-time credential bundle for a single file transfer: an upload URL
/// plus form fields that must be echoed verbatim in the payload stage.
pub struct UploadBucket {
    pub upload_url: String,
    pub upload_params: Vec<(String, String)>,
}

/// The authoritative remote record of one uploaded file.
pub struct UploadedFile {
    pub id: u32,
    pub display_name: Option<String>,
}

/// The state of one file's upload pipeline.
pub enum UploadState {
    /// Nothing sent yet; the intent request may start.
    Ready,
    /// The intent returned a bucket; the payload transfer may start.
    BucketReceived { bucket: UploadBucket },
    /// The transfer returned a confirmation location; the confirmation may
    /// start.
    LocationReceived { location: String },
    /// All three stages succeeded.
    Completed { file: UploadedFile },
    /// Some stage failed; the pipeline never recovers.
    Failed { error: SubmitError },
}

/// The outcome of one network call, as the host reports it back.
pub enum UploadEvent {
    /// The intent call returned: its status, and the parsed bucket when the
    /// body was well-formed.
    BucketOutcome { status: u16, bucket: Option<UploadBucket> },
    /// The payload transfer returned: its status, and the location header
    /// when present.
    TransferOutcome { status: u16, location: Option<String> },
    /// The confirmation call returned: its status, and the parsed file
    /// record when the body was well-formed.
    ConfirmOutcome { status: u16, file: Option<UploadedFile> },
    /// The call could not be made at all.
    ConnectionFailed,
}

/// Success in the sense of the transport: a 2xx status.
pub open spec fn success_status(status: u16) -> bool {
    200 <= status < 300
}

/// Which events can answer which states: each stage's outcome answers
/// exactly the state that issued it, and a connection failure can answer any
/// in-flight stage.
pub open spec fn event_fits(state: UploadState, event: UploadEvent) -> bool {
    match (state, event) {
        (UploadState::Ready, UploadEvent::BucketOutcome { .. }) => true,
        (UploadState::Ready, UploadEvent::ConnectionFailed) => true,
        (UploadState::BucketReceived { .. }, UploadEvent::TransferOutcome { .. }) => true,
        (UploadState::BucketReceived { .. }, UploadEvent::ConnectionFailed) => true,
        (UploadState::LocationReceived { .. }, UploadEvent::ConfirmOutcome { .. }) => true,
        (UploadState::LocationReceived { .. }, UploadEvent::ConnectionFailed) => true,
        _ => false,
    }
}

/// The transition function of the upload machine. Every failure is fatal for
/// this file: a connection failure, a non-2xx status, a missing location
/// header, or a malformed body each moves to `Failed` with the matching
/// error; a successful outcome carries the stage's result into the next
/// state.
pub open spec fn step_spec(state: UploadState, event: UploadEvent) -> UploadState {
    match event {
        UploadEvent::ConnectionFailed => (UploadState::Failed { error: SubmitError::Connection }),
        UploadEvent::BucketOutcome { status, bucket } => {
            if !success_status(status) {
                (UploadState::Failed { error: (SubmitError::BadStatus { status }) })
            } else {
                match bucket {
                    None => (UploadState::Failed { error: SubmitError::MalformedResponse }),
                    Some(b) => (UploadState::BucketReceived { bucket: b }),
                }
            }
        },
        UploadEvent::TransferOutcome { status, location } => {
            if !success_status(status) {
                (UploadState::Failed { error: (SubmitError::BadStatus { status }) })
            } else {
                match location {
                    None => (UploadState::Failed { error: SubmitError::MissingLocation }),
                    Some(l) => (UploadState::LocationReceived { location: l }),
                }
            }
        },
        UploadEvent::ConfirmOutcome { status, file } => {
            if !success_status(status) {
                (UploadState::Failed { error: (SubmitError::BadStatus { status }) })
            } else {
                match file {
                    None => (UploadState::Failed { error: SubmitError::MalformedResponse }),
                    Some(f) => (UploadState::Completed { file: f }),
                }
            }
        },
    }
}

/// Advances one file's pipeline by one completed network call.
pub fn upload_step(state: UploadState, event: UploadEvent) -> (r: UploadState)
    requires
        event_fits(state, event),
    ensures
        r == step_spec(state, event),
{
    match event {
        UploadEvent::ConnectionFailed => UploadState::Failed { error: SubmitError::Connection },
        UploadEvent::BucketOutcome { status, bucket } => {
            if !(200 <= status && status < 300) {
                UploadState::Failed { error: SubmitError::BadStatus { status } }
            } else {
                match bucket {
                    None => UploadState::Failed { error: SubmitError::MalformedResponse },
                    Some(b) => UploadState::BucketReceived { bucket: b },
                }
            }
        },
        UploadEvent::TransferOutcome { status, location } => {
            if !(200 <= status && status < 300) {
                UploadState::Failed { error: SubmitError::BadStatus { status } }
            } else {
                match location {
                    None => UploadState::Failed { error: SubmitError::MissingLocation },
                    Some(l) => UploadState::LocationReceived { location: l },
                }
            }
        },
        UploadEvent::ConfirmOutcome { status, file } => {
            if !(200 <= status && status < 300) {
                UploadState::Failed { error: SubmitError::BadStatus { status } }
            } else {
                match file {
                    None => UploadState::Failed { error: SubmitError::MalformedResponse },
                    Some(f) => UploadState::Completed { file: f },
                }
            }
        },
    }
}

/// What the host must do next for one file.
pub enum UploadAction {
    /// Issue the intent request (the bucket request).
    RequestBucket,
    /// Issue the multipart payload transfer to the bucket's URL, echoing the
    /// bucket's fields verbatim and attaching the file's byte stream.
    SendPayload { url: String, fields: Vec<(String, String)> },
    /// Issue the zero-length confirmation call to the returned location.
    Confirm { url: String },
    /// The pipeline is over, successfully or not.
    Stop,
}

/// Whether two field lists agree pairwise.
pub open spec fn fields_eq_view(a: Seq<(String, String)>, b: Seq<(String, String)>) -> bool {
    a.len() == b.len() && forall|i: int|
        0 <= i < a.len() ==> (#[trigger] a[i]).0@ == b[i].0@ && a[i].1@ == b[i].1@
}

/// Clones a field list.
fn clone_fields(fields: &Vec<(String, String)>) -> (r: Vec<(String, String)>)
    ensures
        fields_eq_view(r@, fields@),
{
    let mut r: Vec<(String, String)> = Vec::new();
    let mut i: usize = 0;
    while i < fields.len()
        invariant
            0 <= i <= fields@.len(),
            r@.len() == i,
            forall|k: int|
                0 <= k < i ==> (#[trigger] r@[k]).0@ == fields@[k].0@ && r@[k].1@ == fields@[k].1@,
        decreases fields@.len() - i,
    {
        let k = fields[i].0.clone();
        let v = fields[i].1.clone();
        r.push((k, v));
        i += 1;
    }
    r
}

/// The next action for a state: the payload transfer exists only once the
/// bucket is received, and goes to the bucket's URL with the bucket's fields
/// echoed verbatim; the confirmation exists only once the location is
/// received, and goes to that location.
pub fn next_action(state: &UploadState) -> (r: UploadAction)
    ensures
        state is Ready ==> r is RequestBucket,
        state matches UploadState::BucketReceived { bucket } ==> (r matches
            UploadAction::SendPayload { url, fields } && url@ == bucket.upload_url@
            && fields_eq_view(fields@, bucket.upload_params@)),
        state matches UploadState::LocationReceived { location } ==> (r matches
            UploadAction::Confirm { url } && url@ == location@),
        state is Completed || state is Failed ==> r is Stop,
{
    match state {
        UploadState::Ready => UploadAction::RequestBucket,
        UploadState::BucketReceived { bucket } => UploadAction::SendPayload {
            url: bucket.upload_url.clone(),
            fields: clone_fields(&bucket.upload_params),
        },
        UploadState::LocationReceived { location } => UploadAction::Confirm {
            url: location.clone(),
        },
        UploadState::Completed { .. } => UploadAction::Stop,
        UploadState::Failed { .. } => UploadAction::Stop,
    }
}

/// Whether a pipeline state is terminal.
pub open spec fn terminal(state: UploadState) -> bool {
    state is Completed || state is Failed
}

/// Law: a finished file pipeline is final — no event answers a terminal
/// state, so a completed or failed upload is never revised.
pub proof fn lemma_upload_terminal_is_final(state: UploadState, event: UploadEvent)
    requires
        event_fits(state, event),
    ensures
        !terminal(state),
{
}

/// Law (stage ordering): the bucket-received state arises only from the
/// ready state, by a successful intent outcome carrying that very bucket.
pub proof fn lemma_transfer_needs_bucket(state: UploadState, event: UploadEvent)
    requires
        event_fits(state, event),
        step_spec(state, event) is BucketReceived,
    ensures
        state is Ready,
        event matches UploadEvent::BucketOutcome { status, bucket } && success_status(status)
            && bucket == Some(step_spec(state, event)->BucketReceived_bucket),
{
}

/// Law (stage ordering): the location-received state arises only from the
/// bucket-received state, by a successful transfer outcome carrying that
/// very location.
pub proof fn lemma_confirm_needs_location(state: UploadState, event: UploadEvent)
    requires
        event_fits(state, event),
        step_spec(state, event) is LocationReceived,
    ensures
        state is BucketReceived,
        event matches UploadEvent::TransferOutcome { status, location } && success_status(status)
            && location == Some(step_spec(state, event)->LocationReceived_location),
{
}

/// Law (stage ordering): the completed state arises only from the
/// location-received state, by a successful confirmation outcome carrying
/// that very file record.
pub proof fn lemma_completion_needs_confirmation(state: UploadState, event: UploadEvent)
    requires
        event_fits(state, event),
        step_spec(state, event) is Completed,
    ensures
        state is LocationReceived,
        event matches UploadEvent::ConfirmOutcome { status, file } && success_status(status)
            && file == Some(step_spec(state, event)->Completed_file),
{
}

/// The endpoint of the intent request for one assignment's submission files.
pub fn upload_intent_endpoint(base: &str, course_id: u32, assignment_id: u32) -> (r: String)
    ensures
        r@ == base@ + "/api/v1/courses/"@ + dec_digits(course_id as int) + "/assignments/"@
            + dec_digits(assignment_id as int) + "/submissions/self/files"@,
{
    let mut s = base.to_owned();
    s.append("/api/v1/courses/");
    push_u32(&mut s, course_id);
    s.append("/assignments/");
    push_u32(&mut s, assignment_id);
    s.append("/submissions/self/files");
    proof {
        assert(s@ =~= base@ + "/api/v1/courses/"@ + dec_digits(course_id as int)
            + "/assignments/"@ + dec_digits(assignment_id as int) + "/submissions/self/files"@);
    }
    s
}

/// The form fields of the intent request: the file's base name and its byte
/// size.
pub fn intent_form_fields(basename: &str, size: u64) -> (r: Vec<(String, String)>)
    ensures
        r@.len() == 2,
        r@[0].0@ == "name"@ && r@[0].1@ == basename@,
        r@[1].0@ == "size"@ && r@[1].1@ == dec_digits(size as int),
{
    let mut r: Vec<(String, String)> = Vec::new();
    r.push(("name".to_owned(), basename.to_owned()));
    let mut size_text = String::new();
    push_u64(&mut size_text, size);
    proof {
        assert(size_text@ =~= dec_digits(size as int));
    }
    r.push(("size".to_owned(), size_text));
    r
}

} // verus!
