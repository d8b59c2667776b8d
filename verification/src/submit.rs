//! The submission pipeline: precondition checks, the fail-fast join of the
//! per-file upload pipelines, the submission request that can only exist
//! once every file is uploaded, the finalization call's shape, and the
//! five-stage pipeline machine that ties the stages together in order.
use vstd::prelude::*;
use vstd::string::StringExecFns;
use crate::aggregate::Assignment;
use crate::errors::SubmitError;
use crate::select::assignments_of_course;
use crate::select::assignments_for_course;
use crate::text::{dec_digits, push_u32};
use crate::upload::{success_status, terminal, UploadState, UploadedFile};

verus! {

/// The submit command's inputs: local file paths, and the optional explicit
/// URL, course id and assignment id.
pub struct SubmitCommand {
    pub files: Vec<String>,
    pub url: Option<String>,
    pub course: Option<u32>,
    pub assignment: Option<u32>,
}

/// Precondition check before any network call: there must be at least one
/// file, and every file must exist (the host reports existence per path, in
/// order). The first missing file is the error; an empty list is its own
/// error.
pub fn check_files(files: &Vec<String>, exists: &Vec<bool>) -> (r: Result<(), SubmitError>)
    requires
        exists@.len() == files@.len(),
    ensures
        r is Ok <==> (files@.len() > 0 && (forall|i: int|
            0 <= i < exists@.len() ==> exists@[i])),
        files@.len() == 0 ==> r == Result::<(), SubmitError>::Err(SubmitError::NoFiles),
        r matches Err(SubmitError::FileMissing { index }) ==> 0 <= index < exists@.len()
            && !exists@[index as int] && (forall|k: int| 0 <= k < index ==> exists@[k]),
        r is Err ==> (r->Err_0 == SubmitError::NoFiles || r->Err_0 matches
            SubmitError::FileMissing { .. }),
{
    if files.len() == 0 {
        return Err(SubmitError::NoFiles);
    }
    let mut i: usize = 0;
    while i < exists.len()
        invariant
            0 <= i <= exists@.len(),
            exists@.len() == files@.len(),
            files@.len() > 0,
            forall|k: int| 0 <= k < i ==> exists@[k],
        decreases exists@.len() - i,
    {
        if !exists[i] {
            return Err(SubmitError::FileMissing { index: i });
        }
        i += 1;
    }
    Ok(())
}

/// Entry into the pipeline: with every precondition met the run starts
/// aggregating over the given files; otherwise the one fatal precondition
/// error, found before any network call.
pub fn begin_submission(cmd: &SubmitCommand, exists: &Vec<bool>) -> (r: Result<
    PipelineState,
    SubmitError,
>)
    requires
        exists@.len() == cmd.files@.len(),
    ensures
        r is Ok <==> (cmd.files@.len() > 0 && (forall|i: int|
            0 <= i < exists@.len() ==> exists@[i])),
        r matches Ok(s) ==> (s matches PipelineState::Aggregating { file_count } && file_count
            == cmd.files@.len() && state_wf(s)),
        cmd.files@.len() == 0 ==> r == Result::<PipelineState, SubmitError>::Err(
            SubmitError::NoFiles,
        ),
        r matches Err(SubmitError::FileMissing { index }) ==> 0 <= index < exists@.len()
            && !exists@[index as int] && (forall|k: int| 0 <= k < index ==> exists@[k]),
        r is Err ==> (r->Err_0 == SubmitError::NoFiles || r->Err_0 matches
            SubmitError::FileMissing { .. }),
{
    match check_files(&cmd.files, exists) {
        Ok(_) => Ok(PipelineState::Aggregating { file_count: cmd.files.len() }),
        Err(e) => Err(e),
    }
}

/// The error of the first failed per-file pipeline, in file order.
pub open spec fn first_error(s: Seq<UploadState>) -> Option<SubmitError>
    decreases s.len(),
{
    if s.len() == 0 {
        None
    } else {
        match s.first() {
            UploadState::Failed { error } => Some(error),
            _ => first_error(s.drop_first()),
        }
    }
}

/// Law (fail-fast join): if any file's pipeline failed, the join carries a
/// failure, so the finalizer is never reached.
pub proof fn lemma_join_fail_fast(results: Seq<UploadState>)
    requires
        exists|i: int| 0 <= i < results.len() && (#[trigger] results[i]) is Failed,
    ensures
        first_error(results) is Some,
    decreases results.len(),
{
    if results.first() is Failed {
    } else {
        let i = choose|i: int| 0 <= i < results.len() && (#[trigger] results[i]) is Failed;
        assert(results.drop_first()[i - 1] is Failed);
        lemma_join_fail_fast(results.drop_first());
    }
}

/// With every pipeline terminal and no failure, every pipeline completed.
pub proof fn lemma_no_error_all_completed(results: Seq<UploadState>)
    requires
        forall|i: int| 0 <= i < results.len() ==> terminal(#[trigger] results[i]),
        first_error(results) is None,
    ensures
        forall|i: int| 0 <= i < results.len() ==> (#[trigger] results[i]) is Completed,
    decreases results.len(),
{
    if results.len() > 0 {
        assert(forall|i: int|
            0 <= i < results.drop_first().len() ==> terminal(
                #[trigger] results.drop_first()[i],
            ));
        lemma_no_error_all_completed(results.drop_first());
        assert forall|i: int| 0 <= i < results.len() implies (#[trigger] results[i])
            is Completed by {
            if i > 0 {
                assert(results.drop_first()[i - 1] is Completed);
            }
        }
    }
}

/// An uploaded-file record is its own value; cloning preserves it exactly.
fn duplicate_uploaded(f: &UploadedFile) -> (r: UploadedFile)
    ensures
        r == *f,
{
    let display_name = match &f.display_name {
        Some(n) => Some(n.clone()),
        None => None,
    };
    UploadedFile { id: f.id, display_name }
}

/// An error is its own value; cloning preserves it exactly.
fn duplicate_error(e: &SubmitError) -> (r: SubmitError)
    ensures
        r == *e,
{
    match e {
        SubmitError::NotConfigured => SubmitError::NotConfigured,
        SubmitError::NoFiles => SubmitError::NoFiles,
        SubmitError::FileMissing { index } => SubmitError::FileMissing { index: *index },
        SubmitError::InvalidUrl => SubmitError::InvalidUrl,
        SubmitError::Connection => SubmitError::Connection,
        SubmitError::BadStatus { status } => SubmitError::BadStatus { status: *status },
        SubmitError::MalformedResponse => SubmitError::MalformedResponse,
        SubmitError::CourseNotFound => SubmitError::CourseNotFound,
        SubmitError::AssignmentNotFound => SubmitError::AssignmentNotFound,
        SubmitError::MissingLocation => SubmitError::MissingLocation,
        SubmitError::FinalizeFailed { status } => SubmitError::FinalizeFailed { status: *status },
    }
}

/// The fail-fast join of the per-file pipelines, once every one is terminal:
/// the uploaded records in file order when every file completed, otherwise
/// the first failure's error. One failed file prevents finalization even
/// when every other file completed.
pub fn join_uploads(results: &Vec<UploadState>) -> (r: Result<Vec<UploadedFile>, SubmitError>)
    requires
        forall|i: int| 0 <= i < results@.len() ==> terminal(#[trigger] results@[i]),
    ensures
        r is Ok <==> first_error(results@) is None,
        r matches Ok(v) ==> v@.len() == results@.len() && (forall|i: int|
            0 <= i < v@.len() ==> #[trigger] v@[i] == results@[i]->Completed_file),
        r matches Err(e) ==> first_error(results@) == Some(e),
{
    let mut out: Vec<UploadedFile> = Vec::new();
    proof {
        assert(results@.skip(0) =~= results@);
    }
    let mut i: usize = 0;
    while i < results.len()
        invariant
            0 <= i <= results@.len(),
            forall|k: int| 0 <= k < results@.len() ==> terminal(#[trigger] results@[k]),
            forall|k: int| 0 <= k < i ==> (#[trigger] results@[k]) is Completed,
            out@.len() == i,
            forall|k: int| 0 <= k < i ==> #[trigger] out@[k] == results@[k]->Completed_file,
            first_error(results@) == first_error(results@.skip(i as int)),
        decreases results@.len() - i,
    {
        proof {
            assert(results@.skip(i as int).first() == results@[i as int]);
            assert(results@.skip(i as int).drop_first() =~= results@.skip(i as int + 1));
        }
        match &results[i] {
            UploadState::Completed { file } => {
                out.push(duplicate_uploaded(file));
            },
            UploadState::Failed { error } => {
                proof {
                    assert(first_error(results@.skip(i as int)) == Some(*error));
                }
                return Err(duplicate_error(error));
            },
            _ => {
                proof {
                    assert(terminal(results@[i as int]));
                    assert(false);
                }
                return Err(SubmitError::Connection);
            },
        }
        i += 1;
    }
    proof {
        assert(results@.skip(results@.len() as int) =~= Seq::<UploadState>::empty());
    }
    Ok(out)
}

/// A finalizable submission: a course, an assignment, and the full ordered
/// set of uploaded-file identifiers. Only constructible through `new`, which
/// demands one uploaded file per input path.
pub struct SubmissionRequest {
    course_id: u32,
    assignment_id: u32,
    file_ids: Vec<u32>,
}

impl SubmissionRequest {
    /// The course the submission is attached to.
    pub closed spec fn spec_course_id(&self) -> u32 {
        self.course_id
    }

    /// The assignment the submission is attached to.
    pub closed spec fn spec_assignment_id(&self) -> u32 {
        self.assignment_id
    }

    /// The uploaded-file identifiers, in file order.
    pub closed spec fn spec_file_ids(&self) -> Seq<u32> {
        self.file_ids@
    }

    /// A submission request always carries at least one file.
    pub closed spec fn wf(&self) -> bool {
        self.file_ids@.len() > 0
    }

    /// Builds the one submission request for the assignment — exactly when
    /// the count of uploaded files equals the count of input file paths and
    /// that count is positive; a partial set is never accepted.
    pub fn new(
        course_id: u32,
        assignment_id: u32,
        uploaded: &Vec<UploadedFile>,
        path_count: usize,
    ) -> (r: Option<SubmissionRequest>)
        ensures
            r is Some <==> (uploaded@.len() == path_count && path_count > 0),
            r matches Some(req) ==> req.wf() && req.spec_course_id() == course_id
                && req.spec_assignment_id() == assignment_id && req.spec_file_ids().len()
                == uploaded@.len() && (forall|i: int|
                0 <= i < uploaded@.len() ==> req.spec_file_ids()[i] == (
                #[trigger] uploaded@[i]).id),
    {
        if uploaded.len() != path_count || path_count == 0 {
            return None;
        }
        let mut file_ids: Vec<u32> = Vec::new();
        let mut i: usize = 0;
        while i < uploaded.len()
            invariant
                0 <= i <= uploaded@.len(),
                file_ids@.len() == i,
                forall|k: int| 0 <= k < i ==> file_ids@[k] == (#[trigger] uploaded@[k]).id,
            decreases uploaded@.len() - i,
        {
            file_ids.push(uploaded[i].id);
            i += 1;
        }
        Some(SubmissionRequest { course_id, assignment_id, file_ids })
    }

    /// The course id, for building the call.
    pub fn course_id(&self) -> (r: u32)
        ensures
            r == self.spec_course_id(),
    {
        self.course_id
    }

    /// The assignment id, for building the call.
    pub fn assignment_id(&self) -> (r: u32)
        ensures
            r == self.spec_assignment_id(),
    {
        self.assignment_id
    }

    /// The uploaded-file identifiers, for building the call.
    pub fn file_ids(&self) -> (r: &Vec<u32>)
        ensures
            r@ == self.spec_file_ids(),
    {
        &self.file_ids
    }

    /// The query parameters of the finalization call: one repeated file-id
    /// parameter per uploaded file, in order, then the submission type fixed
    /// to the file-upload kind.
    pub fn submission_params(&self) -> (r: Vec<(String, String)>)
        ensures
            r@.len() == self.spec_file_ids().len() + 1,
            forall|i: int|
                0 <= i < self.spec_file_ids().len() ==> (#[trigger] r@[i]).0@
                    == "submission[file_ids][]"@ && r@[i].1@ == dec_digits(
                    self.spec_file_ids()[i] as int,
                ),
            r@[r@.len() - 1].0@ == "submission[submission_type]"@,
            r@[r@.len() - 1].1@ == "online_upload"@,
    {
        let mut r: Vec<(String, String)> = Vec::new();
        let mut i: usize = 0;
        while i < self.file_ids.len()
            invariant
                0 <= i <= self.file_ids@.len(),
                r@.len() == i,
                forall|k: int|
                    0 <= k < i ==> (#[trigger] r@[k]).0@ == "submission[file_ids][]"@ && r@[k].1@
                        == dec_digits(self.file_ids@[k] as int),
            decreases self.file_ids@.len() - i,
        {
            let mut id_text = String::new();
            push_u32(&mut id_text, self.file_ids[i]);
            proof {
                assert(id_text@ =~= dec_digits(self.file_ids@[i as int] as int));
            }
            r.push(("submission[file_ids][]".to_owned(), id_text));
            i += 1;
        }
        r.push(("submission[submission_type]".to_owned(), "online_upload".to_owned()));
        r
    }

    /// The endpoint of the finalization call.
    pub fn submission_endpoint(&self, base: &str) -> (r: String)
        ensures
            r@ == base@ + "/api/v1/courses/"@ + dec_digits(self.spec_course_id() as int)
                + "/assignments/"@ + dec_digits(self.spec_assignment_id() as int)
                + "/submissions"@,
    {
        let mut s = base.to_owned();
        s.append("/api/v1/courses/");
        push_u32(&mut s, self.course_id);
        s.append("/assignments/");
        push_u32(&mut s, self.assignment_id);
        s.append("/submissions");
        proof {
            assert(s@ =~= base@ + "/api/v1/courses/"@ + dec_digits(self.spec_course_id() as int)
                + "/assignments/"@ + dec_digits(self.spec_assignment_id() as int)
                + "/submissions"@);
        }
        s
    }
}

/// The verdict on the finalization call's status: success exactly on a 2xx
/// status; any non-success status is fatal, with no retry and no partial
/// re-submission.
pub fn finalize_outcome(status: u16) -> (r: Result<(), SubmitError>)
    ensures
        r is Ok <==> success_status(status),
        r is Err ==> r->Err_0 == (SubmitError::FinalizeFailed { status }),
{
    if 200 <= status && status < 300 {
        Ok(())
    } else {
        Err(SubmitError::FinalizeFailed { status })
    }
}

/// The state of the whole submission pipeline. The five stages run strictly
/// in sequence: aggregation, course selection, assignment selection, the
/// per-file uploads, finalization.
pub enum PipelineState {
    /// The three metadata queries are in flight.
    Aggregating { file_count: usize },
    /// The merged view is ready; a course must be resolved.
    SelectingCourse { aggregated: Vec<Assignment>, file_count: usize },
    /// A course is resolved; an assignment must be resolved among its
    /// candidates.
    SelectingAssignment { candidates: Vec<Assignment>, course_id: u32, file_count: usize },
    /// The per-file upload pipelines are in flight.
    Uploading { course_id: u32, assignment_id: u32, file_count: usize },
    /// Every file is uploaded; the one finalization call is in flight.
    Finalizing { request: SubmissionRequest },
    /// The finalization call succeeded.
    Succeeded,
    /// Some stage failed; the run is over and the error is the one fatal
    /// error the user sees.
    Failed { error: SubmitError },
}

/// What the host reports back to the pipeline, one event per stage.
pub enum PipelineEvent {
    /// The aggregation finished (all three queries, or the first failure).
    Aggregated { outcome: Result<Vec<Assignment>, SubmitError> },
    /// A course was resolved, by explicit id or interactively.
    CourseResolved { outcome: Result<u32, SubmitError> },
    /// An assignment was resolved, by explicit id or interactively.
    AssignmentResolved { outcome: Result<u32, SubmitError> },
    /// Every per-file upload pipeline reached a terminal state.
    UploadsFinished { results: Vec<UploadState> },
    /// The finalization call returned this status.
    FinalizeStatus { status: u16 },
}

/// Every in-flight state carries a positive file count (the empty file list
/// was rejected before the pipeline started).
pub open spec fn state_wf(state: PipelineState) -> bool {
    match state {
        PipelineState::Aggregating { file_count } => file_count > 0,
        PipelineState::SelectingCourse { file_count, .. } => file_count > 0,
        PipelineState::SelectingAssignment { file_count, .. } => file_count > 0,
        PipelineState::Uploading { file_count, .. } => file_count > 0,
        PipelineState::Finalizing { request } => request.wf(),
        PipelineState::Succeeded => true,
        PipelineState::Failed { .. } => true,
    }
}

/// Which events can answer which states: each stage's outcome answers
/// exactly the stage that is in flight, and the uploads report one terminal
/// pipeline per file.
pub open spec fn pipeline_event_fits(state: PipelineState, event: PipelineEvent) -> bool {
    match (state, event) {
        (PipelineState::Aggregating { .. }, PipelineEvent::Aggregated { .. }) => true,
        (PipelineState::SelectingCourse { .. }, PipelineEvent::CourseResolved { .. }) => true,
        (
            PipelineState::SelectingAssignment { .. },
            PipelineEvent::AssignmentResolved { .. },
        ) => true,
        (
            PipelineState::Uploading { file_count, .. },
            PipelineEvent::UploadsFinished { results },
        ) => results@.len() == file_count && (forall|i: int|
            0 <= i < results@.len() ==> terminal(#[trigger] results@[i])),
        (PipelineState::Finalizing { .. }, PipelineEvent::FinalizeStatus { .. }) => true,
        _ => false,
    }
}

/// Whether the pipeline is over.
pub open spec fn pipeline_terminal(state: PipelineState) -> bool {
    state is Succeeded || state is Failed
}

/// Advances the pipeline by one finished stage. Any stage failure moves to
/// `Failed` with that stage's error and nothing downstream ever runs; a
/// successful stage carries its result into the next stage. The finalizer is
/// entered exactly when every file's upload completed, with one file id per
/// input file, in file order.
pub fn pipeline_step(state: PipelineState, event: PipelineEvent) -> (r: PipelineState)
    requires
        state_wf(state),
        pipeline_event_fits(state, event),
    ensures
        state_wf(r),
        pipeline_step_rel(state, event, r),
{
    match (state, event) {
        (
            PipelineState::Aggregating { file_count },
            PipelineEvent::Aggregated { outcome },
        ) => match outcome {
            Ok(v) => PipelineState::SelectingCourse { aggregated: v, file_count },
            Err(e) => PipelineState::Failed { error: e },
        },
        (
            PipelineState::SelectingCourse { aggregated, file_count },
            PipelineEvent::CourseResolved { outcome },
        ) => match outcome {
            Ok(course_id) => {
                let candidates = assignments_for_course(aggregated, course_id);
                PipelineState::SelectingAssignment { candidates, course_id, file_count }
            },
            Err(e) => PipelineState::Failed { error: e },
        },
        (
            PipelineState::SelectingAssignment { candidates: _, course_id, file_count },
            PipelineEvent::AssignmentResolved { outcome },
        ) => match outcome {
            Ok(assignment_id) => PipelineState::Uploading {
                course_id,
                assignment_id,
                file_count,
            },
            Err(e) => PipelineState::Failed { error: e },
        },
        (
            PipelineState::Uploading { course_id, assignment_id, file_count },
            PipelineEvent::UploadsFinished { results },
        ) => {
            let ghost results_view = results@;
            match join_uploads(&results) {
                Ok(uploaded) => {
                    proof {
                        lemma_no_error_all_completed(results_view);
                    }
                    match SubmissionRequest::new(course_id, assignment_id, &uploaded, file_count) {
                        Some(request) => {
                            proof {
                                assert(first_error(results_view) is None);
                                assert(request.spec_file_ids().len() == results_view.len());
                                assert forall|i: int|
                                    0 <= i < results_view.len() implies request.spec_file_ids()[i]
                                    == (#[trigger] results_view[i])->Completed_file.id by {
                                    assert(uploaded@[i] == results_view[i]->Completed_file);
                                    assert(request.spec_file_ids()[i] == uploaded@[i].id);
                                }
                            }
                            PipelineState::Finalizing { request }
                        },
                        None => {
                            proof {
                                assert(false);
                            }
                            PipelineState::Failed { error: SubmitError::Connection }
                        },
                    }
                },
                Err(e) => PipelineState::Failed { error: e },
            }
        },
        (
            PipelineState::Finalizing { request: _ },
            PipelineEvent::FinalizeStatus { status },
        ) => match finalize_outcome(status) {
            Ok(_) => PipelineState::Succeeded,
            Err(e) => PipelineState::Failed { error: e },
        },
        (s, _) => {
            proof {
                assert(false);
            }
            s
        },
    }
}

/// Law: the upload stage is entered only by a successful assignment
/// resolution; a failed lookup means no upload is ever attempted.
pub proof fn lemma_uploads_need_assignment(state: PipelineState, event: PipelineEvent, r: PipelineState)
    requires
        state_wf(state),
        pipeline_event_fits(state, event),
        !(state is Uploading),
        r is Uploading,
        pipeline_step_rel(state, event, r),
    ensures
        state is SelectingAssignment,
        event matches PipelineEvent::AssignmentResolved { outcome } && outcome is Ok,
{
    match (state, event) {
        (
            PipelineState::SelectingAssignment { .. },
            PipelineEvent::AssignmentResolved { .. },
        ) => {
        },
        _ => {
            assert(false);
        },
    }
}

/// The transition relation the step function realizes (for stating laws
/// about which states can follow which).
pub open spec fn pipeline_step_rel(
    state: PipelineState,
    event: PipelineEvent,
    r: PipelineState,
) -> bool {
    match (state, event) {
        (
            PipelineState::Aggregating { file_count },
            PipelineEvent::Aggregated { outcome },
        ) => match outcome {
            Ok(v) => r == (PipelineState::SelectingCourse { aggregated: v, file_count }),
            Err(e) => r == (PipelineState::Failed { error: e }),
        },
        (
            PipelineState::SelectingCourse { aggregated, file_count },
            PipelineEvent::CourseResolved { outcome },
        ) => match outcome {
            Ok(course_id) => r matches PipelineState::SelectingAssignment {
                candidates,
                course_id: rc,
                file_count: rf,
            } && candidates@ == assignments_of_course(aggregated@, course_id) && rc == course_id
                && rf == file_count,
            Err(e) => r == (PipelineState::Failed { error: e }),
        },
        (
            PipelineState::SelectingAssignment { candidates: _, course_id, file_count },
            PipelineEvent::AssignmentResolved { outcome },
        ) => match outcome {
            Ok(assignment_id) => r == (PipelineState::Uploading {
                course_id,
                assignment_id,
                file_count,
            }),
            Err(e) => r == (PipelineState::Failed { error: e }),
        },
        (
            PipelineState::Uploading { course_id, assignment_id, file_count: _ },
            PipelineEvent::UploadsFinished { results },
        ) => match first_error(results@) {
            Some(e) => r == (PipelineState::Failed { error: e }),
            None => r matches PipelineState::Finalizing { request } && request.spec_course_id()
                == course_id && request.spec_assignment_id() == assignment_id
                && request.spec_file_ids().len() == results@.len() && (forall|i: int|
                0 <= i < results@.len() ==> request.spec_file_ids()[i] == (
                #[trigger] results@[i])->Completed_file.id),
        },
        (
            PipelineState::Finalizing { .. },
            PipelineEvent::FinalizeStatus { status },
        ) => if success_status(status) {
            r is Succeeded
        } else {
            r == (PipelineState::Failed { error: (SubmitError::FinalizeFailed { status }) })
        },
        _ => r == state,
    }
}

/// Law: the finalizer is entered only from the upload stage, only when no
/// file failed, with one file id per file in file order; one failed file
/// keeps the pipeline out of the finalizer for good.
pub proof fn lemma_finalize_needs_all_uploads(
    state: PipelineState,
    event: PipelineEvent,
    r: PipelineState,
)
    requires
        state_wf(state),
        pipeline_event_fits(state, event),
        !(state is Finalizing),
        r is Finalizing,
        pipeline_step_rel(state, event, r),
    ensures
        state is Uploading,
        event matches PipelineEvent::UploadsFinished { results } && first_error(results@) is None
            && (forall|i: int| 0 <= i < results@.len() ==> (#[trigger] results@[i]) is Completed)
            && r->Finalizing_request.spec_file_ids().len() == results@.len(),
{
    match (state, event) {
        (
            PipelineState::Uploading { course_id, assignment_id, file_count },
            PipelineEvent::UploadsFinished { results },
        ) => {
            if first_error(results@) is Some {
                assert(false);
            } else {
                lemma_no_error_all_completed(results@);
            }
        },
        _ => {
            assert(false);
        },
    }
}

/// Law: a finished run is final — no event answers a terminal state, so
/// neither success nor the one fatal error is ever revised.
pub proof fn lemma_pipeline_terminal_is_final(state: PipelineState, event: PipelineEvent)
    requires
        pipeline_event_fits(state, event),
    ensures
        !pipeline_terminal(state),
{
}

} // verus!
