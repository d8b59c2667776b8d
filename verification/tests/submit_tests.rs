use canvas_cli::aggregate::{Assignment, AssignmentRecord, CourseRecord, aggregate};
use canvas_cli::errors::SubmitError;
use canvas_cli::select::select_assignment_by_id;
use canvas_cli::submit::{
    begin_submission, check_files, finalize_outcome, join_uploads, pipeline_step, PipelineEvent,
    PipelineState, SubmissionRequest, SubmitCommand,
};
use canvas_cli::upload::{upload_step, UploadBucket, UploadEvent, UploadState, UploadedFile};

fn uploaded(id: u32) -> UploadedFile {
    UploadedFile { id, display_name: None }
}

fn completed(id: u32) -> UploadState {
    UploadState::Completed { file: uploaded(id) }
}

#[test]
fn begin_submission_starts_aggregation_or_reports_precondition() {
    let cmd = SubmitCommand {
        files: vec!["a.pdf".to_string(), "b.pdf".to_string()],
        url: None,
        course: None,
        assignment: None,
    };
    let state = begin_submission(&cmd, &vec![true, true]).expect("both files exist");
    assert!(matches!(state, PipelineState::Aggregating { file_count: 2 }));
    let missing = begin_submission(&cmd, &vec![true, false]);
    assert_eq!(missing.err().unwrap(), SubmitError::FileMissing { index: 1 });
    let empty = SubmitCommand { files: vec![], url: None, course: None, assignment: None };
    assert_eq!(begin_submission(&empty, &vec![]).err().unwrap(), SubmitError::NoFiles);
}

#[test]
fn check_files_demands_at_least_one() {
    let r = check_files(&vec![], &vec![]);
    assert_eq!(r.err().unwrap(), SubmitError::NoFiles);
}

#[test]
fn check_files_reports_first_missing() {
    let files = vec!["a.txt".to_string(), "b.txt".to_string(), "c.txt".to_string()];
    let r = check_files(&files, &vec![true, false, false]);
    assert_eq!(r.err().unwrap(), SubmitError::FileMissing { index: 1 });
    let ok = check_files(&files, &vec![true, true, true]);
    assert!(ok.is_ok());
}

#[test]
fn join_collects_all_completed_in_order() {
    let results = vec![completed(5), completed(6)];
    let v = join_uploads(&results).expect("all completed");
    let ids: Vec<u32> = v.iter().map(|f| f.id).collect();
    assert_eq!(ids, vec![5, 6]);
}

#[test]
fn join_carries_first_failure() {
    let results = vec![
        completed(5),
        UploadState::Failed { error: SubmitError::BadStatus { status: 500 } },
        UploadState::Failed { error: SubmitError::Connection },
    ];
    let e = join_uploads(&results).err().unwrap();
    assert_eq!(e, SubmitError::BadStatus { status: 500 });
}

#[test]
fn submission_request_demands_one_upload_per_path() {
    // A submission request is only constructible when the count of uploaded
    // files equals the count of input file paths.
    let files = vec![uploaded(1), uploaded(2)];
    assert!(SubmissionRequest::new(7, 8, &files, 2).is_some());
    assert!(SubmissionRequest::new(7, 8, &files, 3).is_none());
    assert!(SubmissionRequest::new(7, 8, &files, 1).is_none());
    assert!(SubmissionRequest::new(7, 8, &vec![], 0).is_none());
}

#[test]
fn submission_params_carry_ids_and_fixed_type() {
    let files = vec![uploaded(41), uploaded(42)];
    let req = SubmissionRequest::new(7, 8, &files, 2).unwrap();
    let params = req.submission_params();
    assert_eq!(params.len(), 3);
    assert_eq!(params[0], ("submission[file_ids][]".to_string(), "41".to_string()));
    assert_eq!(params[1], ("submission[file_ids][]".to_string(), "42".to_string()));
    assert_eq!(
        params[2],
        ("submission[submission_type]".to_string(), "online_upload".to_string())
    );
    assert_eq!(
        req.submission_endpoint("https://x.edu"),
        "https://x.edu/api/v1/courses/7/assignments/8/submissions"
    );
}

#[test]
fn finalize_outcome_demands_a_success_status() {
    assert!(finalize_outcome(200).is_ok());
    assert!(finalize_outcome(201).is_ok());
    assert_eq!(
        finalize_outcome(302).err().unwrap(),
        SubmitError::FinalizeFailed { status: 302 }
    );
    assert_eq!(
        finalize_outcome(404).err().unwrap(),
        SubmitError::FinalizeFailed { status: 404 }
    );
    assert_eq!(
        finalize_outcome(503).err().unwrap(),
        SubmitError::FinalizeFailed { status: 503 }
    );
}

fn catalog_with_favorite_course() -> Vec<CourseRecord> {
    vec![CourseRecord {
        id: 7,
        name: "Algebra".to_string(),
        created_at: 100,
        assignments: vec![
            AssignmentRecord {
                id: 21,
                name: "HW1".to_string(),
                due_at: Some(10),
                submission_statuses: vec![],
                submission_types: vec!["online_upload".to_string()],
            },
            AssignmentRecord {
                id: 22,
                name: "HW2".to_string(),
                due_at: Some(20),
                submission_statuses: vec![],
                submission_types: vec!["online_upload".to_string()],
            },
        ],
    }]
}

fn drive_file_upload(id: u32) -> UploadState {
    // One file's three stages, each succeeding.
    let s = UploadState::Ready;
    let s = upload_step(
        s,
        UploadEvent::BucketOutcome {
            status: 200,
            bucket: Some(UploadBucket {
                upload_url: "https://bucket.example.com/put".to_string(),
                upload_params: vec![("key".to_string(), "v".to_string())],
            }),
        },
    );
    let s = upload_step(
        s,
        UploadEvent::TransferOutcome {
            status: 201,
            location: Some("https://x.edu/confirm".to_string()),
        },
    );
    upload_step(
        s,
        UploadEvent::ConfirmOutcome { status: 200, file: Some(uploaded(id)) },
    )
}

#[test]
fn pipeline_two_files_end_to_end_success() {
    // Scenario: two local files, no explicit course or assignment; the
    // aggregator returns one favorite course with two eligible assignments;
    // course and assignment are selected; both files complete all three
    // stages; the finalize call carries exactly two file ids plus the fixed
    // submission type; the run succeeds.
    let files = vec!["a.pdf".to_string(), "b.pdf".to_string()];
    assert!(check_files(&files, &vec![true, true]).is_ok());

    let merged = aggregate(Ok(catalog_with_favorite_course()), Ok(vec![7]), Ok(vec![])).unwrap();
    assert_eq!(merged.len(), 2);
    assert!(merged[0].course.is_favorite);

    let s = PipelineState::Aggregating { file_count: 2 };
    let s = pipeline_step(s, PipelineEvent::Aggregated { outcome: Ok(merged) });
    let s = pipeline_step(s, PipelineEvent::CourseResolved { outcome: Ok(7) });
    match &s {
        PipelineState::SelectingAssignment { candidates, course_id, .. } => {
            assert_eq!(*course_id, 7);
            assert_eq!(candidates.len(), 2);
        }
        _ => panic!("expected assignment selection"),
    }
    let s = pipeline_step(s, PipelineEvent::AssignmentResolved { outcome: Ok(21) });

    let results = vec![drive_file_upload(91), drive_file_upload(92)];
    let s = pipeline_step(s, PipelineEvent::UploadsFinished { results });
    let request = match &s {
        PipelineState::Finalizing { request } => request,
        _ => panic!("expected finalization"),
    };
    let params = request.submission_params();
    assert_eq!(params.len(), 3);
    assert_eq!(params[0].1, "91");
    assert_eq!(params[1].1, "92");
    assert_eq!(params[2], ("submission[submission_type]".to_string(), "online_upload".to_string()));

    let s = pipeline_step(s, PipelineEvent::FinalizeStatus { status: 201 });
    assert!(matches!(s, PipelineState::Succeeded));
}

#[test]
fn pipeline_aborts_before_finalize_when_one_transfer_fails() {
    // Scenario: the payload transfer for file 2 of 2 returns an error status;
    // the pipeline aborts before any finalize call, regardless of file 1
    // having completed.
    let file_one = drive_file_upload(91);
    assert!(matches!(file_one, UploadState::Completed { .. }));

    let s = UploadState::Ready;
    let s = upload_step(
        s,
        UploadEvent::BucketOutcome {
            status: 200,
            bucket: Some(UploadBucket {
                upload_url: "https://bucket.example.com/put".to_string(),
                upload_params: vec![],
            }),
        },
    );
    let file_two = upload_step(
        s,
        UploadEvent::TransferOutcome { status: 500, location: None },
    );
    assert!(matches!(file_two, UploadState::Failed { .. }));

    let s = PipelineState::Uploading { course_id: 7, assignment_id: 21, file_count: 2 };
    let s = pipeline_step(s, PipelineEvent::UploadsFinished { results: vec![file_one, file_two] });
    match s {
        PipelineState::Failed { error } => {
            assert_eq!(error, SubmitError::BadStatus { status: 500 });
        }
        _ => panic!("the pipeline must fail, never finalize"),
    }
}

#[test]
fn pipeline_fails_on_missing_assignment_id_before_any_upload() {
    // Scenario: the supplied assignment id does not exist under the resolved
    // course; the lookup reports not-found and no upload is attempted.
    let merged = aggregate(Ok(catalog_with_favorite_course()), Ok(vec![7]), Ok(vec![])).unwrap();
    let s = PipelineState::Aggregating { file_count: 1 };
    let s = pipeline_step(s, PipelineEvent::Aggregated { outcome: Ok(merged) });
    let s = pipeline_step(s, PipelineEvent::CourseResolved { outcome: Ok(7) });
    let candidates: &Vec<Assignment> = match &s {
        PipelineState::SelectingAssignment { candidates, .. } => candidates,
        _ => panic!("expected assignment selection"),
    };
    let lookup = select_assignment_by_id(candidates, 999);
    let error = lookup.err().unwrap();
    assert_eq!(error, SubmitError::AssignmentNotFound);
    let s = pipeline_step(s, PipelineEvent::AssignmentResolved { outcome: Err(error) });
    match s {
        PipelineState::Failed { error } => assert_eq!(error, SubmitError::AssignmentNotFound),
        _ => panic!("the pipeline must fail before any upload"),
    }
}

#[test]
fn pipeline_fails_fast_on_aggregation_failure() {
    let s = PipelineState::Aggregating { file_count: 1 };
    let s = pipeline_step(
        s,
        PipelineEvent::Aggregated { outcome: Err(SubmitError::BadStatus { status: 502 }) },
    );
    match s {
        PipelineState::Failed { error } => assert_eq!(error, SubmitError::BadStatus { status: 502 }),
        _ => panic!("expected failure"),
    }
}

#[test]
fn pipeline_finalize_error_status_is_fatal() {
    let files = vec![uploaded(1)];
    let request = SubmissionRequest::new(7, 21, &files, 1).unwrap();
    let s = PipelineState::Finalizing { request };
    let s = pipeline_step(s, PipelineEvent::FinalizeStatus { status: 401 });
    match s {
        PipelineState::Failed { error } => {
            assert_eq!(error, SubmitError::FinalizeFailed { status: 401 });
        }
        _ => panic!("expected failure"),
    }
}
