use canvas_cli::errors::SubmitError;
use canvas_cli::upload::{
    intent_form_fields, next_action, upload_intent_endpoint, upload_step, UploadAction,
    UploadBucket, UploadEvent, UploadState, UploadedFile,
};

fn bucket() -> UploadBucket {
    UploadBucket {
        upload_url: "https://bucket.example.com/put".to_string(),
        upload_params: vec![
            ("key".to_string(), "abc".to_string()),
            ("policy".to_string(), "xyz".to_string()),
        ],
    }
}

#[test]
fn intent_endpoint_has_the_wire_shape() {
    let url = upload_intent_endpoint("https://x.edu", 12, 34);
    assert_eq!(
        url,
        "https://x.edu/api/v1/courses/12/assignments/34/submissions/self/files"
    );
}

#[test]
fn intent_form_carries_name_and_size() {
    let fields = intent_form_fields("paper.pdf", 123456);
    assert_eq!(fields.len(), 2);
    assert_eq!(fields[0], ("name".to_string(), "paper.pdf".to_string()));
    assert_eq!(fields[1], ("size".to_string(), "123456".to_string()));
}

#[test]
fn ready_state_requests_bucket() {
    assert!(matches!(next_action(&UploadState::Ready), UploadAction::RequestBucket));
}

#[test]
fn bucket_outcome_success_moves_to_payload_stage() {
    let s = upload_step(
        UploadState::Ready,
        UploadEvent::BucketOutcome { status: 200, bucket: Some(bucket()) },
    );
    match &s {
        UploadState::BucketReceived { bucket } => {
            assert_eq!(bucket.upload_url, "https://bucket.example.com/put");
        }
        _ => panic!("expected the bucket-received state"),
    }
    // The payload action echoes the bucket's URL and fields verbatim.
    match next_action(&s) {
        UploadAction::SendPayload { url, fields } => {
            assert_eq!(url, "https://bucket.example.com/put");
            assert_eq!(fields.len(), 2);
            assert_eq!(fields[0], ("key".to_string(), "abc".to_string()));
            assert_eq!(fields[1], ("policy".to_string(), "xyz".to_string()));
        }
        _ => panic!("expected the payload action"),
    }
}

#[test]
fn bucket_outcome_bad_status_fails() {
    let s = upload_step(
        UploadState::Ready,
        UploadEvent::BucketOutcome { status: 403, bucket: Some(bucket()) },
    );
    match s {
        UploadState::Failed { error } => assert_eq!(error, SubmitError::BadStatus { status: 403 }),
        _ => panic!("expected failure"),
    }
}

#[test]
fn bucket_outcome_malformed_body_fails() {
    let s = upload_step(UploadState::Ready, UploadEvent::BucketOutcome { status: 200, bucket: None });
    match s {
        UploadState::Failed { error } => assert_eq!(error, SubmitError::MalformedResponse),
        _ => panic!("expected failure"),
    }
}

#[test]
fn transfer_outcome_success_moves_to_confirmation() {
    let s0 = UploadState::BucketReceived { bucket: bucket() };
    let s1 = upload_step(
        s0,
        UploadEvent::TransferOutcome {
            status: 201,
            location: Some("https://x.edu/confirm/9".to_string()),
        },
    );
    match &s1 {
        UploadState::LocationReceived { location } => {
            assert_eq!(location, "https://x.edu/confirm/9");
        }
        _ => panic!("expected the location-received state"),
    }
    match next_action(&s1) {
        UploadAction::Confirm { url } => assert_eq!(url, "https://x.edu/confirm/9"),
        _ => panic!("expected the confirmation action"),
    }
}

#[test]
fn transfer_outcome_missing_location_fails() {
    let s = upload_step(
        UploadState::BucketReceived { bucket: bucket() },
        UploadEvent::TransferOutcome { status: 200, location: None },
    );
    match s {
        UploadState::Failed { error } => assert_eq!(error, SubmitError::MissingLocation),
        _ => panic!("expected failure"),
    }
}

#[test]
fn confirm_outcome_success_completes() {
    let s = upload_step(
        UploadState::LocationReceived { location: "https://x.edu/confirm/9".to_string() },
        UploadEvent::ConfirmOutcome {
            status: 200,
            file: Some(UploadedFile { id: 77, display_name: Some("paper.pdf".to_string()) }),
        },
    );
    match &s {
        UploadState::Completed { file } => {
            assert_eq!(file.id, 77);
            assert_eq!(file.display_name.as_deref(), Some("paper.pdf"));
        }
        _ => panic!("expected completion"),
    }
    assert!(matches!(next_action(&s), UploadAction::Stop));
}

#[test]
fn connection_failure_fails_any_stage() {
    let s = upload_step(UploadState::Ready, UploadEvent::ConnectionFailed);
    match s {
        UploadState::Failed { error } => assert_eq!(error, SubmitError::Connection),
        _ => panic!("expected failure"),
    }
    let s = upload_step(
        UploadState::LocationReceived { location: "https://x.edu/c".to_string() },
        UploadEvent::ConnectionFailed,
    );
    assert!(matches!(s, UploadState::Failed { .. }));
}
