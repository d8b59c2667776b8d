use canvas_cli::auth::{validate_access_token, validate_url};
use canvas_cli::config::Config;
use canvas_cli::errors::SubmitError;

#[test]
fn token_without_surrounding_whitespace_is_accepted() {
    assert_eq!(validate_access_token("abc123").unwrap(), "abc123");
    assert_eq!(validate_access_token("a b").unwrap(), "a b");
    assert_eq!(validate_access_token("").unwrap(), "");
}

#[test]
fn token_with_surrounding_whitespace_is_rejected() {
    let msg = "Token cannot have any leading or trailing whitespace";
    assert_eq!(validate_access_token(" abc").err().unwrap(), msg);
    assert_eq!(validate_access_token("abc ").err().unwrap(), msg);
    assert_eq!(validate_access_token("\tabc").err().unwrap(), msg);
    assert_eq!(validate_access_token("abc\n").err().unwrap(), msg);
}

#[test]
fn url_validation_normalizes() {
    // The accepted value is the url crate's normalized form, not the input
    // handed back unchanged.
    assert_eq!(
        validate_url("https://example.instructure.com").unwrap(),
        "https://example.instructure.com/"
    );
    assert!(validate_url("not a url").is_err());
}

#[test]
fn config_requires_both_fields_present_and_nonempty() {
    let full = Config {
        url: Some("https://x.edu".to_string()),
        access_token: Some("tok".to_string()),
    };
    let c = full.ensure_non_empty().expect("complete configuration");
    assert_eq!(c.url, "https://x.edu");
    assert_eq!(c.access_token, "tok");

    let missing_token = Config { url: Some("https://x.edu".to_string()), access_token: None };
    assert_eq!(missing_token.ensure_non_empty().err().unwrap(), SubmitError::NotConfigured);

    let empty_url = Config { url: Some("".to_string()), access_token: Some("tok".to_string()) };
    assert_eq!(empty_url.ensure_non_empty().err().unwrap(), SubmitError::NotConfigured);

    let nothing = Config { url: None, access_token: None };
    assert_eq!(nothing.ensure_non_empty().err().unwrap(), SubmitError::NotConfigured);
}

#[test]
fn error_messages_render() {
    assert_eq!(SubmitError::NoFiles.message(), "Must submit at least one file");
    assert_eq!(
        SubmitError::BadStatus { status: 503 }.message(),
        "request failed with status 503"
    );
    assert_eq!(
        SubmitError::FileMissing { index: 2 }.message(),
        "missing local file at position 2"
    );
    assert_eq!(
        SubmitError::FinalizeFailed { status: 400 }.message(),
        "submission failed with status 400"
    );
}
