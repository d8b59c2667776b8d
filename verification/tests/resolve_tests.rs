use canvas_cli::errors::SubmitError;
use canvas_cli::resolve::{parse_assignment_url, resolve_target};

#[test]
fn parses_course_and_assignment_url() {
    let p = parse_assignment_url("https://school.example.com/courses/123/assignments/456")
        .expect("canonical URL parses");
    assert_eq!(p.base_url, "https://school.example.com");
    assert_eq!(p.course_id, 123);
    assert_eq!(p.assignment_id, Some(456));
}

#[test]
fn parses_course_only_url() {
    let p = parse_assignment_url("https://school.example.com/courses/123").expect("course URL parses");
    assert_eq!(p.base_url, "https://school.example.com");
    assert_eq!(p.course_id, 123);
    assert_eq!(p.assignment_id, None);
}

#[test]
fn parses_url_with_trailing_path() {
    let p = parse_assignment_url("https://x.edu/courses/9/assignments/4/submissions")
        .expect("trailing path is allowed");
    assert_eq!(p.base_url, "https://x.edu");
    assert_eq!(p.course_id, 9);
    assert_eq!(p.assignment_id, Some(4));
}

#[test]
fn rejects_non_https_and_markerless_urls() {
    assert_eq!(
        parse_assignment_url("http://x.edu/courses/9").err().unwrap(),
        SubmitError::InvalidUrl
    );
    assert_eq!(
        parse_assignment_url("https://x.edu/course/9").err().unwrap(),
        SubmitError::InvalidUrl
    );
    assert_eq!(parse_assignment_url("").err().unwrap(), SubmitError::InvalidUrl);
    assert_eq!(
        parse_assignment_url("https:///courses/9").err().unwrap(),
        SubmitError::InvalidUrl
    );
}

#[test]
fn accepts_the_largest_identifier() {
    let p = parse_assignment_url("https://x.edu/courses/4294967295").expect("fits a 32-bit id");
    assert_eq!(p.course_id, u32::MAX);
}

#[test]
fn rejects_identifiers_beyond_range() {
    assert_eq!(
        parse_assignment_url("https://x.edu/courses/4294967296").err().unwrap(),
        SubmitError::InvalidUrl
    );
    assert_eq!(
        parse_assignment_url("https://x.edu/courses/99999999999").err().unwrap(),
        SubmitError::InvalidUrl
    );
    assert_eq!(
        parse_assignment_url("https://x.edu/courses/1/assignments/99999999999")
            .err()
            .unwrap(),
        SubmitError::InvalidUrl
    );
}

#[test]
fn explicit_assignment_id_wins_over_parsed_url() {
    // Scenario: an explicit assignment id and a parseable assignment URL with
    // a different id; the explicit id wins.
    let t = resolve_target(
        "https://cfg.example.com".to_string(),
        None,
        Some(111),
        None,
        Some("https://x.edu/courses/9/assignments/222".to_string()),
        None,
        None,
    )
    .expect("URL parses");
    assert_eq!(t.assignment_id, Some(111));
    assert_eq!(t.course_id, Some(9));
    assert_eq!(t.base_url, "https://x.edu");
}

#[test]
fn environment_override_wins_over_parsed_url_but_loses_to_explicit() {
    let t = resolve_target(
        "https://cfg.example.com".to_string(),
        Some(1),
        None,
        None,
        Some("https://x.edu/courses/9/assignments/222".to_string()),
        Some(2),
        Some(333),
    )
    .expect("URL parses");
    assert_eq!(t.course_id, Some(1));
    assert_eq!(t.assignment_id, Some(333));
}

#[test]
fn environment_url_wins_over_command_line_url() {
    let t = resolve_target(
        "https://cfg.example.com".to_string(),
        None,
        None,
        Some("https://env.edu/courses/5".to_string()),
        Some("https://cli.edu/courses/6".to_string()),
        None,
        None,
    )
    .expect("URL parses");
    assert_eq!(t.base_url, "https://env.edu");
    assert_eq!(t.course_id, Some(5));
}

#[test]
fn without_url_the_configured_base_stands() {
    let t = resolve_target(
        "https://cfg.example.com".to_string(),
        None,
        None,
        None,
        None,
        None,
        None,
    )
    .expect("nothing to parse");
    assert_eq!(t.base_url, "https://cfg.example.com");
    assert_eq!(t.course_id, None);
    assert_eq!(t.assignment_id, None);
}

#[test]
fn unparseable_supplied_url_is_fatal() {
    let r = resolve_target(
        "https://cfg.example.com".to_string(),
        Some(1),
        Some(2),
        None,
        Some("not a url".to_string()),
        None,
        None,
    );
    assert_eq!(r.err().unwrap(), SubmitError::InvalidUrl);
}
