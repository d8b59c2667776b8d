use canvas_cli::aggregate::Assignment;
use canvas_cli::errors::SubmitError;
use canvas_cli::select::{
    assignments_for_course, courses_of, filter_assignments, label_matches,
    render_assignment_label, select_assignment_by_id, select_course_by_id, sort_assignments,
    sort_courses,
};
use canvas_cli::Course;

fn course(id: u32, name: &str, is_favorite: bool, created_at: i64) -> Course {
    Course {
        id,
        name: name.to_string(),
        is_favorite,
        css_color: "#000000".to_string(),
        created_at,
    }
}

fn assignment(id: u32, name: &str, due_at: Option<i64>, submitted: bool, course_id: u32) -> Assignment {
    Assignment { id, name: name.to_string(), due_at, submitted, course: course(course_id, "C", false, 0) }
}

#[test]
fn courses_sort_favorites_first_then_creation_time() {
    let mut v = vec![
        course(1, "d", false, 10),
        course(2, "c", true, 30),
        course(3, "b", false, 5),
        course(4, "a", true, 20),
    ];
    sort_courses(&mut v);
    let ids: Vec<u32> = v.iter().map(|c| c.id).collect();
    assert_eq!(ids, vec![4, 2, 3, 1]);
}

#[test]
fn courses_sort_empty_and_single() {
    let mut v: Vec<Course> = vec![];
    sort_courses(&mut v);
    assert_eq!(v.len(), 0);
    let mut v = vec![course(9, "x", false, 1)];
    sort_courses(&mut v);
    assert_eq!(v[0].id, 9);
}

#[test]
fn courses_sort_is_stable_on_equal_keys() {
    // Equal favorite status and creation time: input order is kept.
    let mut v = vec![
        course(1, "a", true, 10),
        course(2, "b", false, 5),
        course(3, "c", true, 10),
        course(4, "d", false, 5),
    ];
    sort_courses(&mut v);
    let ids: Vec<u32> = v.iter().map(|c| c.id).collect();
    assert_eq!(ids, vec![1, 3, 2, 4]);
}

#[test]
fn assignments_sort_is_stable_on_equal_keys() {
    // Equal submission status and due date: input order is kept.
    let mut v = vec![
        assignment(1, "a", Some(10), false, 1),
        assignment(2, "b", None, true, 1),
        assignment(3, "c", Some(10), false, 1),
        assignment(4, "d", None, true, 1),
    ];
    sort_assignments(&mut v);
    let ids: Vec<u32> = v.iter().map(|a| a.id).collect();
    assert_eq!(ids, vec![1, 3, 2, 4]);
}

#[test]
fn assignments_sort_unsubmitted_first_then_due_date_undated_last() {
    let mut v = vec![
        assignment(1, "a", None, false, 1),
        assignment(2, "b", Some(50), true, 1),
        assignment(3, "c", Some(10), false, 1),
        assignment(4, "d", None, true, 1),
        assignment(5, "e", Some(20), false, 1),
    ];
    sort_assignments(&mut v);
    let ids: Vec<u32> = v.iter().map(|a| a.id).collect();
    assert_eq!(ids, vec![3, 5, 1, 2, 4]);
}

#[test]
fn assignment_label_marks_submitted() {
    let a = assignment(1, "Essay", None, true, 1);
    assert_eq!(render_assignment_label(&a), "Essay ✓");
    let b = assignment(2, "Quiz", None, false, 1);
    assert_eq!(render_assignment_label(&b), "Quiz");
}

#[test]
fn fuzzy_match_is_case_insensitive_subsequence() {
    assert!(label_matches("Homework 3", ""));
    assert!(label_matches("Homework 3", "hw"));
    assert!(label_matches("Homework 3", "hmwk"));
    assert!(label_matches("Homework 3", "home"));
    assert!(!label_matches("Homework 3", "xyz"));
    assert!(!label_matches("Homework 3", "wh"));
    assert!(label_matches("ab", "b"));
    assert!(!label_matches("a", "b"));
}

#[test]
fn fuzzy_match_smart_case_demands_exact_case() {
    // A query with an ASCII upper-case letter is matched case-sensitively.
    assert!(label_matches("Homework", "Home"));
    assert!(!label_matches("homework", "Home"));
}

#[test]
fn filter_is_monotonic_in_the_query() {
    // Scenario: extending the query never enlarges the candidate set.
    let cands = vec![
        assignment(1, "Homework 1", None, false, 1),
        assignment(2, "Essay", None, false, 1),
        assignment(3, "Huge exam", None, false, 1),
    ];
    let short = filter_assignments(
        cands.iter().map(|a| assignment(a.id, &a.name, a.due_at, a.submitted, 1)).collect(),
        "h",
    );
    let long = filter_assignments(cands, "hw");
    assert_eq!(short.len(), 2);
    assert_eq!(long.len(), 1);
    for a in &long {
        assert!(short.iter().any(|b| b.id == a.id));
    }
}

#[test]
fn filter_keeps_matching_labels_in_order() {
    let cands = vec![
        assignment(1, "Alpha", None, false, 1),
        assignment(2, "Beta", None, true, 1),
        assignment(3, "Gamma", None, false, 1),
    ];
    // The submitted marker is part of the rendered label, so a query can
    // select on it.
    let kept = filter_assignments(cands, "✓");
    assert_eq!(kept.len(), 1);
    assert_eq!(kept[0].id, 2);
}

#[test]
fn course_lookup_by_id_finds_first_and_reports_missing() {
    let aggregated = vec![
        assignment(1, "a", None, false, 7),
        assignment(2, "b", None, false, 8),
    ];
    let found = select_course_by_id(&aggregated, 8).expect("course 8 exists");
    assert_eq!(found.id, 8);
    let missing = select_course_by_id(&aggregated, 9);
    assert_eq!(missing.err().unwrap(), SubmitError::CourseNotFound);
}

#[test]
fn assignment_lookup_by_id_reports_missing() {
    // Scenario: a supplied assignment id that does not exist under the
    // resolved course is a fatal not-found error.
    let candidates = vec![assignment(1, "a", None, false, 7)];
    let missing = select_assignment_by_id(&candidates, 42);
    assert_eq!(missing.err().unwrap(), SubmitError::AssignmentNotFound);
    let found = select_assignment_by_id(&candidates, 1).expect("assignment 1 exists");
    assert_eq!(found.id, 1);
}

#[test]
fn courses_of_deduplicates_by_id_in_first_appearance_order() {
    let aggregated = vec![
        assignment(1, "a", None, false, 7),
        assignment(2, "b", None, false, 8),
        assignment(3, "c", None, false, 7),
    ];
    let courses = courses_of(&aggregated);
    let ids: Vec<u32> = courses.iter().map(|c| c.id).collect();
    assert_eq!(ids, vec![7, 8]);
}

#[test]
fn assignments_for_course_filters_by_course() {
    let aggregated = vec![
        assignment(1, "a", None, false, 7),
        assignment(2, "b", None, false, 8),
        assignment(3, "c", None, false, 7),
    ];
    let of7 = assignments_for_course(aggregated, 7);
    let ids: Vec<u32> = of7.iter().map(|a| a.id).collect();
    assert_eq!(ids, vec![1, 3]);
}
