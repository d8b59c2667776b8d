//! Resolution of the submission target: parsing a canonical assignment URL
//! of the fixed shape `https://{host}/courses/{courseId}[/assignments/{assignmentId}]`
//! and combining it with explicit identifiers and environment-style
//! overrides under the precedence: explicit flag, then environment override,
//! then parsed URL, then interactive selection.
use vstd::prelude::*;
use vstd::string::StrSliceExecFns;
use crate::errors::SubmitError;

verus! {

/// Decimal digit.
pub open spec fn is_digit(c: char) -> bool {
    48 <= c as int && c as int <= 57
}

/// The numeric value of one digit character.
pub open spec fn digit_val(c: char) -> int {
    c as int - 48
}

/// The numeric value of a digit string, most significant digit first.
pub open spec fn digits_value(s: Seq<char>) -> int
    decreases s.len(),
{
    if s.len() == 0 {
        0
    } else {
        digits_value(s.drop_last()) * 10 + digit_val(s.last())
    }
}

/// Whether every character of a range of `s` is a digit.
pub open spec fn all_digits_in(s: Seq<char>, from: int, to: int) -> bool {
    forall|k: int| from <= k < to ==> is_digit(#[trigger] s[k])
}

/// The scheme prefix the URL pattern demands.
pub open spec fn https_prefix() -> Seq<char> {
    "https://"@
}

/// The course marker of the URL pattern.
pub open spec fn course_marker() -> Seq<char> {
    "/courses/"@
}

/// The assignment marker of the URL pattern.
pub open spec fn assignment_marker() -> Seq<char> {
    "/assignments/"@
}

/// Whether the course marker stands at position `i` with at least one digit
/// after it and a non-empty host part before it.
pub open spec fn marker_at(s: Seq<char>, i: int) -> bool {
    &&& 9 <= i
    &&& i + 9 < s.len()
    &&& s.subrange(i, i + 9) == course_marker()
    &&& is_digit(s[i + 9])
}

/// The last course-marker position at or below `i`, mirroring the greedy
/// host match of the original pattern.
pub open spec fn last_marker_before(s: Seq<char>, i: int) -> Option<int>
    decreases i + 9,
{
    if i < 9 {
        None
    } else if marker_at(s, i) {
        Some(i)
    } else {
        last_marker_before(s, i - 1)
    }
}

/// The course-marker position the parse uses.
pub open spec fn url_marker(s: Seq<char>) -> Option<int> {
    last_marker_before(s, s.len() - 1)
}

/// The end of the maximal digit run starting at `i`.
pub open spec fn digit_run_end(s: Seq<char>, i: int) -> int
    decreases s.len() - i,
{
    if 0 <= i < s.len() && is_digit(s[i]) {
        digit_run_end(s, i + 1)
    } else {
        i
    }
}

/// The end of the course-id digit run for a marker at `m`.
pub open spec fn course_digits_end(s: Seq<char>, m: int) -> int {
    digit_run_end(s, m + 9)
}

/// Whether the optional assignment part follows the course digits ending at
/// `ce`: the assignment marker with at least one digit after it.
pub open spec fn has_assignment_part(s: Seq<char>, ce: int) -> bool {
    &&& ce + 13 < s.len()
    &&& s.subrange(ce, ce + 13) == assignment_marker()
    &&& is_digit(s[ce + 13])
}

/// The end of the assignment-id digit run.
pub open spec fn assignment_digits_end(s: Seq<char>, ce: int) -> int {
    digit_run_end(s, ce + 13)
}

/// Whether a string matches the URL pattern with both numeric identifiers in
/// range: it starts with the scheme prefix, holds a course marker with a
/// non-empty host before it, and the course id (and the assignment id, when
/// the assignment part is present) fits a 32-bit identifier.
pub open spec fn url_accepted(s: Seq<char>) -> bool {
    &&& s.len() >= 8
    &&& s.subrange(0, 8) == https_prefix()
    &&& url_marker(s) is Some
    &&& {
        let m = url_marker(s)->0;
        let ce = course_digits_end(s, m);
        &&& digits_value(s.subrange(m + 9, ce)) <= u32::MAX
        &&& (has_assignment_part(s, ce) ==> digits_value(
            s.subrange(ce + 13, assignment_digits_end(s, ce)),
        ) <= u32::MAX)
    }
}

/// The outcome of parsing a canonical assignment URL: the host part as the
/// new base URL, the course id, and the assignment id when present.
pub struct ParsedUrl {
    pub base_url: String,
    pub course_id: u32,
    pub assignment_id: Option<u32>,
}

/// The digit values of a digit string are never negative.
proof fn lemma_digits_value_nonneg(s: Seq<char>)
    requires
        all_digits_in(s, 0, s.len() as int),
    ensures
        digits_value(s) >= 0,
    decreases s.len(),
{
    if s.len() > 0 {
        assert(all_digits_in(s.drop_last(), 0, s.len() - 1)) by {
            assert(forall|k: int| 0 <= k < s.len() - 1 ==> s.drop_last()[k] == s[k]);
        }
        lemma_digits_value_nonneg(s.drop_last());
    }
}

/// Extending a digit run never shrinks its value.
proof fn lemma_digits_value_extend(s: Seq<char>, a: int, b: int, c: int)
    requires
        0 <= a <= b <= c <= s.len(),
        all_digits_in(s, a, c),
    ensures
        digits_value(s.subrange(a, c)) >= digits_value(s.subrange(a, b)),
    decreases c - b,
{
    if c > b {
        lemma_digits_value_extend(s, a, b, c - 1);
        let full = s.subrange(a, c);
        assert(full.drop_last() =~= s.subrange(a, c - 1));
        assert(full.last() == s[c - 1]);
        assert(all_digits_in(s.subrange(a, c - 1), 0, c - 1 - a)) by {
            assert(forall|k: int|
                0 <= k < c - 1 - a ==> s.subrange(a, c - 1)[k] == #[trigger] s[a + k]);
        }
        lemma_digits_value_nonneg(s.subrange(a, c - 1));
    }
}

/// Decides whether one character is a decimal digit.
fn is_digit_char(c: char) -> (r: bool)
    ensures
        r == is_digit(c),
{
    let u = c as u32;
    48 <= u && u <= 57
}

/// Decides whether the course marker stands at position `i`.
fn is_marker_at(s: &str, i: usize) -> (r: bool)
    requires
        i < s@.len(),
    ensures
        r == marker_at(s@, i as int),
{
    let n = s.unicode_len();
    if i < 9 {
        return false;
    }
    if n - i < 10 {
        return false;
    }
    let seg = s.substring_char(i, i + 9).to_owned();
    let lit = "/courses/".to_owned();
    if !(seg == lit) {
        return false;
    }
    is_digit_char(s.get_char(i + 9))
}

/// Finds the last course-marker position of the string.
fn find_last_marker(s: &str) -> (r: Option<usize>)
    ensures
        r matches Some(i) ==> url_marker(s@) == Some(i as int) && marker_at(s@, i as int),
        r is None ==> url_marker(s@) is None,
{
    let n = s.unicode_len();
    if n == 0 {
        return None;
    }
    let mut i: usize = n - 1;
    while i >= 9
        invariant
            i <= n - 1,
            n == s@.len(),
            n >= 1,
            last_marker_before(s@, n as int - 1) == last_marker_before(s@, i as int),
        decreases i,
    {
        if is_marker_at(s, i) {
            return Some(i);
        }
        i -= 1;
    }
    None
}

/// The end of the maximal digit run starting at `start`.
fn digit_run_end_exec(s: &str, start: usize) -> (r: usize)
    requires
        start <= s@.len(),
    ensures
        r as int == digit_run_end(s@, start as int),
        start <= r <= s@.len(),
        all_digits_in(s@, start as int, r as int),
        r < s@.len() ==> !is_digit(s@[r as int]),
{
    let n = s.unicode_len();
    let mut i = start;
    while i < n && is_digit_char(s.get_char(i))
        invariant
            start <= i <= n,
            n == s@.len(),
            digit_run_end(s@, start as int) == digit_run_end(s@, i as int),
            all_digits_in(s@, start as int, i as int),
        decreases n - i,
    {
        i += 1;
    }
    i
}

/// Parses the numeric value of a digit run, rejecting values beyond the
/// 32-bit identifier range.
fn parse_run_value(s: &str, start: usize, end: usize) -> (r: Option<u32>)
    requires
        start <= end <= s@.len(),
        all_digits_in(s@, start as int, end as int),
    ensures
        r matches Some(v) ==> v as int == digits_value(s@.subrange(start as int, end as int)),
        r is None ==> digits_value(s@.subrange(start as int, end as int)) > u32::MAX,
{
    let mut acc: u64 = 0;
    let mut i = start;
    proof {
        assert(s@.subrange(start as int, start as int) =~= Seq::<char>::empty());
    }
    while i < end
        invariant
            start <= i <= end <= s@.len(),
            all_digits_in(s@, start as int, end as int),
            acc as int == digits_value(s@.subrange(start as int, i as int)),
            acc <= u32::MAX as u64,
        decreases end - i,
    {
        let c = s.get_char(i);
        let d = (c as u32) - 48;
        acc = acc * 10 + (d as u64);
        proof {
            let sub = s@.subrange(start as int, i as int + 1);
            assert(sub.drop_last() =~= s@.subrange(start as int, i as int));
            assert(sub.last() == s@[i as int]);
        }
        if acc > u32::MAX as u64 {
            proof {
                lemma_digits_value_extend(s@, start as int, i as int + 1, end as int);
            }
            return None;
        }
        i += 1;
    }
    Some(acc as u32)
}

/// Parses a canonical assignment URL. Accepted exactly when the string
/// matches the URL pattern with in-range identifiers; the host part before
/// the last course marker becomes the base URL; the course id and, when the
/// assignment part is present, the assignment id are the digit runs after
/// their markers. Any other string is a fatal parse error.
pub fn parse_assignment_url(s: &str) -> (r: Result<ParsedUrl, SubmitError>)
    ensures
        r is Ok <==> url_accepted(s@),
        r matches Ok(p) ==> ({
            let m = url_marker(s@)->0;
            let ce = course_digits_end(s@, m);
            &&& p.base_url@ == s@.subrange(0, m)
            &&& p.course_id as int == digits_value(s@.subrange(m + 9, ce))
            &&& (has_assignment_part(s@, ce) ==> (p.assignment_id matches Some(a) && a as int
                == digits_value(s@.subrange(ce + 13, assignment_digits_end(s@, ce)))))
            &&& (!has_assignment_part(s@, ce) ==> p.assignment_id is None)
        }),
        r is Err ==> r->Err_0 == SubmitError::InvalidUrl,
{
    let n = s.unicode_len();
    if n < 8 {
        return Err(SubmitError::InvalidUrl);
    }
    let pre = s.substring_char(0, 8).to_owned();
    let lit = "https://".to_owned();
    if !(pre == lit) {
        return Err(SubmitError::InvalidUrl);
    }
    let m = match find_last_marker(s) {
        None => {
            return Err(SubmitError::InvalidUrl);
        },
        Some(m) => m,
    };
    let ce = digit_run_end_exec(s, m + 9);
    let course_id = match parse_run_value(s, m + 9, ce) {
        None => {
            return Err(SubmitError::InvalidUrl);
        },
        Some(v) => v,
    };
    let has_assignment = n - ce >= 14 && {
        let seg = s.substring_char(ce, ce + 13).to_owned();
        let alit = "/assignments/".to_owned();
        seg == alit && is_digit_char(s.get_char(ce + 13))
    };
    proof {
        assert(has_assignment == has_assignment_part(s@, ce as int));
    }
    let assignment_id = if has_assignment {
        let ae = digit_run_end_exec(s, ce + 13);
        match parse_run_value(s, ce + 13, ae) {
            None => {
                return Err(SubmitError::InvalidUrl);
            },
            Some(v) => Some(v),
        }
    } else {
        None
    };
    let base = s.substring_char(0, m).to_owned();
    Ok(ParsedUrl { base_url: base, course_id, assignment_id })
}

/// The resolved submission target: the base URL to call, and the course and
/// assignment identifiers when anything supplied them (an absent identifier
/// falls through to interactive selection).
pub struct ResolvedTarget {
    pub base_url: String,
    pub course_id: Option<u32>,
    pub assignment_id: Option<u32>,
}

/// The URL the resolution considers: the environment override wins over the
/// one supplied on the command line.
pub open spec fn picked_url(env_url: Option<String>, cli_url: Option<String>) -> Option<String> {
    if env_url is Some {
        env_url
    } else {
        cli_url
    }
}

/// Resolves the submission target from every source, under the precedence:
/// explicit flag, then environment override, then parsed URL, then (when all
/// are absent) interactive selection. A supplied URL that does not match the
/// URL pattern is a fatal error.
pub fn resolve_target(
    cfg_base: String,
    explicit_course: Option<u32>,
    explicit_assignment: Option<u32>,
    env_url: Option<String>,
    cli_url: Option<String>,
    env_course: Option<u32>,
    env_assignment: Option<u32>,
) -> (r: Result<ResolvedTarget, SubmitError>)
    ensures
        ({
            let picked = picked_url(env_url, cli_url);
            &&& (r is Ok <==> (picked is Some ==> url_accepted(picked->0@)))
            &&& (r is Err ==> r->Err_0 == SubmitError::InvalidUrl)
            &&& (r matches Ok(t) ==> {
                let u = picked->0@;
                let m = url_marker(u)->0;
                let ce = course_digits_end(u, m);
                &&& (picked is Some ==> t.base_url@ == u.subrange(0, m))
                &&& (picked is None ==> t.base_url@ == cfg_base@)
                &&& (explicit_course is Some ==> t.course_id == explicit_course)
                &&& (explicit_course is None && env_course is Some ==> t.course_id == env_course)
                &&& (explicit_course is None && env_course is None && picked is None
                    ==> t.course_id is None)
                &&& (explicit_course is None && env_course is None && picked is Some ==> (
                t.course_id matches Some(c) && c as int == digits_value(u.subrange(m + 9, ce))))
                &&& (explicit_assignment is Some ==> t.assignment_id == explicit_assignment)
                &&& (explicit_assignment is None && env_assignment is Some ==> t.assignment_id
                    == env_assignment)
                &&& (explicit_assignment is None && env_assignment is None && picked is None
                    ==> t.assignment_id is None)
                &&& (explicit_assignment is None && env_assignment is None && picked is Some
                    && has_assignment_part(u, ce) ==> (t.assignment_id matches Some(a)
                    && a as int == digits_value(u.subrange(ce + 13, assignment_digits_end(u, ce)))))
                &&& (explicit_assignment is None && env_assignment is None && picked is Some
                    && !has_assignment_part(u, ce) ==> t.assignment_id is None)
            })
        }),
{
    let picked: Option<String> = match (env_url, cli_url) {
        (Some(u), _) => Some(u),
        (None, c) => c,
    };
    let (base_url, url_course, url_assignment) = match &picked {
        Some(u) => {
            match parse_assignment_url(u.as_str()) {
                Ok(p) => (p.base_url, Some(p.course_id), p.assignment_id),
                Err(e) => {
                    return Err(e);
                },
            }
        },
        None => (cfg_base, None, None),
    };
    let course_id = match (explicit_course, env_course) {
        (Some(c), _) => Some(c),
        (None, Some(c)) => Some(c),
        (None, None) => url_course,
    };
    let assignment_id = match (explicit_assignment, env_assignment) {
        (Some(a), _) => Some(a),
        (None, Some(a)) => Some(a),
        (None, None) => url_assignment,
    };
    Ok(ResolvedTarget { base_url, course_id, assignment_id })
}

} // verus!
