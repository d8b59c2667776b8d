//! Selection: ordering of course and assignment candidate lists, fuzzy
//! filtering of assignment labels, and direct lookup by explicit identifier.
use vstd::prelude::*;
use vstd::string::StrSliceExecFns;
use vstd::string::StringExecFns;
use crate::Course;
use crate::aggregate::Assignment;
use crate::errors::SubmitError;

verus! {

broadcast use vstd::seq_lib::group_to_multiset_ensures, vstd::seq_lib::to_multiset_insert;

// ---------------------------------------------------------------------------
// Ordering
// ---------------------------------------------------------------------------
/// Course order: favorites strictly before non-favorites; within equal
/// favorite status, ascending creation time. (The tie-break key is creation
/// time, not name; ties in creation time are left in place.)
pub open spec fn course_le(a: Course, b: Course) -> bool {
    if a.is_favorite != b.is_favorite {
        a.is_favorite
    } else {
        a.created_at <= b.created_at
    }
}

/// Due-date order with "no due date" after every dated assignment.
pub open spec fn due_le(x: Option<i64>, y: Option<i64>) -> bool {
    match (x, y) {
        (Some(a), Some(b)) => a <= b,
        (Some(_), None) => true,
        (None, None) => true,
        (None, Some(_)) => false,
    }
}

/// Assignment order: unsubmitted strictly before submitted; within equal
/// submission status, ascending due date with undated assignments last.
pub open spec fn assignment_le(a: Assignment, b: Assignment) -> bool {
    if a.submitted != b.submitted {
        !a.submitted
    } else {
        due_le(a.due_at, b.due_at)
    }
}

fn course_le_exec(a: &Course, b: &Course) -> (r: bool)
    ensures
        r == course_le(*a, *b),
{
    if a.is_favorite != b.is_favorite {
        a.is_favorite
    } else {
        a.created_at <= b.created_at
    }
}

fn assignment_le_exec(a: &Assignment, b: &Assignment) -> (r: bool)
    ensures
        r == assignment_le(*a, *b),
{
    if a.submitted != b.submitted {
        !a.submitted
    } else {
        match (a.due_at, b.due_at) {
            (Some(x), Some(y)) => x <= y,
            (Some(_), None) => true,
            (None, None) => true,
            (None, Some(_)) => false,
        }
    }
}

/// Whether a course carries one value of the course-order key (favorite
/// flag and creation time).
pub open spec fn course_key_matches(c: Course, fav: bool, t: i64) -> bool {
    c.is_favorite == fav && c.created_at == t
}

/// The subsequence of courses carrying one order key, in place order.
pub open spec fn courses_with_key(s: Seq<Course>, fav: bool, t: i64) -> Seq<Course>
    decreases s.len(),
{
    if s.len() == 0 {
        Seq::empty()
    } else {
        let rest = courses_with_key(s.drop_last(), fav, t);
        if course_key_matches(s.last(), fav, t) {
            rest.push(s.last())
        } else {
            rest
        }
    }
}

proof fn lemma_courses_with_key_add(a: Seq<Course>, b: Seq<Course>, fav: bool, t: i64)
    ensures
        courses_with_key(a + b, fav, t) == courses_with_key(a, fav, t) + courses_with_key(
            b,
            fav,
            t,
        ),
    decreases b.len(),
{
    if b.len() == 0 {
        assert(a + b =~= a);
        assert(courses_with_key(a, fav, t) + courses_with_key(b, fav, t) =~= courses_with_key(
            a,
            fav,
            t,
        ));
    } else {
        lemma_courses_with_key_add(a, b.drop_last(), fav, t);
        assert((a + b).drop_last() =~= a + b.drop_last());
        assert((a + b).last() == b.last());
        assert(courses_with_key(a + b, fav, t) =~= courses_with_key(a, fav, t)
            + courses_with_key(b, fav, t));
    }
}

proof fn lemma_courses_with_key_absent(s: Seq<Course>, fav: bool, t: i64)
    requires
        forall|k: int| 0 <= k < s.len() ==> !course_key_matches(#[trigger] s[k], fav, t),
    ensures
        courses_with_key(s, fav, t) == Seq::<Course>::empty(),
    decreases s.len(),
{
    if s.len() > 0 {
        assert(forall|k: int| 0 <= k < s.len() - 1 ==> s.drop_last()[k] == s[k]);
        lemma_courses_with_key_absent(s.drop_last(), fav, t);
        assert(!course_key_matches(s[s.len() - 1], fav, t));
    }
}

/// Whether an assignment carries one value of the assignment-order key
/// (submission status and due date).
pub open spec fn assignment_key_matches(a: Assignment, sub: bool, due: Option<i64>) -> bool {
    a.submitted == sub && a.due_at == due
}

/// The subsequence of assignments carrying one order key, in place order.
pub open spec fn assignments_with_key(s: Seq<Assignment>, sub: bool, due: Option<i64>) -> Seq<
    Assignment,
>
    decreases s.len(),
{
    if s.len() == 0 {
        Seq::empty()
    } else {
        let rest = assignments_with_key(s.drop_last(), sub, due);
        if assignment_key_matches(s.last(), sub, due) {
            rest.push(s.last())
        } else {
            rest
        }
    }
}

proof fn lemma_assignments_with_key_add(a: Seq<Assignment>, b: Seq<Assignment>, sub: bool, due: Option<i64>)
    ensures
        assignments_with_key(a + b, sub, due) == assignments_with_key(a, sub, due)
            + assignments_with_key(b, sub, due),
    decreases b.len(),
{
    if b.len() == 0 {
        assert(a + b =~= a);
        assert(assignments_with_key(a, sub, due) + assignments_with_key(b, sub, due)
            =~= assignments_with_key(a, sub, due));
    } else {
        lemma_assignments_with_key_add(a, b.drop_last(), sub, due);
        assert((a + b).drop_last() =~= a + b.drop_last());
        assert((a + b).last() == b.last());
        assert(assignments_with_key(a + b, sub, due) =~= assignments_with_key(a, sub, due)
            + assignments_with_key(b, sub, due));
    }
}

proof fn lemma_assignments_with_key_absent(s: Seq<Assignment>, sub: bool, due: Option<i64>)
    requires
        forall|k: int| 0 <= k < s.len() ==> !assignment_key_matches(#[trigger] s[k], sub, due),
    ensures
        assignments_with_key(s, sub, due) == Seq::<Assignment>::empty(),
    decreases s.len(),
{
    if s.len() > 0 {
        assert(forall|k: int| 0 <= k < s.len() - 1 ==> s.drop_last()[k] == s[k]);
        lemma_assignments_with_key_absent(s.drop_last(), sub, due);
        assert(!assignment_key_matches(s[s.len() - 1], sub, due));
    }
}

/// Sorts the course candidate list: favorites first, then ascending creation
/// time. The result holds exactly the input courses, and the sort is stable:
/// for every key value, the subsequence of courses with that key equals the
/// input's subsequence of them.
pub fn sort_courses(v: &mut Vec<Course>)
    ensures
        final(v)@.to_multiset() == old(v)@.to_multiset(),
        final(v)@.len() == old(v)@.len(),
        forall|p: int, q: int|
            0 <= p < q < final(v)@.len() ==> course_le(final(v)@[p], final(v)@[q]),
        forall|fav: bool, t: i64|
            #[trigger] courses_with_key(final(v)@, fav, t) == courses_with_key(old(v)@, fav, t),
{
    let mut i: usize = 1;
    while i < v.len()
        invariant
            i >= 1,
            v@.to_multiset() == old(v)@.to_multiset(),
            v@.len() == old(v)@.len(),
            forall|p: int, q: int| 0 <= p < q < i && q < v@.len() ==> course_le(v@[p], v@[q]),
            forall|fav: bool, t: i64|
                #[trigger] courses_with_key(v@, fav, t) == courses_with_key(old(v)@, fav, t),
        decreases v@.len() - i,
    {
        let ghost before = v@;
        let x = v.remove(i);
        let ghost mid = v@;
        proof {
            assert(forall|k: int| 0 <= k < i ==> mid[k] == before[k]);
        }
        let mut j: usize = 0;
        while j < i && course_le_exec(&v[j], &x)
            invariant
                j <= i,
                i < before.len(),
                v@ == mid,
                mid == before.remove(i as int),
                x == before[i as int],
                forall|k: int| 0 <= k < j ==> course_le(mid[k], x),
            decreases i - j,
        {
            j += 1;
        }
        proof {
            if j < i {
                assert(!course_le(mid[j as int], x));
                assert(course_le(x, mid[j as int]));
            }
        }
        v.insert(j, x);
        proof {
            let after = v@;
            assert(after == mid.insert(j as int, x));
            assert(after.to_multiset() == mid.to_multiset().insert(x));
            assert(mid.to_multiset() == before.to_multiset().remove(x));
            assert(before.to_multiset().count(x) > 0);
            assert(after.to_multiset() =~= before.to_multiset());
            assert forall|p: int, q: int|
                0 <= p < q < i + 1 && q < after.len() implies course_le(after[p], after[q]) by {
                if q < j {
                    assert(after[p] == mid[p] && after[q] == mid[q]);
                } else if p < j && q == j {
                    assert(after[p] == mid[p] && after[q] == x);
                } else if p < j && q > j {
                    assert(after[p] == mid[p] && after[q] == mid[q - 1]);
                } else if p == j {
                    assert(after[p] == x);
                    if q > j {
                        assert(after[q] == mid[q - 1]);
                        if j < i {
                            assert(course_le(x, mid[j as int]));
                            if q - 1 > j {
                                assert(course_le(mid[j as int], mid[q - 1]));
                            }
                        }
                    }
                } else {
                    assert(after[p] == mid[p - 1] && after[q] == mid[q - 1]);
                }
            }
            assert forall|fav: bool, t: i64|
                #[trigger] courses_with_key(after, fav, t) == courses_with_key(
                before,
                fav,
                t,
            ) by {
                assert(seq![x].drop_last() =~= Seq::<Course>::empty());
                assert(after =~= mid.take(j as int) + (seq![x] + mid.skip(j as int)));
                lemma_courses_with_key_add(mid.take(j as int), seq![x] + mid.skip(j as int), fav, t);
                lemma_courses_with_key_add(seq![x], mid.skip(j as int), fav, t);
                assert(mid.skip(j as int) =~= mid.subrange(j as int, i as int) + before.skip(
                    i as int + 1,
                ));
                lemma_courses_with_key_add(
                    mid.subrange(j as int, i as int),
                    before.skip(i as int + 1),
                    fav,
                    t,
                );
                assert(before =~= before.take(i as int) + (seq![x] + before.skip(i as int + 1)));
                lemma_courses_with_key_add(
                    before.take(i as int),
                    seq![x] + before.skip(i as int + 1),
                    fav,
                    t,
                );
                lemma_courses_with_key_add(seq![x], before.skip(i as int + 1), fav, t);
                assert(before.take(i as int) =~= mid.take(j as int) + mid.subrange(
                    j as int,
                    i as int,
                ));
                lemma_courses_with_key_add(
                    mid.take(j as int),
                    mid.subrange(j as int, i as int),
                    fav,
                    t,
                );
                let wtj = courses_with_key(mid.take(j as int), fav, t);
                let wx = courses_with_key(seq![x], fav, t);
                let wsub = courses_with_key(mid.subrange(j as int, i as int), fav, t);
                let wtail = courses_with_key(before.skip(i as int + 1), fav, t);
                assert(courses_with_key(after, fav, t) == wtj + (wx + (wsub + wtail)));
                assert(courses_with_key(before, fav, t) == (wtj + wsub) + (wx + wtail));
                if course_key_matches(x, fav, t) {
                    assert forall|k: int|
                        0 <= k < mid.subrange(j as int, i as int).len() implies !course_key_matches(
                        #[trigger] mid.subrange(j as int, i as int)[k],
                        fav,
                        t,
                    ) by {
                        let e = mid[j + k];
                        assert(mid.subrange(j as int, i as int)[k] == e);
                        if course_key_matches(e, fav, t) {
                            assert(course_le(e, x));
                            assert(!course_le(mid[j as int], x));
                            if k > 0 {
                                assert(course_le(mid[j as int], e));
                            }
                            assert(false);
                        }
                    }
                    lemma_courses_with_key_absent(mid.subrange(j as int, i as int), fav, t);
                    assert(wsub =~= Seq::<Course>::empty());
                    assert(wtj + (wx + (wsub + wtail)) =~= (wtj + wsub) + (wx + wtail));
                } else {
                    assert(seq![x].last() == x);
                    assert(courses_with_key(Seq::<Course>::empty(), fav, t)
                        == Seq::<Course>::empty());
                    assert(wx =~= Seq::<Course>::empty());
                    assert(wtj + (wx + (wsub + wtail)) =~= (wtj + wsub) + (wx + wtail));
                }
                assert(courses_with_key(after, fav, t) =~= courses_with_key(before, fav, t));
            }
        }
        i += 1;
    }
}

/// Sorts the assignment candidate list: unsubmitted first, then ascending
/// due date with undated assignments last. The result holds exactly the
/// input assignments, and the sort is stable: for every key value, the
/// subsequence of assignments with that key equals the input's subsequence
/// of them.
pub fn sort_assignments(v: &mut Vec<Assignment>)
    ensures
        final(v)@.to_multiset() == old(v)@.to_multiset(),
        final(v)@.len() == old(v)@.len(),
        forall|p: int, q: int|
            0 <= p < q < final(v)@.len() ==> assignment_le(final(v)@[p], final(v)@[q]),
        forall|sub: bool, due: Option<i64>|
            #[trigger] assignments_with_key(final(v)@, sub, due) == assignments_with_key(
                old(v)@,
                sub,
                due,
            ),
{
    let mut i: usize = 1;
    while i < v.len()
        invariant
            i >= 1,
            v@.to_multiset() == old(v)@.to_multiset(),
            v@.len() == old(v)@.len(),
            forall|p: int, q: int| 0 <= p < q < i && q < v@.len() ==> assignment_le(v@[p], v@[q]),
            forall|sub: bool, due: Option<i64>|
                #[trigger] assignments_with_key(v@, sub, due) == assignments_with_key(
                    old(v)@,
                    sub,
                    due,
                ),
        decreases v@.len() - i,
    {
        let ghost before = v@;
        let x = v.remove(i);
        let ghost mid = v@;
        proof {
            assert(forall|k: int| 0 <= k < i ==> mid[k] == before[k]);
        }
        let mut j: usize = 0;
        while j < i && assignment_le_exec(&v[j], &x)
            invariant
                j <= i,
                i < before.len(),
                v@ == mid,
                mid == before.remove(i as int),
                x == before[i as int],
                forall|k: int| 0 <= k < j ==> assignment_le(mid[k], x),
            decreases i - j,
        {
            j += 1;
        }
        proof {
            if j < i {
                assert(!assignment_le(mid[j as int], x));
                assert(assignment_le(x, mid[j as int]));
            }
        }
        v.insert(j, x);
        proof {
            let after = v@;
            assert(after.to_multiset() == mid.to_multiset().insert(x));
            assert(mid.to_multiset() == before.to_multiset().remove(x));
            assert(before.to_multiset().count(x) > 0);
            assert(after.to_multiset() =~= before.to_multiset());
            assert forall|p: int, q: int|
                0 <= p < q < i + 1 && q < after.len() implies assignment_le(after[p], after[q]) by {
                if q < j {
                    assert(after[p] == mid[p] && after[q] == mid[q]);
                } else if p < j && q == j {
                    assert(after[p] == mid[p] && after[q] == x);
                } else if p < j && q > j {
                    assert(after[p] == mid[p] && after[q] == mid[q - 1]);
                } else if p == j {
                    assert(after[p] == x);
                    if q > j {
                        assert(after[q] == mid[q - 1]);
                        if j < i {
                            assert(assignment_le(x, mid[j as int]));
                            if q - 1 > j {
                                assert(assignment_le(mid[j as int], mid[q - 1]));
                            }
                        }
                    }
                } else {
                    assert(after[p] == mid[p - 1] && after[q] == mid[q - 1]);
                }
            }
            assert forall|sub: bool, due: Option<i64>|
                #[trigger] assignments_with_key(after, sub, due) == assignments_with_key(
                before,
                sub,
                due,
            ) by {
                assert(seq![x].drop_last() =~= Seq::<Assignment>::empty());
                assert(after =~= mid.take(j as int) + (seq![x] + mid.skip(j as int)));
                lemma_assignments_with_key_add(
                    mid.take(j as int),
                    seq![x] + mid.skip(j as int),
                    sub,
                    due,
                );
                lemma_assignments_with_key_add(seq![x], mid.skip(j as int), sub, due);
                assert(mid.skip(j as int) =~= mid.subrange(j as int, i as int) + before.skip(
                    i as int + 1,
                ));
                lemma_assignments_with_key_add(
                    mid.subrange(j as int, i as int),
                    before.skip(i as int + 1),
                    sub,
                    due,
                );
                assert(before =~= before.take(i as int) + (seq![x] + before.skip(i as int + 1)));
                lemma_assignments_with_key_add(
                    before.take(i as int),
                    seq![x] + before.skip(i as int + 1),
                    sub,
                    due,
                );
                lemma_assignments_with_key_add(seq![x], before.skip(i as int + 1), sub, due);
                assert(before.take(i as int) =~= mid.take(j as int) + mid.subrange(
                    j as int,
                    i as int,
                ));
                lemma_assignments_with_key_add(
                    mid.take(j as int),
                    mid.subrange(j as int, i as int),
                    sub,
                    due,
                );
                let wtj = assignments_with_key(mid.take(j as int), sub, due);
                let wx = assignments_with_key(seq![x], sub, due);
                let wsub = assignments_with_key(mid.subrange(j as int, i as int), sub, due);
                let wtail = assignments_with_key(before.skip(i as int + 1), sub, due);
                assert(assignments_with_key(after, sub, due) == wtj + (wx + (wsub + wtail)));
                assert(assignments_with_key(before, sub, due) == (wtj + wsub) + (wx + wtail));
                if assignment_key_matches(x, sub, due) {
                    assert forall|k: int|
                        0 <= k < mid.subrange(j as int, i as int).len()
                        implies !assignment_key_matches(
                        #[trigger] mid.subrange(j as int, i as int)[k],
                        sub,
                        due,
                    ) by {
                        let e = mid[j + k];
                        assert(mid.subrange(j as int, i as int)[k] == e);
                        if assignment_key_matches(e, sub, due) {
                            assert(assignment_le(e, x));
                            assert(!assignment_le(mid[j as int], x));
                            if k > 0 {
                                assert(assignment_le(mid[j as int], e));
                            }
                            assert(false);
                        }
                    }
                    lemma_assignments_with_key_absent(mid.subrange(j as int, i as int), sub, due);
                    assert(wsub =~= Seq::<Assignment>::empty());
                    assert(wtj + (wx + (wsub + wtail)) =~= (wtj + wsub) + (wx + wtail));
                } else {
                    assert(seq![x].last() == x);
                    assert(assignments_with_key(Seq::<Assignment>::empty(), sub, due)
                        == Seq::<Assignment>::empty());
                    assert(wx =~= Seq::<Assignment>::empty());
                    assert(wtj + (wx + (wsub + wtail)) =~= (wtj + wsub) + (wx + wtail));
                }
                assert(assignments_with_key(after, sub, due) =~= assignments_with_key(
                    before,
                    sub,
                    due,
                ));
            }
        }
        i += 1;
    }
}

/// Law: in a list sorted by the course order, every favorite stands strictly
/// before every non-favorite, and within equal favorite status creation
/// times ascend.
pub proof fn lemma_courses_favorites_first(s: Seq<Course>)
    requires
        forall|p: int, q: int| 0 <= p < q < s.len() ==> course_le(#[trigger] s[p], #[trigger] s[q]),
    ensures
        forall|p: int, q: int|
            0 <= p < q < s.len() ==> !(!(#[trigger] s[p]).is_favorite && (#[trigger] s[q]).is_favorite),
        forall|p: int, q: int|
            0 <= p < q < s.len() && (#[trigger] s[p]).is_favorite == (#[trigger] s[q]).is_favorite
                ==> s[p].created_at <= s[q].created_at,
{
}

/// Law: in a list sorted by the assignment order, every unsubmitted
/// assignment stands strictly before every submitted one, and within equal
/// submission status due dates ascend with undated assignments last.
pub proof fn lemma_assignments_unsubmitted_first(s: Seq<Assignment>)
    requires
        forall|p: int, q: int|
            0 <= p < q < s.len() ==> assignment_le(#[trigger] s[p], #[trigger] s[q]),
    ensures
        forall|p: int, q: int|
            0 <= p < q < s.len() ==> !((#[trigger] s[p]).submitted && !(#[trigger] s[q]).submitted),
        forall|p: int, q: int|
            0 <= p < q < s.len() && (#[trigger] s[p]).submitted == (#[trigger] s[q]).submitted
                ==> due_le(s[p].due_at, s[q].due_at),
{
}

// ---------------------------------------------------------------------------
// Fuzzy filtering
// ---------------------------------------------------------------------------
/// ASCII-case-insensitive character code: upper-case ASCII letters folded to
/// lower case, every other character unchanged.
pub open spec fn ascii_folded(c: char) -> int {
    if 65 <= c as int && c as int <= 90 {
        c as int + 32
    } else {
        c as int
    }
}

/// Character equality as the matcher compares: exact when case-sensitive,
/// ASCII-case-insensitive otherwise.
pub open spec fn chars_equal(c: char, p: char, case_sensitive: bool) -> bool {
    if case_sensitive {
        c == p
    } else {
        ascii_folded(c) == ascii_folded(p)
    }
}

/// Whether the pattern is an order-preserving subsequence of the choice,
/// character by character under `chars_equal`.
pub open spec fn matches_subsequence(pattern: Seq<char>, choice: Seq<char>, cs: bool) -> bool
    decreases choice.len(),
{
    if pattern.len() == 0 {
        true
    } else if choice.len() == 0 {
        false
    } else {
        ||| (chars_equal(choice.first(), pattern.first(), cs) && matches_subsequence(
            pattern.drop_first(),
            choice.drop_first(),
            cs,
        ))
        ||| matches_subsequence(pattern, choice.drop_first(), cs)
    }
}

/// Whether a pattern holds an ASCII upper-case letter (the matcher's
/// smart-case trigger: such a pattern is matched case-sensitively).
pub open spec fn has_ascii_upper(p: Seq<char>) -> bool {
    exists|i: int| 0 <= i < p.len() && 65 <= #[trigger] p[i] as int <= 90
}

/// The matcher's acceptance condition: an empty query matches everything;
/// otherwise the query must be a subsequence of the choice, compared
/// case-sensitively exactly when the query holds an ASCII upper-case letter.
pub open spec fn fuzzy_accepts(choice: Seq<char>, pattern: Seq<char>) -> bool {
    pattern.len() == 0 || matches_subsequence(pattern, choice, has_ascii_upper(pattern))
}

/// The guard under which matching is attempted; far beyond any real label or
/// query, it keeps the matcher's internal scores within range.
pub open spec fn within_match_limit(s: Seq<char>) -> bool {
    s.len() <= 1000000
}

/// Relies on fuzzy_matcher's `SkimMatcherV2` in its default (smart-case)
/// configuration: `fuzzy_match` returns a score exactly when the pattern is
/// empty or a subsequence of the choice, compared ASCII-case-insensitively
/// unless the pattern holds an ASCII upper-case letter. (The matcher decides
/// acceptance by a greedy left-to-right scan, which succeeds exactly when
/// some order-preserving embedding of the pattern exists.) The result
/// depends on the two strings alone.
#[verifier::external_body]
fn fuzzy_match_exec(choice: &str, pattern: &str) -> (r: bool)
    requires
        within_match_limit(choice@),
        within_match_limit(pattern@),
    ensures
        r == fuzzy_accepts(choice@, pattern@),
{
    let matcher = fuzzy_matcher::skim::SkimMatcherV2::default();
    fuzzy_matcher::FuzzyMatcher::fuzzy_match(&matcher, choice, pattern).is_some()
}

/// Whether a rendered label matches a query: both within the match limit and
/// accepted by the fuzzy matcher.
pub open spec fn label_accepts(label: Seq<char>, query: Seq<char>) -> bool {
    within_match_limit(label) && within_match_limit(query) && fuzzy_accepts(label, query)
}

/// Decides whether a rendered label matches a live filter query.
pub fn label_matches(label: &str, query: &str) -> (r: bool)
    ensures
        r == label_accepts(label@, query@),
{
    if label.unicode_len() > 1000000 || query.unicode_len() > 1000000 {
        return false;
    }
    fuzzy_match_exec(label, query)
}

/// The rendered label of an assignment in the candidate list: its name plus
/// a marker when it is already submitted.
pub open spec fn assignment_label(a: Assignment) -> Seq<char> {
    if a.submitted {
        a.name@ + " ✓"@
    } else {
        a.name@
    }
}

/// Renders an assignment's label.
pub fn render_assignment_label(a: &Assignment) -> (r: String)
    ensures
        r@ == assignment_label(*a),
{
    let mut s = a.name.clone();
    if a.submitted {
        s.append(" ✓");
    }
    s
}

/// The assignments whose rendered label matches the query, in order.
pub open spec fn filtered_assignments(s: Seq<Assignment>, query: Seq<char>) -> Seq<Assignment>
    decreases s.len(),
{
    if s.len() == 0 {
        Seq::empty()
    } else {
        let rest = filtered_assignments(s.drop_first(), query);
        if label_accepts(assignment_label(s.first()), query) {
            seq![s.first()] + rest
        } else {
            rest
        }
    }
}

/// Keeps exactly the assignments whose rendered label matches the query,
/// preserving their order.
pub fn filter_assignments(cands: Vec<Assignment>, query: &str) -> (r: Vec<Assignment>)
    ensures
        r@ == filtered_assignments(cands@, query@),
{
    let mut rest = cands;
    let ghost all = rest@;
    let mut out: Vec<Assignment> = Vec::new();
    proof {
        assert(out@ + filtered_assignments(rest@, query@) =~= filtered_assignments(all, query@));
    }
    while rest.len() > 0
        invariant
            out@ + filtered_assignments(rest@, query@) == filtered_assignments(all, query@),
        decreases rest@.len(),
    {
        let ghost pending = rest@;
        let a = rest.remove(0);
        proof {
            assert(rest@ =~= pending.drop_first());
            assert(a == pending.first());
        }
        let label = render_assignment_label(&a);
        if label_matches(label.as_str(), query) {
            out.push(a);
            proof {
                assert(out@ + filtered_assignments(rest@, query@) =~= filtered_assignments(
                    all,
                    query@,
                ));
            }
        } else {
            proof {
                assert(out@ + filtered_assignments(rest@, query@) =~= filtered_assignments(
                    all,
                    query@,
                ));
            }
        }
    }
    proof {
        assert(filtered_assignments(rest@, query@) =~= Seq::<Assignment>::empty());
        assert(out@ =~= filtered_assignments(all, query@));
    }
    out
}

/// A subsequence match of a concatenated pattern yields one of its prefix.
proof fn lemma_subsequence_prefix(p1: Seq<char>, p2: Seq<char>, c: Seq<char>, cs: bool)
    requires
        matches_subsequence(p1 + p2, c, cs),
    ensures
        matches_subsequence(p1, c, cs),
    decreases c.len(),
{
    if p1.len() == 0 {
    } else {
        let p = p1 + p2;
        assert(p.len() > 0);
        assert(c.len() > 0);
        if matches_subsequence(p, c.drop_first(), cs) {
            lemma_subsequence_prefix(p1, p2, c.drop_first(), cs);
        } else {
            assert(chars_equal(c.first(), p.first(), cs) && matches_subsequence(
                p.drop_first(),
                c.drop_first(),
                cs,
            ));
            assert(p.first() == p1.first());
            assert(p.drop_first() =~= p1.drop_first() + p2);
            lemma_subsequence_prefix(p1.drop_first(), p2, c.drop_first(), cs);
        }
    }
}

/// A case-sensitive subsequence match is also a case-insensitive one.
proof fn lemma_subsequence_weaken(p: Seq<char>, c: Seq<char>)
    requires
        matches_subsequence(p, c, true),
    ensures
        matches_subsequence(p, c, false),
    decreases c.len(),
{
    if p.len() == 0 {
    } else {
        assert(c.len() > 0);
        if matches_subsequence(p, c.drop_first(), true) {
            lemma_subsequence_weaken(p, c.drop_first());
        } else {
            assert(chars_equal(c.first(), p.first(), true) && matches_subsequence(
                p.drop_first(),
                c.drop_first(),
                true,
            ));
            lemma_subsequence_weaken(p.drop_first(), c.drop_first());
        }
    }
}

/// Law (pointwise monotonicity): a label that matches an extended query also
/// matches the original query.
pub proof fn lemma_label_accepts_monotonic(label: Seq<char>, query: Seq<char>, ext: Seq<char>)
    requires
        label_accepts(label, query + ext),
    ensures
        label_accepts(label, query),
{
    assert(within_match_limit(query));
    if query.len() == 0 {
    } else {
        let q2 = query + ext;
        let cs2 = has_ascii_upper(q2);
        assert(matches_subsequence(q2, label, cs2));
        lemma_subsequence_prefix(query, ext, label, cs2);
        let cs1 = has_ascii_upper(query);
        if cs1 {
            assert forall|i: int|
                0 <= i < query.len() && 65 <= #[trigger] query[i] as int <= 90 implies 65
                <= q2[i] as int <= 90 by {
                assert(q2[i] == query[i]);
            }
            assert(cs2);
        }
        if cs1 == cs2 {
        } else {
            lemma_subsequence_weaken(query, label);
        }
    }
}

/// Law (monotonic filtering): extending the query never enlarges the
/// candidate set — every survivor of the extended query survives the
/// original query, and the candidate set never grows.
pub proof fn lemma_filter_monotonic(cands: Seq<Assignment>, query: Seq<char>, ext: Seq<char>)
    ensures
        forall|a: Assignment|
            filtered_assignments(cands, query + ext).contains(a) ==> filtered_assignments(
                cands,
                query,
            ).contains(a),
        filtered_assignments(cands, query + ext).len() <= filtered_assignments(cands, query).len(),
    decreases cands.len(),
{
    if cands.len() == 0 {
    } else {
        let first = cands.first();
        let rest = cands.drop_first();
        lemma_filter_monotonic(rest, query, ext);
        let f_long = filtered_assignments(cands, query + ext);
        let f_short = filtered_assignments(cands, query);
        let r_long = filtered_assignments(rest, query + ext);
        let r_short = filtered_assignments(rest, query);
        if label_accepts(assignment_label(first), query + ext) {
            lemma_label_accepts_monotonic(assignment_label(first), query, ext);
            assert(f_long == seq![first] + r_long);
            assert(f_short == seq![first] + r_short);
            assert forall|a: Assignment| f_long.contains(a) implies f_short.contains(a) by {
                let i = choose|i: int| 0 <= i < f_long.len() && f_long[i] == a;
                if i == 0 {
                    assert(f_short[0] == a);
                } else {
                    assert(r_long[i - 1] == a);
                    assert(r_long.contains(a));
                    assert(r_short.contains(a));
                    let k = choose|k: int| 0 <= k < r_short.len() && r_short[k] == a;
                    assert(f_short[k + 1] == a);
                }
            }
        } else {
            assert(f_long == r_long);
            if label_accepts(assignment_label(first), query) {
                assert(f_short == seq![first] + r_short);
                assert forall|a: Assignment| f_long.contains(a) implies f_short.contains(a) by {
                    assert(r_long.contains(a));
                    assert(r_short.contains(a));
                    let k = choose|k: int| 0 <= k < r_short.len() && r_short[k] == a;
                    assert(f_short[k + 1] == a);
                }
            } else {
                assert(f_short == r_short);
            }
        }
    }
}

// ---------------------------------------------------------------------------
// Lookup by explicit identifier
// ---------------------------------------------------------------------------
/// Whether two course values agree on every field.
pub open spec fn course_eq_view(a: Course, b: Course) -> bool {
    &&& a.id == b.id
    &&& a.name@ == b.name@
    &&& a.is_favorite == b.is_favorite
    &&& a.css_color@ == b.css_color@
    &&& a.created_at == b.created_at
}

/// Whether two assignment values agree on every field.
pub open spec fn assignment_eq_view(a: Assignment, b: Assignment) -> bool {
    &&& a.id == b.id
    &&& a.name@ == b.name@
    &&& a.due_at == b.due_at
    &&& a.submitted == b.submitted
    &&& course_eq_view(a.course, b.course)
}

/// The course of the first assignment belonging to the given course id.
pub open spec fn lookup_course(s: Seq<Assignment>, id: u32) -> Option<Course>
    decreases s.len(),
{
    if s.len() == 0 {
        None
    } else if s.first().course.id == id {
        Some(s.first().course)
    } else {
        lookup_course(s.drop_first(), id)
    }
}

/// The first assignment with the given id.
pub open spec fn lookup_assignment(s: Seq<Assignment>, id: u32) -> Option<Assignment>
    decreases s.len(),
{
    if s.len() == 0 {
        None
    } else if s.first().id == id {
        Some(s.first())
    } else {
        lookup_assignment(s.drop_first(), id)
    }
}

/// Direct course lookup for an explicitly supplied course id: the resolved
/// course of the first aggregated assignment under that course, or a fatal
/// not-found error when no aggregated assignment belongs to it.
pub fn select_course_by_id(aggregated: &Vec<Assignment>, id: u32) -> (r: Result<
    Course,
    SubmitError,
>)
    ensures
        r is Ok <==> lookup_course(aggregated@, id) is Some,
        r matches Ok(c) ==> course_eq_view(c, lookup_course(aggregated@, id)->0),
        r is Err ==> r->Err_0 == SubmitError::CourseNotFound,
{
    proof {
        assert(aggregated@.skip(0) =~= aggregated@);
    }
    let mut i: usize = 0;
    while i < aggregated.len()
        invariant
            0 <= i <= aggregated@.len(),
            lookup_course(aggregated@.skip(i as int), id) == lookup_course(aggregated@, id),
        decreases aggregated@.len() - i,
    {
        proof {
            assert(aggregated@.skip(i as int).drop_first() =~= aggregated@.skip(i as int + 1));
            assert(aggregated@.skip(i as int).first() == aggregated@[i as int]);
        }
        if aggregated[i].course.id == id {
            return Ok(aggregated[i].course.duplicate());
        }
        i += 1;
    }
    proof {
        assert(aggregated@.skip(aggregated@.len() as int) =~= Seq::<Assignment>::empty());
    }
    Err(SubmitError::CourseNotFound)
}

/// Direct assignment lookup for an explicitly supplied assignment id over
/// the candidates of the resolved course: the first assignment with that id,
/// or a fatal not-found error when the id does not exist under the course.
pub fn select_assignment_by_id(candidates: &Vec<Assignment>, id: u32) -> (r: Result<
    Assignment,
    SubmitError,
>)
    ensures
        r is Ok <==> lookup_assignment(candidates@, id) is Some,
        r matches Ok(a) ==> assignment_eq_view(a, lookup_assignment(candidates@, id)->0),
        r is Err ==> r->Err_0 == SubmitError::AssignmentNotFound,
{
    proof {
        assert(candidates@.skip(0) =~= candidates@);
    }
    let mut i: usize = 0;
    while i < candidates.len()
        invariant
            0 <= i <= candidates@.len(),
            lookup_assignment(candidates@.skip(i as int), id) == lookup_assignment(
                candidates@,
                id,
            ),
        decreases candidates@.len() - i,
    {
        proof {
            assert(candidates@.skip(i as int).drop_first() =~= candidates@.skip(i as int + 1));
            assert(candidates@.skip(i as int).first() == candidates@[i as int]);
        }
        if candidates[i].id == id {
            return Ok(candidates[i].duplicate());
        }
        i += 1;
    }
    proof {
        assert(candidates@.skip(candidates@.len() as int) =~= Seq::<Assignment>::empty());
    }
    Err(SubmitError::AssignmentNotFound)
}

/// The distinct course ids of a flat assignment sequence, by first
/// occurrence.
pub open spec fn seen_course(s: Seq<Course>, id: u32) -> bool {
    exists|k: int| 0 <= k < s.len() && (#[trigger] s[k]).id == id
}

/// Whether a course value agrees with the resolved course of some aggregated
/// assignment.
pub open spec fn from_aggregated(c: Course, aggregated: Seq<Assignment>) -> bool {
    exists|i: int| 0 <= i < aggregated.len() && course_eq_view(c, (#[trigger] aggregated[i]).course)
}

/// Collects the distinct courses of the aggregated view: one entry per
/// course id, each the resolved course of some aggregated assignment, and no
/// aggregated course id missing. (The caller sorts the result before showing
/// it, so this contract promises no order.)
pub fn courses_of(aggregated: &Vec<Assignment>) -> (r: Vec<Course>)
    ensures
        forall|k: int, l: int| 0 <= k < l < r@.len() ==> r@[k].id != r@[l].id,
        forall|k: int| 0 <= k < r@.len() ==> from_aggregated(#[trigger] r@[k], aggregated@),
        forall|i: int|
            0 <= i < aggregated@.len() ==> seen_course(r@, (#[trigger] aggregated@[i]).course.id),
{
    let mut r: Vec<Course> = Vec::new();
    let mut i: usize = 0;
    while i < aggregated.len()
        invariant
            0 <= i <= aggregated@.len(),
            forall|k: int, l: int| 0 <= k < l < r@.len() ==> r@[k].id != r@[l].id,
            forall|k: int| 0 <= k < r@.len() ==> from_aggregated(#[trigger] r@[k], aggregated@),
            forall|ii: int|
                0 <= ii < i ==> seen_course(r@, (#[trigger] aggregated@[ii]).course.id),
        decreases aggregated@.len() - i,
    {
        let mut found = false;
        let mut k: usize = 0;
        while k < r.len()
            invariant
                0 <= k <= r@.len(),
                0 <= i < aggregated@.len(),
                found <==> exists|l: int|
                    0 <= l < k && (#[trigger] r@[l]).id == aggregated@[i as int].course.id,
            decreases r@.len() - k,
        {
            if r[k].id == aggregated[i].course.id {
                found = true;
                proof {
                    assert((r@[k as int]).id == aggregated@[i as int].course.id);
                }
            }
            k += 1;
        }
        if !found {
            let ghost old_r = r@;
            r.push(aggregated[i].course.duplicate());
            proof {
                assert(r@[old_r.len() as int].id == aggregated@[i as int].course.id);
                assert(course_eq_view(r@[old_r.len() as int], aggregated@[i as int].course));
                assert forall|k: int| 0 <= k < r@.len() implies from_aggregated(
                    #[trigger] r@[k],
                    aggregated@,
                ) by {
                    if k < old_r.len() {
                        assert(r@[k] == old_r[k]);
                        assert(from_aggregated(old_r[k], aggregated@));
                    } else {
                        assert(course_eq_view(r@[k], aggregated@[i as int].course));
                    }
                }
                assert forall|ii: int| 0 <= ii <= i implies seen_course(
                    r@,
                    (#[trigger] aggregated@[ii]).course.id,
                ) by {
                    if ii < i {
                        let w = choose|w: int|
                            0 <= w < old_r.len() && (#[trigger] old_r[w]).id
                                == aggregated@[ii].course.id;
                        assert(r@[w].id == aggregated@[ii].course.id);
                    } else {
                        assert(r@[old_r.len() as int].id == aggregated@[ii].course.id);
                    }
                }
            }
        } else {
            proof {
                assert forall|ii: int| 0 <= ii <= i implies seen_course(
                    r@,
                    (#[trigger] aggregated@[ii]).course.id,
                ) by {
                    if ii == i {
                        let l = choose|l: int|
                            0 <= l < r@.len() && (#[trigger] r@[l]).id
                                == aggregated@[i as int].course.id;
                        assert(r@[l].id == aggregated@[ii].course.id);
                    }
                }
            }
        }
        i += 1;
    }
    r
}

/// The aggregated assignments belonging to one course, in order.
pub open spec fn assignments_of_course(s: Seq<Assignment>, course_id: u32) -> Seq<Assignment>
    decreases s.len(),
{
    if s.len() == 0 {
        Seq::empty()
    } else {
        let rest = assignments_of_course(s.drop_first(), course_id);
        if s.first().course.id == course_id {
            seq![s.first()] + rest
        } else {
            rest
        }
    }
}

/// Keeps exactly the assignments of the selected course, preserving their
/// order.
pub fn assignments_for_course(aggregated: Vec<Assignment>, course_id: u32) -> (r: Vec<Assignment>)
    ensures
        r@ == assignments_of_course(aggregated@, course_id),
{
    let mut rest = aggregated;
    let ghost all = rest@;
    let mut out: Vec<Assignment> = Vec::new();
    proof {
        assert(out@ + assignments_of_course(rest@, course_id) =~= assignments_of_course(
            all,
            course_id,
        ));
    }
    while rest.len() > 0
        invariant
            out@ + assignments_of_course(rest@, course_id) == assignments_of_course(
                all,
                course_id,
            ),
        decreases rest@.len(),
    {
        let ghost pending = rest@;
        let a = rest.remove(0);
        proof {
            assert(rest@ =~= pending.drop_first());
            assert(a == pending.first());
        }
        if a.course.id == course_id {
            out.push(a);
            proof {
                assert(out@ + assignments_of_course(rest@, course_id) =~= assignments_of_course(
                    all,
                    course_id,
                ));
            }
        } else {
            proof {
                assert(out@ + assignments_of_course(rest@, course_id) =~= assignments_of_course(
                    all,
                    course_id,
                ));
            }
        }
    }
    proof {
        assert(assignments_of_course(rest@, course_id) =~= Seq::<Assignment>::empty());
        assert(out@ =~= assignments_of_course(all, course_id));
    }
    out
}

} // verus!
