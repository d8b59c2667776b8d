//! Metadata aggregation: merging the course/assignment catalog, the favorite
//! course list, and the course color map into one flat sequence of
//! assignments, each carrying its fully resolved course.
//!
//! The three sources are queried independently; the merge is all-or-nothing:
//! it is attempted only when all three succeeded, and the first failure
//! aborts the whole aggregation with no partial result.
use vstd::prelude::*;
use crate::Course;
use crate::errors::SubmitError;
use crate::text::{dec_digits, push_u32};

verus! {

/// One assignment as the catalog query reports it: raw nested data, not yet
/// joined with favorites or colors.
pub struct AssignmentRecord {
    pub id: u32,
    pub name: String,
    pub due_at: Option<i64>,
    /// The status string of each submission record attached to the
    /// assignment.
    pub submission_statuses: Vec<String>,
    /// The accepted submission types of the assignment.
    pub submission_types: Vec<String>,
}

/// One course as the catalog query reports it, with its nested assignments.
pub struct CourseRecord {
    pub id: u32,
    pub name: String,
    pub created_at: i64,
    pub assignments: Vec<AssignmentRecord>,
}

/// An assignment ready for selection and submission: submission state
/// resolved, carrying its resolved course.
pub struct Assignment {
    pub id: u32,
    pub name: String,
    pub due_at: Option<i64>,
    pub submitted: bool,
    pub course: Course,
}

impl Assignment {
    /// An assignment is its own value; cloning preserves every field.
    pub fn duplicate(&self) -> (r: Assignment)
        ensures
            r.id == self.id,
            r.name@ == self.name@,
            r.due_at == self.due_at,
            r.submitted == self.submitted,
            r.course.id == self.course.id,
            r.course.name@ == self.course.name@,
            r.course.is_favorite == self.course.is_favorite,
            r.course.css_color@ == self.course.css_color@,
            r.course.created_at == self.course.created_at,
    {
        Assignment {
            id: self.id,
            name: self.name.clone(),
            due_at: self.due_at,
            submitted: self.submitted,
            course: self.course.duplicate(),
        }
    }
}

/// An assignment counts as submitted exactly when at least one of its
/// submission records carries a non-empty status string.
pub open spec fn submitted_of(statuses: Seq<String>) -> bool {
    exists|i: int| 0 <= i < statuses.len() && statuses[i]@.len() > 0
}

/// An assignment is eligible for the submission flow exactly when its
/// accepted submission types contain the file-upload type.
pub open spec fn accepts_upload(types: Seq<String>) -> bool {
    exists|i: int| 0 <= i < types.len() && types[i]@ == "online_upload"@
}

/// The key under which a course's color is stored in the color map.
pub open spec fn color_key(id: u32) -> Seq<char> {
    "course_"@ + dec_digits(id as int)
}

/// The fallback color used when the color map has no entry for a course.
pub open spec fn fallback_color() -> Seq<char> {
    "#000000"@
}

/// The course's resolved color: the value of the first color-map entry whose
/// key is the course's asset key, or the fallback color when there is none.
/// Absence is never an error.
pub open spec fn resolved_color(colors: Seq<(String, String)>, id: u32) -> Seq<char>
    decreases colors.len(),
{
    if colors.len() == 0 {
        fallback_color()
    } else if colors.first().0@ == color_key(id) {
        colors.first().1@
    } else {
        resolved_color(colors.drop_first(), id)
    }
}

/// Whether `c` is the resolved form of the catalog course `rec`: favorite
/// flag joined in by id membership in the favorites list, color joined in
/// from the color map with the fallback for absent keys.
pub open spec fn course_resolved(
    rec: CourseRecord,
    favs: Seq<u32>,
    colors: Seq<(String, String)>,
    c: Course,
) -> bool {
    &&& c.id == rec.id
    &&& c.name@ == rec.name@
    &&& c.is_favorite == favs.contains(rec.id)
    &&& c.css_color@ == resolved_color(colors, rec.id)
    &&& c.created_at == rec.created_at
}

/// Whether `a` is the resolved form of the catalog assignment `ar` under the
/// course `rec`.
pub open spec fn assignment_resolved(
    ar: AssignmentRecord,
    rec: CourseRecord,
    favs: Seq<u32>,
    colors: Seq<(String, String)>,
    a: Assignment,
) -> bool {
    &&& a.id == ar.id
    &&& a.name@ == ar.name@
    &&& a.due_at == ar.due_at
    &&& a.submitted == submitted_of(ar.submission_statuses@)
    &&& course_resolved(rec, favs, colors, a.course)
}

/// The eligible assignments of one course, in catalog order.
pub open spec fn eligible_records(ars: Seq<AssignmentRecord>) -> Seq<AssignmentRecord>
    decreases ars.len(),
{
    if ars.len() == 0 {
        Seq::empty()
    } else {
        let rest = eligible_records(ars.drop_last());
        if accepts_upload(ars.last().submission_types@) {
            rest.push(ars.last())
        } else {
            rest
        }
    }
}

/// The flattened catalog: every eligible assignment paired with its course,
/// courses in catalog order, each course's assignments in catalog order.
pub open spec fn flat_records(recs: Seq<CourseRecord>) -> Seq<(CourseRecord, AssignmentRecord)>
    decreases recs.len(),
{
    if recs.len() == 0 {
        Seq::empty()
    } else {
        flat_records(recs.drop_last()) + eligible_records(
            recs.last().assignments@,
        ).map_values(|ar: AssignmentRecord| (recs.last(), ar))
    }
}

/// Whether `out` is exactly the merged view of the three sources: one
/// resolved assignment per flattened eligible catalog entry, in order.
pub open spec fn merged_view(
    recs: Seq<CourseRecord>,
    favs: Seq<u32>,
    colors: Seq<(String, String)>,
    out: Seq<Assignment>,
) -> bool {
    let flat = flat_records(recs);
    &&& out.len() == flat.len()
    &&& forall|i: int|
        0 <= i < flat.len() ==> assignment_resolved(
            flat[i].1,
            flat[i].0,
            favs,
            colors,
            #[trigger] out[i],
        )
}

/// Decides favorite status: membership of a course id in the favorites list.
fn contains_id(favs: &Vec<u32>, id: u32) -> (r: bool)
    ensures
        r == favs@.contains(id),
{
    let mut i: usize = 0;
    while i < favs.len()
        invariant
            0 <= i <= favs@.len(),
            forall|k: int| 0 <= k < i ==> favs@[k] != id,
        decreases favs@.len() - i,
    {
        if favs[i] == id {
            return true;
        }
        i += 1;
    }
    false
}

/// Resolves a course's color from the color map, falling back to the default
/// color when the asset key is absent.
fn lookup_color(colors: &Vec<(String, String)>, id: u32) -> (r: String)
    ensures
        r@ == resolved_color(colors@, id),
{
    let mut key = "course_".to_owned();
    push_u32(&mut key, id);
    proof {
        assert(colors@.skip(0) =~= colors@);
    }
    let mut i: usize = 0;
    while i < colors.len()
        invariant
            0 <= i <= colors@.len(),
            key@ == color_key(id),
            resolved_color(colors@.skip(i as int), id) == resolved_color(colors@, id),
        decreases colors@.len() - i,
    {
        proof {
            assert(colors@.skip(i as int).drop_first() =~= colors@.skip(i as int + 1));
        }
        if colors[i].0 == key {
            return colors[i].1.clone();
        }
        i += 1;
    }
    proof {
        assert(colors@.skip(colors@.len() as int) =~= Seq::<(String, String)>::empty());
    }
    "#000000".to_owned()
}

/// Decides submission state: whether any status string is non-empty.
fn any_nonempty(statuses: &Vec<String>) -> (r: bool)
    ensures
        r == submitted_of(statuses@),
{
    let mut i: usize = 0;
    while i < statuses.len()
        invariant
            0 <= i <= statuses@.len(),
            forall|k: int| 0 <= k < i ==> statuses@[k]@.len() == 0,
        decreases statuses@.len() - i,
    {
        if !statuses[i].as_str().is_empty() {
            return true;
        }
        i += 1;
    }
    false
}

/// Decides eligibility: whether the accepted submission types contain the
/// file-upload type.
fn accepts_upload_exec(types: &Vec<String>) -> (r: bool)
    ensures
        r == accepts_upload(types@),
{
    let needle = "online_upload".to_owned();
    let mut i: usize = 0;
    while i < types.len()
        invariant
            0 <= i <= types@.len(),
            needle@ == "online_upload"@,
            forall|k: int| 0 <= k < i ==> types@[k]@ != "online_upload"@,
        decreases types@.len() - i,
    {
        if types[i] == needle {
            return true;
        }
        i += 1;
    }
    false
}

/// Merges the three successful source results into the flat resolved view.
pub fn merge_catalog(
    recs: &Vec<CourseRecord>,
    favs: &Vec<u32>,
    colors: &Vec<(String, String)>,
) -> (r: Vec<Assignment>)
    ensures
        merged_view(recs@, favs@, colors@, r@),
{
    let mut out: Vec<Assignment> = Vec::new();
    let mut i: usize = 0;
    while i < recs.len()
        invariant
            0 <= i <= recs@.len(),
            merged_view(recs@.take(i as int), favs@, colors@, out@),
        decreases recs@.len() - i,
    {
        let rec = &recs[i];
        let fav = contains_id(favs, rec.id);
        let color = lookup_color(colors, rec.id);
        let ghost flat_before = flat_records(recs@.take(i as int));
        let mut j: usize = 0;
        while j < rec.assignments.len()
            invariant
                0 <= j <= rec.assignments@.len(),
                0 <= i < recs@.len(),
                rec == recs@[i as int],
                fav == favs@.contains(rec.id),
                color@ == resolved_color(colors@, rec.id),
                flat_before == flat_records(recs@.take(i as int)),
                out@.len() == flat_before.len() + eligible_records(
                    rec.assignments@.take(j as int),
                ).len(),
                forall|k: int|
                    0 <= k < flat_before.len() ==> assignment_resolved(
                        flat_before[k].1,
                        flat_before[k].0,
                        favs@,
                        colors@,
                        #[trigger] out@[k],
                    ),
                forall|k: int|
                    0 <= k < eligible_records(rec.assignments@.take(j as int)).len()
                        ==> assignment_resolved(
                        eligible_records(rec.assignments@.take(j as int))[k],
                        recs@[i as int],
                        favs@,
                        colors@,
                        #[trigger] out@[flat_before.len() + k],
                    ),
            decreases rec.assignments@.len() - j,
        {
            let ghost elig_before = eligible_records(rec.assignments@.take(j as int));
            proof {
                assert(rec.assignments@.take(j as int + 1).drop_last() =~= rec.assignments@.take(
                    j as int,
                ));
            }
            let ar = &rec.assignments[j];
            if accepts_upload_exec(&ar.submission_types) {
                let submitted = any_nonempty(&ar.submission_statuses);
                let a = Assignment {
                    id: ar.id,
                    name: ar.name.clone(),
                    due_at: ar.due_at,
                    submitted,
                    course: Course {
                        id: rec.id,
                        name: rec.name.clone(),
                        is_favorite: fav,
                        css_color: color.clone(),
                        created_at: rec.created_at,
                    },
                };
                out.push(a);
                proof {
                    assert(eligible_records(rec.assignments@.take(j as int + 1)) =~= elig_before.push(
                        rec.assignments@[j as int],
                    ));
                }
            } else {
                proof {
                    assert(eligible_records(rec.assignments@.take(j as int + 1)) =~= elig_before);
                }
            }
            j += 1;
        }
        proof {
            assert(rec.assignments@.take(rec.assignments@.len() as int) =~= rec.assignments@);
            assert(recs@.take(i as int + 1).drop_last() =~= recs@.take(i as int));
            assert(recs@.take(i as int + 1).last() == recs@[i as int]);
            let flat_after = flat_records(recs@.take(i as int + 1));
            let elig = eligible_records(recs@[i as int].assignments@);
            let mapped = elig.map_values(|ar: AssignmentRecord| (recs@[i as int], ar));
            assert(flat_after =~= flat_before + mapped);
            assert forall|k: int|
                0 <= k < flat_after.len() implies assignment_resolved(
                flat_after[k].1,
                flat_after[k].0,
                favs@,
                colors@,
                #[trigger] out@[k],
            ) by {
                if k >= flat_before.len() {
                    let m = k - flat_before.len();
                    assert(mapped[m] == (recs@[i as int], elig[m]));
                    assert(assignment_resolved(
                        elig[m],
                        recs@[i as int],
                        favs@,
                        colors@,
                        out@[flat_before.len() + m],
                    ));
                }
            }
        }
        i += 1;
    }
    proof {
        assert(recs@.take(recs@.len() as int) =~= recs@);
    }
    out
}

/// Aggregation is all-or-nothing: the merged view exists exactly when every
/// one of the three source queries succeeded; the first failure (catalog,
/// then favorites, then colors) aborts the whole aggregation and no partial
/// result is ever returned.
pub fn aggregate(
    catalog: Result<Vec<CourseRecord>, SubmitError>,
    favorites: Result<Vec<u32>, SubmitError>,
    colors: Result<Vec<(String, String)>, SubmitError>,
) -> (r: Result<Vec<Assignment>, SubmitError>)
    ensures
        r is Ok <==> (catalog is Ok && favorites is Ok && colors is Ok),
        r matches Ok(v) ==> merged_view(catalog->Ok_0@, favorites->Ok_0@, colors->Ok_0@, v@),
        catalog is Err ==> r == Result::<Vec<Assignment>, SubmitError>::Err(catalog->Err_0),
        catalog is Ok && favorites is Err ==> r == Result::<Vec<Assignment>, SubmitError>::Err(
            favorites->Err_0,
        ),
        catalog is Ok && favorites is Ok && colors is Err ==> r == Result::<
            Vec<Assignment>,
            SubmitError,
        >::Err(colors->Err_0),
{
    match (catalog, favorites, colors) {
        (Ok(recs), Ok(favs), Ok(cols)) => Ok(merge_catalog(&recs, &favs, &cols)),
        (Err(e), _, _) => Err(e),
        (Ok(_), Err(e), _) => Err(e),
        (Ok(_), Ok(_), Err(e)) => Err(e),
    }
}

} // verus!
