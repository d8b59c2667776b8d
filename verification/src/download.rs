//! The plain file-download flow's decisions: keeping the explicitly
//! requested files and ordering the candidate list for interactive
//! selection. The transfers themselves are host work.
use vstd::prelude::*;

verus! {

broadcast use vstd::seq_lib::group_to_multiset_ensures, vstd::seq_lib::to_multiset_insert;

/// The download command's inputs: an optional course id, an optional URL to
/// parse, optional explicit file ids, and an optional output directory.
pub struct DownloadCommand {
    pub course: Option<u32>,
    pub url: Option<String>,
    pub files: Option<Vec<u32>>,
    pub directory: Option<String>,
}

/// One remote file of a course.
pub struct File {
    pub id: u32,
    pub filename: String,
    pub url: String,
    pub size: u32,
    pub updated_at: i64,
}

/// The files whose id stands in the requested list, in order.
pub open spec fn files_with_ids(s: Seq<File>, ids: Seq<u32>) -> Seq<File>
    decreases s.len(),
{
    if s.len() == 0 {
        Seq::empty()
    } else {
        let rest = files_with_ids(s.drop_first(), ids);
        if ids.contains(s.first().id) {
            seq![s.first()] + rest
        } else {
            rest
        }
    }
}

/// Decides membership of a file id in the requested list.
fn ids_contain(ids: &Vec<u32>, id: u32) -> (r: bool)
    ensures
        r == ids@.contains(id),
{
    let mut i: usize = 0;
    while i < ids.len()
        invariant
            0 <= i <= ids@.len(),
            forall|k: int| 0 <= k < i ==> ids@[k] != id,
        decreases ids@.len() - i,
    {
        if ids[i] == id {
            return true;
        }
        i += 1;
    }
    false
}

/// Keeps exactly the files whose id was explicitly requested, preserving
/// their order.
pub fn keep_files_by_ids(files: Vec<File>, ids: &Vec<u32>) -> (r: Vec<File>)
    ensures
        r@ == files_with_ids(files@, ids@),
{
    let mut rest = files;
    let ghost all = rest@;
    let mut out: Vec<File> = Vec::new();
    proof {
        assert(out@ + files_with_ids(rest@, ids@) =~= files_with_ids(all, ids@));
    }
    while rest.len() > 0
        invariant
            out@ + files_with_ids(rest@, ids@) == files_with_ids(all, ids@),
        decreases rest@.len(),
    {
        let ghost pending = rest@;
        let f = rest.remove(0);
        proof {
            assert(rest@ =~= pending.drop_first());
            assert(f == pending.first());
        }
        if ids_contain(ids, f.id) {
            out.push(f);
            proof {
                assert(out@ + files_with_ids(rest@, ids@) =~= files_with_ids(all, ids@));
            }
        } else {
            proof {
                assert(out@ + files_with_ids(rest@, ids@) =~= files_with_ids(all, ids@));
            }
        }
    }
    proof {
        assert(files_with_ids(rest@, ids@) =~= Seq::<File>::empty());
        assert(out@ =~= files_with_ids(all, ids@));
    }
    out
}

/// File order for interactive selection: ascending update time.
pub open spec fn file_le(a: File, b: File) -> bool {
    a.updated_at <= b.updated_at
}

/// Sorts the file candidate list by ascending update time. The result holds
/// exactly the input files.
pub fn sort_files(v: &mut Vec<File>)
    ensures
        final(v)@.to_multiset() == old(v)@.to_multiset(),
        final(v)@.len() == old(v)@.len(),
        forall|p: int, q: int| 0 <= p < q < final(v)@.len() ==> file_le(final(v)@[p], final(v)@[q]),
{
    let mut i: usize = 1;
    while i < v.len()
        invariant
            i >= 1,
            v@.to_multiset() == old(v)@.to_multiset(),
            v@.len() == old(v)@.len(),
            forall|p: int, q: int| 0 <= p < q < i && q < v@.len() ==> file_le(v@[p], v@[q]),
        decreases v@.len() - i,
    {
        let ghost before = v@;
        let x = v.remove(i);
        let ghost mid = v@;
        proof {
            assert(forall|k: int| 0 <= k < i ==> mid[k] == before[k]);
        }
        let mut j: usize = 0;
        while j < i && v[j].updated_at <= x.updated_at
            invariant
                j <= i,
                i < before.len(),
                v@ == mid,
                mid == before.remove(i as int),
                x == before[i as int],
                forall|k: int| 0 <= k < j ==> file_le(mid[k], x),
            decreases i - j,
        {
            j += 1;
        }
        proof {
            if j < i {
                assert(!file_le(mid[j as int], x));
                assert(file_le(x, mid[j as int]));
            }
        }
        v.insert(j, x);
        proof {
            let after = v@;
            assert(after.to_multiset() == mid.to_multiset().insert(x));
            assert(mid.to_multiset() == before.to_multiset().remove(x));
            assert(before.to_multiset().count(x) > 0);
            assert(after.to_multiset() =~= before.to_multiset());
            assert forall|p: int, q: int|
                0 <= p < q < i + 1 && q < after.len() implies file_le(after[p], after[q]) by {
                if q < j {
                    assert(after[p] == mid[p] && after[q] == mid[q]);
                } else if p < j && q == j {
                    assert(after[p] == mid[p] && after[q] == x);
                } else if p < j && q > j {
                    assert(after[p] == mid[p] && after[q] == mid[q - 1]);
                } else if p == j {
                    assert(after[p] == x);
                    if q > j {
                        assert(after[q] == mid[q - 1]);
                        if j < i {
                            assert(file_le(x, mid[j as int]));
                            if q - 1 > j {
                                assert(file_le(mid[j as int], mid[q - 1]));
                            }
                        }
                    }
                } else {
                    assert(after[p] == mid[p - 1] && after[q] == mid[q - 1]);
                }
            }
        }
        i += 1;
    }
}

} // verus!
