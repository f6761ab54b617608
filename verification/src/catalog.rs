//! The snapshot catalog: the distinct snapshot ids present in a remote
//! listing, each flagged as current or not, for introspection.

use vstd::prelude::*;

verus! {

use crate::naming::spec_catalog_snapshot_id;
use crate::naming::catalog_snapshot_id;

/// One catalog entry: a snapshot id and whether it is the active one.
/// Derived from the remote listing and the pointer object, never persisted.
#[derive(Clone, Copy, PartialEq, Eq, Structural, Debug)]
pub struct SnapshotInfo {
    pub id: u128,
    pub current: bool,
}

/// The distinct snapshot ids announced by the file-set names of a listing.
pub open spec fn listed_ids(name: Seq<char>, names: Seq<String>) -> Set<u128> {
    Set::new(
        |id: u128|
            exists|i: int|
                0 <= i < names.len() && spec_catalog_snapshot_id(name, (#[trigger] names[i])@)
                    == Some(id),
    )
}

/// Whether `infos` is the catalog of `ids` with `current_id` active: one
/// entry per distinct id, ascending, flagged current exactly when the
/// pointer names it.
pub open spec fn is_catalog(infos: Seq<SnapshotInfo>, ids: Set<u128>, current_id: Option<u128>) -> bool {
    &&& forall|i: int, j: int| 0 <= i < j < infos.len() ==> infos[i].id < infos[j].id
    &&& forall|i: int| 0 <= i < infos.len() ==> ids.contains((#[trigger] infos[i]).id)
    &&& forall|id: u128| ids.contains(id) ==> exists|i: int|
        0 <= i < infos.len() && (#[trigger] infos[i]).id == id
    &&& forall|i: int| 0 <= i < infos.len() ==> (#[trigger] infos[i]).current == (current_id
        == Some(infos[i].id))
}

/// List the snapshots a remote listing shows: every distinct id embedded
/// in a file-set name `{name}-{id}/...`, in ascending order, flagged as
/// current exactly when `current_id` names it.  Names of any other shape
/// are ignored.
pub fn snapshots_list(name: &str, names: &Vec<String>, current_id: Option<u128>) -> (r: Vec<
    SnapshotInfo,
>)
    ensures
        is_catalog(r@, listed_ids(name@, names@), current_id),
{
    let mut ids: Vec<u128> = Vec::new();
    let mut i: usize = 0;
    while i < names.len()
        invariant
            i <= names@.len(),
            forall|a: int, b: int| 0 <= a < b < ids@.len() ==> ids@[a] < ids@[b],
            forall|a: int| 0 <= a < ids@.len() ==> listed_ids_upto(name@, names@, i as int).contains(
                #[trigger] ids@[a],
            ),
            forall|id: u128| listed_ids_upto(name@, names@, i as int).contains(id)
                ==> ids@.contains(id),
        decreases names@.len() - i,
    {
        let entry = &names[i];
        match catalog_snapshot_id(name, entry.as_str()) {
            Some(id) => {
                let ghost prev = ids@;
                insert_unique_sorted(&mut ids, id);
                proof {
                    assert forall|a: int|
                        0 <= a < ids@.len() implies listed_ids_upto(
                        name@,
                        names@,
                        i + 1,
                    ).contains(#[trigger] ids@[a]) by {
                        assert(ids@.contains(ids@[a]));
                        if ids@[a] == id {
                            assert(spec_catalog_snapshot_id(name@, names@[i as int]@) == Some(
                                ids@[a],
                            ));
                        } else {
                            assert(prev.contains(ids@[a]));
                            assert(listed_ids_upto(name@, names@, i as int).contains(ids@[a]));
                        }
                    }
                    assert forall|x: u128|
                        listed_ids_upto(name@, names@, i + 1).contains(x) implies ids@.contains(
                        x,
                    ) by {
                        if x != id {
                            let w = choose|w: int|
                                0 <= w < i + 1 && spec_catalog_snapshot_id(
                                    name@,
                                    names@[w]@,
                                ) == Some(x);
                            if w < i {
                                assert(listed_ids_upto(name@, names@, i as int).contains(x));
                                assert(prev.contains(x));
                            }
                        }
                    }
                }
            },
            None => {
                proof {
                    assert forall|x: u128|
                        listed_ids_upto(name@, names@, i + 1).contains(x) implies ids@.contains(
                        x,
                    ) by {
                        let w = choose|w: int|
                            0 <= w < i + 1 && spec_catalog_snapshot_id(name@, names@[w]@) == Some(
                                x,
                            );
                        assert(w < i);
                        assert(listed_ids_upto(name@, names@, i as int).contains(x));
                    }
                    assert forall|a: int|
                        0 <= a < ids@.len() implies listed_ids_upto(
                        name@,
                        names@,
                        i + 1,
                    ).contains(#[trigger] ids@[a]) by {
                        assert(listed_ids_upto(name@, names@, i as int).contains(ids@[a]));
                    }
                }
            },
        }
        i = i + 1;
    }
    proof {
        assert(listed_ids_upto(name@, names@, names@.len() as int) =~= listed_ids(name@, names@));
    }
    let mut out: Vec<SnapshotInfo> = Vec::new();
    let mut j: usize = 0;
    while j < ids.len()
        invariant
            j <= ids@.len(),
            forall|a: int, b: int| 0 <= a < b < ids@.len() ==> ids@[a] < ids@[b],
            out@.len() == j,
            forall|a: int| 0 <= a < j ==> (#[trigger] out@[a]).id == ids@[a],
            forall|a: int| 0 <= a < j ==> (#[trigger] out@[a]).current == (current_id == Some(
                ids@[a],
            )),
        decreases ids@.len() - j,
    {
        let id = ids[j];
        let current = match current_id {
            Some(c) => c == id,
            None => false,
        };
        out.push(SnapshotInfo { id, current });
        j = j + 1;
    }
    proof {
        assert forall|id: u128|
            listed_ids(name@, names@).contains(id) implies exists|a: int|
            0 <= a < out@.len() && (#[trigger] out@[a]).id == id by {
            assert(ids@.contains(id));
            let a = choose|a: int| 0 <= a < ids@.len() && ids@[a] == id;
            assert(out@[a].id == id);
        }
        assert forall|a: int|
            0 <= a < out@.len() implies listed_ids(name@, names@).contains(
            (#[trigger] out@[a]).id,
        ) by {
            assert(ids@.contains(ids@[a]));
        }
    }
    out
}

/// The distinct snapshot ids among the first `k` names of a listing.
pub open spec fn listed_ids_upto(name: Seq<char>, names: Seq<String>, k: int) -> Set<u128> {
    Set::new(
        |id: u128|
            exists|i: int|
                0 <= i < k && i < names.len() && spec_catalog_snapshot_id(
                    name,
                    (#[trigger] names[i])@,
                ) == Some(id),
    )
}

/// Insert `x` into the strictly sorted `v` unless already present.
fn insert_unique_sorted(v: &mut Vec<u128>, x: u128)
    requires
        forall|a: int, b: int| 0 <= a < b < old(v)@.len() ==> old(v)@[a] < old(v)@[b],
    ensures
        forall|a: int, b: int| 0 <= a < b < final(v)@.len() ==> final(v)@[a] < final(v)@[b],
        forall|y: u128| final(v)@.contains(y) <==> (old(v)@.contains(y) || y == x),
{
    let ghost prev = v@;
    let mut k: usize = 0;
    while k < v.len() && v[k] < x
        invariant
            k <= v@.len(),
            v@ == prev,
            forall|i: int| 0 <= i < k ==> #[trigger] v@[i] < x,
        decreases v@.len() - k,
    {
        k = k + 1;
    }
    if k < v.len() && v[k] == x {
        proof {
            assert forall|y: u128| v@.contains(y) implies (prev.contains(y) || y == x) by {}
        }
        return ;
    }
    proof {
        if k < prev.len() {
            assert(prev[k as int] > x);
        }
        assert(!prev.contains(x)) by {
            if prev.contains(x) {
                let i = choose|i: int| 0 <= i < prev.len() && prev[i] == x;
                if i < k {
                    assert(prev[i] < x);
                } else if i > k {
                    assert(prev[k as int] < prev[i]);
                }
            }
        }
    }
    v.insert(k, x);
    proof {
        prev.insert_ensures(k as int, x);
        assert forall|a: int, b: int| 0 <= a < b < v@.len() implies v@[a] < v@[b] by {
            if b < k {
            } else if a < k && b == k {
            } else if a == k {
                assert(v@[b] == prev[b - 1]);
                assert(prev[b - 1] >= prev[k as int]);
            } else if a > k {
                assert(v@[a] == prev[a - 1]);
                assert(v@[b] == prev[b - 1]);
            } else {
                assert(v@[a] == prev[a]);
                assert(v@[b] == prev[b - 1]);
                assert(prev[b - 1] >= prev[k as int]);
            }
        }
        assert forall|y: u128| v@.contains(y) implies (prev.contains(y) || y == x) by {
            let i = choose|i: int| 0 <= i < v@.len() && v@[i] == y;
            if i < k {
                assert(prev[i] == y);
            } else if i > k {
                assert(prev[i - 1] == y);
            }
        }
        assert forall|y: u128| (prev.contains(y) || y == x) implies v@.contains(y) by {
            if y == x {
                assert(v@[k as int] == y);
            } else {
                let i = choose|i: int| 0 <= i < prev.len() && prev[i] == y;
                if i < k {
                    assert(v@[i] == y);
                } else {
                    assert(v@[i + 1] == y);
                }
            }
        }
    }
}

} // verus!
