//! Hardlink Correlator: intersects two index results, emitting one record
//! for every filesystem identity present in both trees. Pure: the inputs are
//! not consumed or mutated, so correlation is safely repeatable against
//! multiple destination trees.

use vstd::prelude::*;

use crate::index::IndexedTree;
use crate::types::FilesystemIdentity;
use crate::types::HardlinkRecord;

verus! {

/// `r` is a correlation of `src` and `dst`: every record pairs the source
/// and destination paths of an identity present in both trees, each shared
/// identity appears exactly once, and nothing else appears.
pub open spec fn is_correlation(
    src: IndexedTree,
    dst: IndexedTree,
    r: Seq<HardlinkRecord>,
) -> bool {
    &&& forall|k: int|
        0 <= k < r.len() ==> {
            &&& src.spec_contains(#[trigger] r[k].identity)
            &&& dst.spec_contains(r[k].identity)
            &&& r[k].source_path@ == src.spec_path(r[k].identity)
            &&& r[k].dest_path@ == dst.spec_path(r[k].identity)
        }
    &&& forall|k1: int, k2: int| 0 <= k1 < k2 < r.len() ==> r[k1].identity != r[k2].identity
    &&& forall|id: FilesystemIdentity|
        #[trigger] src.spec_contains(id) && #[trigger] dst.spec_contains(id) ==> exists|k: int|
            0 <= k < r.len() && (#[trigger] r[k].identity) == id
}

/// Reports every proven same-data relationship between the two trees: one
/// record per identity indexed in both, carrying the identity and the two
/// canonical paths. The inputs are read only, so the correlation can be run
/// again, or against another destination tree, with nothing consumed.
pub fn get_linked_files(source_tree: &IndexedTree, dest_tree: &IndexedTree) -> (r: Vec<
    HardlinkRecord,
>)
    requires
        source_tree.wf(),
        dest_tree.wf(),
    ensures
        is_correlation(*source_tree, *dest_tree, r@),
{
    let ghost src = *source_tree;
    let ghost dst = *dest_tree;
    let n = source_tree.entries.len();
    let mut r: Vec<HardlinkRecord> = Vec::new();
    let mut i: usize = 0;
    while i < n
        invariant
            source_tree.wf(),
            dest_tree.wf(),
            src == *source_tree,
            dst == *dest_tree,
            n == source_tree.entries@.len(),
            i <= n,
            forall|k: int|
                0 <= k < r@.len() ==> {
                    &&& src.spec_contains(#[trigger] r@[k].identity)
                    &&& dst.spec_contains(r@[k].identity)
                    &&& r@[k].source_path@ == src.spec_path(r@[k].identity)
                    &&& r@[k].dest_path@ == dst.spec_path(r@[k].identity)
                },
            forall|k: int|
                0 <= k < r@.len() ==> exists|i2: int|
                    0 <= i2 < i && (#[trigger] r@[k].identity) == src.entries@[i2].0,
            forall|k1: int, k2: int| 0 <= k1 < k2 < r@.len() ==> r@[k1].identity != r@[k2].identity,
            forall|i2: int|
                0 <= i2 < i && dst.spec_contains(#[trigger] src.entries@[i2].0) ==> exists|k: int|
                    0 <= k < r@.len() && (#[trigger] r@[k].identity) == src.entries@[i2].0,
        decreases n - i,
    {
        let id = source_tree.entries[i].0;
        proof {
            src.lemma_get_at(i as int);
        }
        match dest_tree.find(id) {
            None => {
                assert(!dst.spec_contains(src.entries@[i as int].0));
            },
            Some(di) => {
                proof {
                    dst.lemma_get_at(di as int);
                }
                let rec = HardlinkRecord {
                    identity: id,
                    source_path: source_tree.entries[i].1.clone(),
                    dest_path: dest_tree.entries[di].1.clone(),
                };
                let ghost r_before = r@;
                // A record for this identity cannot already exist: earlier
                // records stem from earlier source entries, whose identities
                // all differ from this one.
                proof {
                    assert forall|k: int| 0 <= k < r_before.len() implies r_before[k].identity
                        != id by {
                        let i2 = choose|i2: int|
                            0 <= i2 < i && (#[trigger] r_before[k].identity)
                                == src.entries@[i2].0;
                        assert(src.entries@[i2].0 != src.entries@[i as int].0);
                    }
                }
                r.push(rec);
                assert(r@[r@.len() - 1].identity == src.entries@[i as int].0);
                proof {
                    assert forall|i2: int|
                        0 <= i2 < i && dst.spec_contains(
                        #[trigger] src.entries@[i2].0,
                    ) implies exists|k: int|
                        0 <= k < r@.len() && (#[trigger] r@[k].identity)
                            == src.entries@[i2].0 by {
                        let k = choose|k: int|
                            0 <= k < r_before.len() && (#[trigger] r_before[k].identity)
                                == src.entries@[i2].0;
                        assert(r@[k].identity == src.entries@[i2].0);
                    }
                }
            },
        }
        i = i + 1;
    }
    proof {
        assert forall|id: FilesystemIdentity|
            #[trigger] src.spec_contains(id) && #[trigger] dst.spec_contains(
            id,
        ) implies exists|k: int| 0 <= k < r@.len() && (#[trigger] r@[k].identity) == id by {
            let i2 = choose|i2: int| 0 <= i2 < src.entries@.len() && src.entries@[i2].0 == id;
            assert(dst.spec_contains(src.entries@[i2].0));
        }
    }
    r
}

/// When the two trees share no storage at all, correlation is empty.
pub proof fn lemma_no_shared_storage_empty(
    src: IndexedTree,
    dst: IndexedTree,
    r: Seq<HardlinkRecord>,
)
    requires
        is_correlation(src, dst, r),
        forall|id: FilesystemIdentity|
            !(#[trigger] src.spec_contains(id) && #[trigger] dst.spec_contains(id)),
    ensures
        r.len() == 0,
{
    if r.len() > 0 {
        assert(src.spec_contains(r[0].identity) && dst.spec_contains(r[0].identity));
    }
}

/// When one identity is indexed in both trees, correlation holds exactly one
/// record for it — `{identity, source path, destination path}` — however the
/// trees were traversed: any correlation of the same two indexes carries the
/// same record.
pub proof fn lemma_shared_identity_one_record(
    src: IndexedTree,
    dst: IndexedTree,
    r: Seq<HardlinkRecord>,
    id: FilesystemIdentity,
)
    requires
        is_correlation(src, dst, r),
        src.spec_contains(id),
        dst.spec_contains(id),
    ensures
        exists|k: int|
            0 <= k < r.len() && (#[trigger] r[k].identity) == id && r[k].source_path@
                == src.spec_path(id) && r[k].dest_path@ == dst.spec_path(id),
        forall|k1: int, k2: int|
            0 <= k1 < r.len() && 0 <= k2 < r.len() && (#[trigger] r[k1].identity) == id && (
            #[trigger] r[k2].identity) == id ==> k1 == k2,
{
    let k = choose|k: int| 0 <= k < r.len() && (#[trigger] r[k].identity) == id;
    assert(r[k].source_path@ == src.spec_path(id));
    assert(r[k].dest_path@ == dst.spec_path(id));
}

} // verus!
