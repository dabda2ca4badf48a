//! Inode Indexer: fingerprints a directory tree by filesystem identity
//! rather than path, producing a mapping from `(device, inode)` to canonical
//! path. Symbolic links are followed, but a per-traversal ancestor chain
//! guards against link cycles: a link whose resolved target's identity is
//! already on the chain is skipped with a recorded warning.

use vstd::prelude::*;
use vstd::seq_lib::*;
use vstd::set_lib::lemma_int_range;
use vstd::set_lib::lemma_len_subset;
use vstd::set_lib::set_int_range;

use crate::fstree::files_under;
use crate::fstree::files_under_prefix;
use crate::fstree::FsNodeKind;
use crate::fstree::FsTree;
use crate::types::FilesystemIdentity;
use crate::types::ScanWarning;

verus! {

/// Mapping from filesystem identity to canonical path, built for exactly one
/// root directory. At most one entry per identity: when two paths alias the
/// same identity within a tree, the last-visited path wins (keeping one
/// deterministically rather than silently hiding the hardlink).
pub struct IndexedTree {
    pub entries: Vec<(FilesystemIdentity, String)>,
}

impl IndexedTree {
    /// Identities are unique within the index.
    pub open spec fn wf(self) -> bool {
        forall|i: int, j: int|
            0 <= i < j < self.entries@.len() ==> self.entries@[i].0 != self.entries@[j].0
    }

    /// The index holds an entry for this identity.
    pub open spec fn spec_contains(self, id: FilesystemIdentity) -> bool {
        exists|i: int| 0 <= i < self.entries@.len() && self.entries@[i].0 == id
    }

    /// The canonical path stored for this identity (meaningful only when
    /// present).
    pub open spec fn spec_path(self, id: FilesystemIdentity) -> Seq<char> {
        self.entries@[choose|i: int|
            0 <= i < self.entries@.len() && self.entries@[i].0 == id].1@
    }

    /// In a well-formed index, the entry at index `i` is what lookup by its
    /// own identity returns.
    pub proof fn lemma_get_at(self, i: int)
        requires
            self.wf(),
            0 <= i < self.entries@.len(),
        ensures
            self.spec_contains(self.entries@[i].0),
            self.spec_path(self.entries@[i].0) == self.entries@[i].1@,
    {
        let id = self.entries@[i].0;
        let j = choose|j: int| 0 <= j < self.entries@.len() && self.entries@[j].0 == id;
        if i < j {
            assert(self.entries@[i].0 != self.entries@[j].0);
        } else if j < i {
            assert(self.entries@[j].0 != self.entries@[i].0);
        }
    }

    /// An empty index.
    pub fn new() -> (r: Self)
        ensures
            r.wf(),
            forall|id: FilesystemIdentity| !r.spec_contains(id),
            r.entries@.len() == 0,
    {
        IndexedTree { entries: Vec::new() }
    }

    /// The number of indexed identities.
    pub fn len(&self) -> (r: usize)
        ensures
            r == self.entries@.len(),
    {
        self.entries.len()
    }

    /// The position of this identity in the index, if present.
    pub fn find(&self, id: FilesystemIdentity) -> (r: Option<usize>)
        ensures
            (r is Some) == self.spec_contains(id),
            r is Some ==> 0 <= r->0 < self.entries@.len() && self.entries@[r->0 as int].0 == id,
    {
        let n = self.entries.len();
        let mut i: usize = 0;
        while i < n
            invariant
                n == self.entries@.len(),
                i <= n,
                forall|j: int| 0 <= j < i ==> self.entries@[j].0 != id,
            decreases n - i,
        {
            if self.entries[i].0 == id {
                return Some(i);
            }
            i = i + 1;
        }
        None
    }

    /// Records a path for an identity, replacing any path already stored
    /// under it (last-visited wins).
    pub fn insert(&mut self, id: FilesystemIdentity, path: String)
        requires
            old(self).wf(),
        ensures
            final(self).wf(),
            forall|x: FilesystemIdentity|
                final(self).spec_contains(x) <==> (old(self).spec_contains(x) || x == id),
            final(self).spec_path(id) == path@,
            forall|x: FilesystemIdentity|
                x != id && old(self).spec_contains(x) ==> final(self).spec_path(x) == old(
                    self,
                ).spec_path(x),
    {
        let ghost old_entries = self.entries@;
        let n = self.entries.len();
        let mut found: Option<usize> = None;
        let mut i: usize = 0;
        while i < n
            invariant
                n == self.entries@.len(),
                i <= n,
                found is None ==> forall|j: int| 0 <= j < i ==> self.entries@[j].0 != id,
                found is Some ==> {
                    let f = found->0 as int;
                    0 <= f < n && self.entries@[f].0 == id
                },
            decreases n - i,
        {
            if self.entries[i].0 == id {
                found = Some(i);
                i = n;
            } else {
                i = i + 1;
            }
        }
        if let Some(f) = found {
            self.entries.remove(f);
            proof {
                assert(forall|j: int|
                    0 <= j < old_entries.len() && j != f ==> old_entries[j].0 != id);
            }
        }
        let ghost mid_entries = self.entries@;
        proof {
            assert(forall|j: int| 0 <= j < mid_entries.len() ==> mid_entries[j].0 != id);
        }
        self.entries.push((id, path));
        proof {
            let post = self.entries@;
            assert(forall|j2: int| 0 <= j2 < mid_entries.len() ==> post[j2] == mid_entries[j2]);
            assert(final(self).wf());
            final(self).lemma_get_at(post.len() - 1);
            assert forall|x: FilesystemIdentity|
                x != id && old(self).spec_contains(x) implies final(self).spec_contains(x)
                && final(self).spec_path(x) == old(self).spec_path(x) by {
                let j = choose|j: int| 0 <= j < old_entries.len() && old_entries[j].0 == x;
                old(self).lemma_get_at(j);
                if found is Some {
                    let f = found->0 as int;
                    assert(j != f);
                    if j < f {
                        assert(post[j] == old_entries[j]);
                        final(self).lemma_get_at(j);
                    } else {
                        assert(post[j - 1] == old_entries[j]);
                        final(self).lemma_get_at(j - 1);
                    }
                } else {
                    assert(post[j] == old_entries[j]);
                    final(self).lemma_get_at(j);
                }
            }
            assert forall|x: FilesystemIdentity|
                final(self).spec_contains(x) && x != id implies old(self).spec_contains(
                x,
            ) by {
                let j = choose|j: int| 0 <= j < post.len() && post[j].0 == x;
                assert(j < post.len() - 1);
                assert(post[j] == mid_entries[j]);
                if found is Some && j >= found->0 {
                    assert(old_entries[j + 1] == mid_entries[j]);
                } else {
                    assert(old_entries[j] == mid_entries[j]);
                }
            }
        }
    }
}

/// A distinct sequence of in-range arena indices can hold at most as many
/// elements as the arena has nodes.
proof fn lemma_distinct_indices_bound(s: Seq<usize>, n: int)
    requires
        n >= 0,
        s.no_duplicates(),
        forall|k: int| 0 <= k < s.len() ==> (#[trigger] s[k] as int) < n,
    ensures
        s.len() <= n,
{
    let si = s.map_values(|x: usize| x as int);
    assert(si.no_duplicates()) by {
        assert(forall|i: int, j: int|
            0 <= i < si.len() && 0 <= j < si.len() && i != j ==> si[i] != si[j]);
    }
    si.unique_seq_to_set();
    broadcast use seq_to_set_is_finite;

    lemma_int_range(0, n);
    assert(si.to_set().subset_of(set_int_range(0, n))) by {
        assert forall|x: int| si.to_set().contains(x) implies set_int_range(0, n).contains(
            x,
        ) by {
            let k = choose|k: int| 0 <= k < si.len() && si[k] == x;
            assert(s[k] as int == x);
        }
    }
    lemma_len_subset(si.to_set(), set_int_range(0, n));
}

/// Something in the index really is a regular file of the snapshot, under
/// its identity and canonical path.
pub open spec fn is_file_entry(t: FsTree, id: FilesystemIdentity, p: Seq<char>) -> bool {
    exists|n: int|
        0 <= n < t.nodes@.len() && (#[trigger] t.nodes@[n].kind) is File && t.nodes@[n].identity
            == id && t.nodes@[n].path@ == p
}

/// Depth-first traversal with the ancestor-chain cycle guard. The chain
/// holds the arena indices of the directories and links the walk is
/// currently inside; a node whose identity is already on the chain is
/// skipped with a cycle warning.
fn walk(
    tree: &FsTree,
    idx: usize,
    chain: &mut Vec<usize>,
    acc: &mut IndexedTree,
    warnings: &mut Vec<ScanWarning>,
)
    requires
        tree.wf(),
        idx < tree.nodes@.len(),
        old(chain)@.no_duplicates(),
        forall|k: int| 0 <= k < old(chain)@.len() ==> (#[trigger] old(chain)@[k] as int)
            < tree.nodes@.len(),
        forall|k: int|
            0 <= k < old(chain)@.len() ==> !(tree.nodes@[#[trigger] old(chain)@[k] as int].kind
                is File),
        old(acc).wf(),
        forall|id: FilesystemIdentity| #[trigger]
            old(acc).spec_contains(id) ==> is_file_entry(*tree, id, old(acc).spec_path(id)),
    ensures
        final(chain)@ == old(chain)@,
        final(acc).wf(),
        forall|id: FilesystemIdentity| #[trigger]
            old(acc).spec_contains(id) ==> final(acc).spec_contains(id),
        forall|id: FilesystemIdentity| #[trigger]
            final(acc).spec_contains(id) ==> is_file_entry(*tree, id, final(acc).spec_path(id)),
        (forall|k: int| 0 <= k < old(chain)@.len() ==> (#[trigger] old(chain)@[k] as int) < idx)
            ==> forall|id: FilesystemIdentity| #[trigger]
            files_under(*tree, idx as int).contains(id) ==> final(acc).spec_contains(id),
    decreases tree.nodes@.len() - old(chain)@.len(),
{
    let ghost pre = *old(chain);
    let n = chain.len();
    let mut hit = false;
    let mut k: usize = 0;
    while k < n
        invariant
            n == chain@.len(),
            chain@ == pre@,
            k <= n,
            idx < tree.nodes@.len(),
            forall|j: int| 0 <= j < chain@.len() ==> (#[trigger] chain@[j] as int)
                < tree.nodes@.len(),
            !hit ==> forall|j: int|
                0 <= j < k ==> tree.nodes@[#[trigger] chain@[j] as int].identity
                    != tree.nodes@[idx as int].identity,
            hit ==> exists|j: int|
                0 <= j < n && tree.nodes@[#[trigger] chain@[j] as int].identity
                    == tree.nodes@[idx as int].identity,
        decreases n - k,
    {
        if tree.nodes[chain[k]].identity == tree.nodes[idx].identity {
            hit = true;
            k = n;
        } else {
            k = k + 1;
        }
    }
    if hit {
        // The identity is already an ancestor on the current traversal
        // chain: following it would loop, so the node is skipped.
        warnings.push(
            ScanWarning::SymlinkCycle { path: tree.nodes[idx].path.clone() },
        );
        proof {
            // Under the completeness hypothesis every chain index is below
            // `idx`; chain nodes are directories or links, and those never
            // share an identity with another node, so the guard cannot have
            // fired at all: the hypothesis is contradictory here.
            if forall|k2: int| 0 <= k2 < pre@.len() ==> (#[trigger] pre@[k2] as int) < idx {
                let j = choose|j: int|
                    0 <= j < pre@.len() && tree.nodes@[#[trigger] pre@[j] as int].identity
                        == tree.nodes@[idx as int].identity;
                let cj = pre@[j] as int;
                assert(cj < idx);
                assert(!(tree.nodes@[cj].kind is File));
                assert(tree.nodes@[cj].identity != tree.nodes@[idx as int].identity);
            }
        }
        return;
    }
    match &tree.nodes[idx].kind {
        FsNodeKind::File => {
            acc.insert(tree.nodes[idx].identity, tree.nodes[idx].path.clone());
            proof {
                let ghost id0 = tree.nodes@[idx as int].identity;
                assert(is_file_entry(*tree, id0, tree.nodes@[idx as int].path@));
                assert forall|id2: FilesystemIdentity| #[trigger]
                    acc.spec_contains(id2) implies is_file_entry(
                    *tree,
                    id2,
                    acc.spec_path(id2),
                ) by {
                    if id2 == id0 {
                        assert(acc.spec_path(id2) == tree.nodes@[idx as int].path@);
                    } else {
                        assert(old(acc).spec_contains(id2));
                        assert(acc.spec_path(id2) == old(acc).spec_path(id2));
                    }
                }
            }
        },
        FsNodeKind::Unreadable => {
            warnings.push(
                ScanWarning::DescendantUnreadable { path: tree.nodes[idx].path.clone() },
            );
        },
        FsNodeKind::Symlink { target } => {
            let t = *target;
            proof {
                assert(tree.nodes@[idx as int].kind is Symlink);
                assert(tree.nodes@[idx as int].kind->Symlink_target == t);
            }
            assert(t < tree.nodes@.len());
            chain.push(idx);
            proof {
                assert(chain@.no_duplicates()) by {
                    assert(forall|j: int| 0 <= j < pre@.len() ==> pre@[j] != idx);
                }
                lemma_distinct_indices_bound(chain@, tree.nodes@.len() as int);
            }
            walk(tree, t, chain, acc, warnings);
            chain.pop();
            assert(chain@ =~= pre@);
        },
        FsNodeKind::Dir { children } => {
            proof {
                assert(tree.nodes@[idx as int].kind is Dir);
                assert(tree.nodes@[idx as int].kind->Dir_children@ == children@);
            }
            chain.push(idx);
            proof {
                assert(chain@.no_duplicates()) by {
                    assert(forall|j: int| 0 <= j < pre@.len() ==> pre@[j] != idx);
                }
                lemma_distinct_indices_bound(chain@, tree.nodes@.len() as int);
            }
            let ghost pushed = chain@;
            let m = children.len();
            let mut j: usize = 0;
            while j < m
                invariant
                    tree.wf(),
                    idx < tree.nodes@.len(),
                    m == children@.len(),
                    tree.nodes@[idx as int].kind->Dir_children@ == children@,
                    tree.nodes@[idx as int].kind is Dir,
                    j <= m,
                    pre@ == old(chain)@,
                    chain@ == pushed,
                    pushed == pre@.push(idx),
                    chain@.len() <= tree.nodes@.len(),
                    chain@.no_duplicates(),
                    forall|x: int| 0 <= x < chain@.len() ==> (#[trigger] chain@[x] as int)
                        < tree.nodes@.len(),
                    forall|x: int|
                        0 <= x < chain@.len() ==> !(tree.nodes@[#[trigger] chain@[x] as int].kind
                            is File),
                    acc.wf(),
                    forall|id: FilesystemIdentity| #[trigger]
                        old(acc).spec_contains(id) ==> acc.spec_contains(id),
                    forall|id: FilesystemIdentity| #[trigger]
                        acc.spec_contains(id) ==> is_file_entry(*tree, id, acc.spec_path(id)),
                    (forall|x: int| 0 <= x < pre@.len() ==> (#[trigger] pre@[x] as int) < idx)
                        ==> forall|id: FilesystemIdentity| #[trigger]
                        files_under_prefix(*tree, idx as int, children@, j as int).contains(id)
                            ==> acc.spec_contains(id),
                decreases m - j,
            {
                let c = children[j];
                assert((idx as int) < c < tree.nodes@.len());
                assert(chain@.len() == pre@.len() + 1);
                walk(tree, c, chain, acc, warnings);
                proof {
                    if forall|x: int| 0 <= x < pre@.len() ==> (#[trigger] pre@[x] as int) < idx {
                        assert(forall|x: int|
                            0 <= x < pushed.len() ==> (#[trigger] pushed[x] as int) < c);
                        assert forall|id: FilesystemIdentity| #[trigger]
                            files_under_prefix(*tree, idx as int, children@, j + 1).contains(
                            id,
                        ) implies acc.spec_contains(id) by {
                            assert(files_under_prefix(*tree, idx as int, children@, j + 1)
                                == files_under_prefix(*tree, idx as int, children@, j as int).union(
                                files_under(*tree, c as int),
                            ));
                            if files_under_prefix(*tree, idx as int, children@, j as int).contains(
                                id,
                            ) {
                            } else {
                                assert(files_under(*tree, c as int).contains(id));
                            }
                        }
                    }
                }
                j = j + 1;
            }
            proof {
                assert(files_under(*tree, idx as int) == files_under_prefix(
                    *tree,
                    idx as int,
                    children@,
                    children@.len() as int,
                ));
            }
            chain.pop();
            assert(chain@ =~= pre@);
        },
    }
}

/// Indexes the tree under `root`: every regular file in the subtree (by
/// directory edges) contributes its `(device, inode)` identity mapped to its
/// canonical path, and everything indexed really is such a file. Unreadable
/// descendants and skipped link cycles are recorded as warnings rather than
/// aborting the scan.
pub fn get_inodes(tree: &FsTree, root: usize) -> (r: (IndexedTree, Vec<ScanWarning>))
    requires
        tree.wf(),
        root < tree.nodes@.len(),
    ensures
        r.0.wf(),
        forall|id: FilesystemIdentity| #[trigger]
            files_under(*tree, root as int).contains(id) ==> r.0.spec_contains(id),
        forall|id: FilesystemIdentity| #[trigger]
            r.0.spec_contains(id) ==> is_file_entry(*tree, id, r.0.spec_path(id)),
{
    let mut chain: Vec<usize> = Vec::new();
    let mut acc = IndexedTree::new();
    let mut warnings: Vec<ScanWarning> = Vec::new();
    walk(tree, root, &mut chain, &mut acc, &mut warnings);
    (acc, warnings)
}

} // verus!
