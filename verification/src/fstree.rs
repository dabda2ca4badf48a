//! In-memory snapshot of a directory tree, the value the indexer and the
//! reconciler walk. Nodes live in an arena; directory entries point at
//! strictly larger indices, so directory edges form a tree, while a symbolic
//! link may point anywhere — including back at an ancestor, which is how
//! link cycles are represented.

use vstd::prelude::*;

use crate::types::FilesystemIdentity;

verus! {

/// What one node of the snapshot is.
pub enum FsNodeKind {
    /// A regular file.
    File,
    /// A directory; `children` are arena indices of its entries.
    Dir { children: Vec<usize> },
    /// A symbolic link, already resolved to the arena index of its target.
    Symlink { target: usize },
    /// A node whose contents could not be read (for example a directory with
    /// revoked read permission). Its true contents are unknown.
    Unreadable,
}

/// One node of the snapshot: its filesystem identity, its canonical path,
/// and what it is.
pub struct FsNode {
    pub identity: FilesystemIdentity,
    pub path: String,
    pub kind: FsNodeKind,
}

/// A directory-tree snapshot.
pub struct FsTree {
    pub nodes: Vec<FsNode>,
}

impl FsTree {
    /// Well-formedness of a snapshot:
    /// - directory entries point forward in the arena (directory edges form
    ///   a tree) and stay in bounds, as do symlink targets;
    /// - only regular files may share a filesystem identity (hardlinks);
    ///   a directory or link never shares its identity with any other node.
    pub open spec fn wf(self) -> bool {
        &&& forall|i: int|
            0 <= i < self.nodes@.len() && (#[trigger] self.nodes@[i].kind) is Dir
                ==> forall|j: int|
                0 <= j < self.nodes@[i].kind->Dir_children@.len() ==> i < (
                #[trigger] self.nodes@[i].kind->Dir_children@[j] as int) < self.nodes@.len()
        &&& forall|i: int|
            0 <= i < self.nodes@.len() && (#[trigger] self.nodes@[i].kind) is Symlink
                ==> self.nodes@[i].kind->Symlink_target < self.nodes@.len()
        &&& forall|i: int, j: int|
            0 <= i < j < self.nodes@.len() && !(self.nodes@[i].kind is File
                && self.nodes@[j].kind is File) ==> #[trigger] self.nodes@[i].identity
                != #[trigger] self.nodes@[j].identity
    }

    /// The number of nodes.
    pub open spec fn spec_len(self) -> nat {
        self.nodes@.len()
    }
}

/// The identities of the regular files in the subtree under node `i`,
/// following directory edges only. Out-of-range or backward indices
/// contribute nothing, so the definition is total; on a well-formed tree the
/// guards never bite.
pub open spec fn files_under(t: FsTree, i: int) -> Set<FilesystemIdentity>
    decreases t.nodes@.len() - i, 1int, 0int,
{
    if 0 <= i < t.nodes@.len() {
        match t.nodes@[i].kind {
            FsNodeKind::File => Set::empty().insert(t.nodes@[i].identity),
            FsNodeKind::Dir { children } => files_under_prefix(t, i, children@, children@.len() as int),
            _ => Set::empty(),
        }
    } else {
        Set::empty()
    }
}

/// The identities of the regular files under the first `j` children of the
/// directory at node `i`.
pub open spec fn files_under_prefix(t: FsTree, i: int, cs: Seq<usize>, j: int) -> Set<
    FilesystemIdentity,
>
    decreases t.nodes@.len() - i, 0int, j,
{
    if 0 < j <= cs.len() {
        let rest = files_under_prefix(t, i, cs, j - 1);
        if i < cs[j - 1] < t.nodes@.len() {
            rest.union(files_under(t, cs[j - 1] as int))
        } else {
            rest
        }
    } else {
        Set::empty()
    }
}

} // verus!
