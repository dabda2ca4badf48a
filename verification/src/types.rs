//! Core data model: filesystem identities, transfers, mapping relations,
//! hardlink records, and the seed-status taxonomy.

use vstd::prelude::*;

verus! {

/// The `(device, inode)` pair that uniquely names a piece of on-disk storage
/// within one machine. Inode numbers alone are only unique per device, so the
/// pair is mandatory for cross-tree identity.
#[derive(PartialEq, Eq, Structural, Clone, Copy, Debug, Hash)]
pub struct FilesystemIdentity {
    pub device: u64,
    pub inode: u64,
}

/// An active item tracked by a download client: an optional save location as
/// reported by the backend, and the tag of the backend it came from.
/// A missing `file` means the backend reported no retrievable location.
#[derive(Debug, Clone, PartialEq, Eq)]
pub struct Torrent {
    pub file: Option<String>,
    pub source: String,
}

/// Mathematical model of a [`Torrent`]: the save path and source tag as
/// character sequences.
pub struct TorrentView {
    pub file: Option<Seq<char>>,
    pub source: Seq<char>,
}

impl View for Torrent {
    type V = TorrentView;

    open spec fn view(&self) -> TorrentView {
        TorrentView {
            file: match self.file {
                Some(ref p) => Some(p@),
                None => None,
            },
            source: self.source@,
        }
    }
}

/// A configured equivalence between a download client's view of a directory
/// and the corresponding directory in the managed library, valid for one
/// backend tag.
#[derive(Debug, Clone)]
pub struct MappingRelation {
    pub source_tag: String,
    pub client_dir: String,
    pub manager_dir: String,
}

/// Mathematical model of a [`MappingRelation`].
pub struct MappingRelationView {
    pub source_tag: Seq<char>,
    pub client_dir: Seq<char>,
    pub manager_dir: Seq<char>,
}

impl View for MappingRelation {
    type V = MappingRelationView;

    open spec fn view(&self) -> MappingRelationView {
        MappingRelationView {
            source_tag: self.source_tag@,
            client_dir: self.client_dir@,
            manager_dir: self.manager_dir@,
        }
    }
}

/// The outcome of translating a client-side save path into the managed
/// library's namespace: the translated path, and whether any configured
/// relation actually matched. An unresolved path is returned unchanged.
#[derive(Debug, Clone)]
pub struct ResolvedPath {
    pub path: String,
    pub resolved: bool,
}

/// A proven same-data relationship between one file in a source tree and one
/// file in a destination tree: both paths refer to storage with the same
/// filesystem identity.
#[derive(Debug, Clone)]
pub struct HardlinkRecord {
    pub identity: FilesystemIdentity,
    pub source_path: String,
    pub dest_path: String,
}

/// Seed status of one node of the library tree.
#[derive(PartialEq, Eq, Structural, Clone, Copy, Debug)]
pub enum SeedStatus {
    /// The node's canonical path is itself a registered transfer root; the
    /// whole subtree is considered covered by that transfer.
    Seeding,
    /// The node and everything beneath it is unreferenced by any transfer.
    AllOrphaned,
    /// Some but not all descendants are referenced, or the node's true status
    /// is unknown (for example an unreadable directory).
    Mixed,
}

/// A non-fatal condition recorded during a scan. Warnings never abort a scan;
/// they bias the result toward the conservative "not orphaned" outcome.
#[derive(Debug, Clone)]
pub enum ScanWarning {
    /// A symbolic link resolved to an identity already on the current
    /// traversal chain; the link was skipped.
    SymlinkCycle { path: String },
    /// A descendant could not be read; it was excluded from indexing or
    /// conservatively treated as `Mixed` by reconciliation.
    DescendantUnreadable { path: String },
}

/// What the fault filter reads of one tracked torrent: whether the backend
/// reports it in a non-OK state, and the error text it carries, if any.
#[derive(Debug, Clone)]
pub struct TorrentFault {
    pub faulted: bool,
    pub error_string: Option<String>,
}

/// Credentials for one download-client backend. Consumed only by the session
/// plumbing around the library; carried here so that callers and the library
/// share one shape for it.
#[derive(Debug, Clone)]
pub struct User {
    pub url: String,
    pub username: String,
    pub password: String,
}

/// The two directory trees a hardlink correlation run compares, as given on
/// the command line.
#[derive(Debug, Clone)]
pub struct Cli {
    pub source_dir: String,
    pub dest_dir: String,
}

} // verus!
