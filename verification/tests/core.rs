use seed_reconciler::correlate::get_linked_files;
use seed_reconciler::fstree::{FsNode, FsNodeKind, FsTree};
use seed_reconciler::index::{get_inodes, IndexedTree};
use seed_reconciler::reconcile::{list_unseed_files, reconcile};
use seed_reconciler::registry::{make_transfers, match_torrent_info};
use seed_reconciler::resolve::resolve;
use seed_reconciler::rootset::{deal_torrent_path, TranslatedRootSet};
use seed_reconciler::types::{
    FilesystemIdentity, MappingRelation, ScanWarning, Torrent, TorrentFault,
};

fn id(device: u64, inode: u64) -> FilesystemIdentity {
    FilesystemIdentity { device, inode }
}

fn rel(source_tag: &str, client_dir: &str, manager_dir: &str) -> MappingRelation {
    MappingRelation {
        source_tag: source_tag.to_string(),
        client_dir: client_dir.to_string(),
        manager_dir: manager_dir.to_string(),
    }
}

fn file(dev: u64, ino: u64, path: &str) -> FsNode {
    FsNode { identity: id(dev, ino), path: path.to_string(), kind: FsNodeKind::File }
}

fn dir(dev: u64, ino: u64, path: &str, children: Vec<usize>) -> FsNode {
    FsNode { identity: id(dev, ino), path: path.to_string(), kind: FsNodeKind::Dir { children } }
}

#[test]
fn http_get() {
    assert_ne!(2 + 2, 5);
}

#[test]
fn resolver_longest_prefix_wins() {
    let relations = vec![rel("tagX", "/a/b", "/lib/b"), rel("tagX", "/a", "/lib/a")];
    let r = resolve("tagX", "/a/b/c", &relations);
    assert!(r.resolved);
    assert_eq!(r.path, "/lib/b/c");
}

#[test]
fn resolver_matches_on_segment_boundary_only() {
    let relations = vec![rel("t", "/data/show", "/lib/show")];
    let miss = resolve("t", "/data/show2/x", &relations);
    assert!(!miss.resolved);
    assert_eq!(miss.path, "/data/show2/x");
    let hit = resolve("t", "/data/show/x", &relations);
    assert!(hit.resolved);
    assert_eq!(hit.path, "/lib/show/x");
}

#[test]
fn resolver_filters_by_source_tag() {
    let relations = vec![rel("other", "/a", "/lib/a")];
    let r = resolve("tagX", "/a/b", &relations);
    assert!(!r.resolved);
    assert_eq!(r.path, "/a/b");
}

#[test]
fn correlate_no_shared_storage_is_empty() {
    let mut src = IndexedTree::new();
    src.insert(id(1, 100), "/s/a".to_string());
    src.insert(id(1, 101), "/s/b".to_string());
    let mut dst = IndexedTree::new();
    dst.insert(id(1, 102), "/d/a".to_string());
    dst.insert(id(2, 100), "/d/b".to_string());
    let records = get_linked_files(&src, &dst);
    assert!(records.is_empty());
}

#[test]
fn correlate_shared_identity_gives_one_record() {
    let mut src = IndexedTree::new();
    src.insert(id(1, 100), "/s/a".to_string());
    src.insert(id(1, 101), "/s/b".to_string());
    let mut dst = IndexedTree::new();
    dst.insert(id(2, 100), "/d/c".to_string());
    dst.insert(id(1, 101), "/d/b".to_string());
    let records = get_linked_files(&src, &dst);
    assert_eq!(records.len(), 1);
    assert_eq!(records[0].identity, id(1, 101));
    assert_eq!(records[0].source_path, "/s/b");
    assert_eq!(records[0].dest_path, "/d/b");

    // Same trees indexed in another visiting order: same single record.
    let mut dst2 = IndexedTree::new();
    dst2.insert(id(1, 101), "/d/b".to_string());
    dst2.insert(id(2, 100), "/d/c".to_string());
    let records2 = get_linked_files(&src, &dst2);
    assert_eq!(records2.len(), 1);
    assert_eq!(records2[0].identity, id(1, 101));
    assert_eq!(records2[0].source_path, "/s/b");
    assert_eq!(records2[0].dest_path, "/d/b");
}

fn library_tree() -> FsTree {
    FsTree {
        nodes: vec![
            dir(1, 10, "/lib", vec![1, 4]),
            dir(1, 11, "/lib/show1", vec![2, 3]),
            file(1, 12, "/lib/show1/ep1"),
            file(1, 13, "/lib/show1/ep2"),
            dir(1, 14, "/lib/show2", vec![5]),
            file(1, 15, "/lib/show2/ep1"),
        ],
    }
}

fn show1_roots() -> TranslatedRootSet {
    let mut roots = TranslatedRootSet::new();
    roots.insert(
        "/lib/show1".to_string(),
        Torrent { file: Some("/lib/show1".to_string()), source: "tr".to_string() },
    );
    roots
}

#[test]
fn reconcile_reports_only_maximal_orphans() {
    let tree = library_tree();
    let (orphans, warnings) = reconcile(&tree, 0, show1_roots());
    assert_eq!(orphans, vec!["/lib/show2".to_string()]);
    assert!(warnings.is_empty());
}

#[test]
fn reconcile_twice_gives_identical_results() {
    let tree = library_tree();
    let (first, _) = reconcile(&tree, 0, show1_roots());
    let (second, _) = reconcile(&tree, 0, show1_roots());
    assert_eq!(first, second);
}

#[test]
fn reconcile_empty_directory_is_orphaned() {
    let tree = FsTree { nodes: vec![dir(1, 10, "/r", vec![])] };
    let (orphans, _) = reconcile(&tree, 0, TranslatedRootSet::new());
    assert_eq!(orphans, vec!["/r".to_string()]);
}

#[test]
fn reconcile_fully_covered_tree_reports_nothing() {
    let tree = library_tree();
    let mut roots = TranslatedRootSet::new();
    roots.insert(
        "/lib".to_string(),
        Torrent { file: Some("/lib".to_string()), source: "tr".to_string() },
    );
    let (orphans, _) = reconcile(&tree, 0, roots);
    assert!(orphans.is_empty());
}

#[test]
fn reconcile_unreadable_descendant_never_orphans_ancestors() {
    let tree = FsTree {
        nodes: vec![
            dir(1, 10, "/r", vec![1, 2]),
            FsNode {
                identity: id(1, 11),
                path: "/r/bad".to_string(),
                kind: FsNodeKind::Unreadable,
            },
            file(1, 12, "/r/x"),
        ],
    };
    let (orphans, warnings) = reconcile(&tree, 0, TranslatedRootSet::new());
    // The readable orphan is reported; the unreadable node and its parent
    // are not.
    assert_eq!(orphans, vec!["/r/x".to_string()]);
    assert_eq!(warnings.len(), 1);
    assert!(matches!(
        &warnings[0],
        ScanWarning::DescendantUnreadable { path } if path == "/r/bad"
    ));
}

#[test]
fn index_symlink_cycle_terminates_with_warning() {
    let tree = FsTree {
        nodes: vec![
            dir(1, 10, "/r", vec![1, 2]),
            file(1, 11, "/r/f"),
            FsNode {
                identity: id(1, 12),
                path: "/r/loop".to_string(),
                kind: FsNodeKind::Symlink { target: 0 },
            },
        ],
    };
    let (index, warnings) = get_inodes(&tree, 0);
    assert_eq!(index.len(), 1);
    assert_eq!(index.entries[0].0, id(1, 11));
    assert_eq!(index.entries[0].1, "/r/f");
    assert_eq!(warnings.len(), 1);
    assert!(matches!(&warnings[0], ScanWarning::SymlinkCycle { path } if path == "/r"));
}

#[test]
fn index_records_every_file_with_its_path() {
    let tree = library_tree();
    let (index, warnings) = get_inodes(&tree, 0);
    assert!(warnings.is_empty());
    assert_eq!(index.len(), 3);
    let mut pairs: Vec<(u64, String)> = index
        .entries
        .iter()
        .map(|(i, p)| (i.inode, p.clone()))
        .collect();
    pairs.sort();
    assert_eq!(
        pairs,
        vec![
            (12, "/lib/show1/ep1".to_string()),
            (13, "/lib/show1/ep2".to_string()),
            (15, "/lib/show2/ep1".to_string()),
        ]
    );
}

#[test]
fn index_unreadable_descendant_does_not_abort() {
    let tree = FsTree {
        nodes: vec![
            dir(1, 10, "/r", vec![1, 2]),
            FsNode {
                identity: id(1, 11),
                path: "/r/bad".to_string(),
                kind: FsNodeKind::Unreadable,
            },
            file(1, 12, "/r/x"),
        ],
    };
    let (index, warnings) = get_inodes(&tree, 0);
    assert_eq!(index.len(), 1);
    assert_eq!(warnings.len(), 1);
    assert!(matches!(
        &warnings[0],
        ScanWarning::DescendantUnreadable { path } if path == "/r/bad"
    ));
}

#[test]
fn deal_torrent_path_keeps_resolved_transfers_only() {
    let torrents = vec![
        Torrent { file: Some("/dl/show".to_string()), source: "tr".to_string() },
        Torrent { file: None, source: "tr".to_string() },
        Torrent { file: Some("/elsewhere/x".to_string()), source: "tr".to_string() },
        Torrent { file: Some("/dl/other".to_string()), source: "unmapped".to_string() },
    ];
    let relations = vec![rel("tr", "/dl", "/lib")];
    let mut roots = deal_torrent_path(torrents, &relations);
    assert_eq!(roots.len(), 1);
    assert!(roots.contains_key("/lib/show"));
    let kept = roots.take("/lib/show").expect("root present");
    assert_eq!(kept.file, Some("/lib/show".to_string()));
    assert_eq!(kept.source, "tr");
    assert_eq!(roots.len(), 0);
}

#[test]
fn deal_torrent_path_shared_root_keeps_one_entry() {
    let torrents = vec![
        Torrent { file: Some("/dl/s".to_string()), source: "tr".to_string() },
        Torrent { file: Some("/dl/s".to_string()), source: "tr".to_string() },
    ];
    let relations = vec![rel("tr", "/dl", "/lib")];
    let roots = deal_torrent_path(torrents, &relations);
    assert_eq!(roots.len(), 1);
    assert!(roots.contains_key("/lib/s"));
}

#[test]
fn list_unseed_files_translates_and_reconciles() {
    let tree = library_tree();
    let torrents = vec![Torrent {
        file: Some("/dl/show1".to_string()),
        source: "tr".to_string(),
    }];
    let relations = vec![rel("tr", "/dl", "/lib")];
    let (orphans, warnings) = list_unseed_files(torrents, &relations, &tree, &vec![0]);
    assert_eq!(orphans, vec!["/lib/show2".to_string()]);
    assert!(warnings.is_empty());
}

#[test]
fn make_transfers_tags_every_save_path() {
    let transfers = make_transfers(
        vec![Some("/dl/a".to_string()), None, Some("/dl/b".to_string())],
        "qb",
    );
    assert_eq!(transfers.len(), 3);
    assert_eq!(transfers[0].file, Some("/dl/a".to_string()));
    assert_eq!(transfers[0].source, "qb");
    assert_eq!(transfers[1].file, None);
    assert_eq!(transfers[2].file, Some("/dl/b".to_string()));
}

#[test]
fn match_torrent_info_filters_faulted_by_text() {
    let faults = vec![
        TorrentFault {
            faulted: true,
            error_string: Some("Ensure your drives are connected or use X".to_string()),
        },
        TorrentFault {
            faulted: false,
            error_string: Some("Ensure your drives are connected".to_string()),
        },
        TorrentFault { faulted: true, error_string: None },
        TorrentFault { faulted: true, error_string: Some("something else".to_string()) },
    ];
    assert_eq!(match_torrent_info(&faults, "drives"), vec![0]);
    // An empty query matches every faulted torrent, text or no text.
    assert_eq!(match_torrent_info(&faults, ""), vec![0, 2, 3]);
    assert_eq!(match_torrent_info(&faults, "nowhere"), Vec::<usize>::new());
}
