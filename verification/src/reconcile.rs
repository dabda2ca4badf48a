//! Seed Status Reconciler: walks the library tree bottom-up against the
//! translated transfer roots and reports the maximal fully-orphaned
//! subtrees. A node whose canonical path is a registered root is `Seeding`
//! and its subtree is not inspected (the matched root is consumed from a
//! working copy); an unreadable node is conservatively `Mixed`, never
//! orphaned; a directory aggregates its children. A path is reported only
//! when it is fully orphaned and its parent is not, so nested orphans are
//! never reported twice.

use vstd::prelude::*;

use crate::fstree::FsNodeKind;
use crate::fstree::FsTree;
use crate::rootset::contributes;
use crate::rootset::deal_torrent_path;
use crate::rootset::retained_for;
use crate::rootset::root_key;
use crate::rootset::TranslatedRootSet;
use crate::types::MappingRelation;
use crate::types::ScanWarning;
use crate::types::SeedStatus;
use crate::types::Torrent;

verus! {

/// A sequence of owned paths, as a sequence of character sequences.
pub open spec fn paths_view(v: Seq<String>) -> Seq<Seq<char>> {
    v.map_values(|s: String| s@)
}

proof fn lemma_paths_view_push(v: Seq<String>, s: String)
    ensures
        paths_view(v.push(s)) == paths_view(v).push(s@),
{
    assert(paths_view(v.push(s)) =~= paths_view(v).push(s@));
}

/// What reconciling one node yields: its status, the root keys left in the
/// working copy, and the orphan subtree roots emitted beneath it.
pub struct ReconOutcome {
    pub status: SeedStatus,
    pub roots: Set<Seq<char>>,
    pub emitted: Seq<Seq<char>>,
}

/// The state of folding a directory's children in order: the aggregate
/// status so far (`None` before any child), the root keys left, the orphan
/// roots already emitted by mixed children, and the paths of fully-orphaned
/// children waiting on the parent's verdict.
pub struct ChildFold {
    pub agg: Option<SeedStatus>,
    pub roots: Set<Seq<char>>,
    pub stream: Seq<Seq<char>>,
    pub orphans: Seq<Seq<char>>,
}

/// Combining the aggregate so far with the next child's status: equal
/// statuses keep it, differing ones make the directory `Mixed`.
pub open spec fn combine(agg: Option<SeedStatus>, s: SeedStatus) -> SeedStatus {
    match agg {
        Option::None => s,
        Option::Some(x) => if x == s {
            x
        } else {
            SeedStatus::Mixed
        },
    }
}

/// Reconciliation of the node at arena index `i` with working roots
/// `roots`. Out-of-range indices are conservatively `Mixed`; on a
/// well-formed tree they are never reached.
pub open spec fn recon_spec(t: FsTree, i: int, roots: Set<Seq<char>>) -> ReconOutcome
    decreases t.nodes@.len() - i, 1int, 0int,
{
    if 0 <= i < t.nodes@.len() {
        if roots.contains(t.nodes@[i].path@) {
            ReconOutcome {
                status: SeedStatus::Seeding,
                roots: roots.remove(t.nodes@[i].path@),
                emitted: Seq::empty(),
            }
        } else {
            match t.nodes@[i].kind {
                FsNodeKind::File => ReconOutcome {
                    status: SeedStatus::AllOrphaned,
                    roots,
                    emitted: Seq::empty(),
                },
                FsNodeKind::Symlink { .. } => ReconOutcome {
                    status: SeedStatus::AllOrphaned,
                    roots,
                    emitted: Seq::empty(),
                },
                FsNodeKind::Unreadable => ReconOutcome {
                    status: SeedStatus::Mixed,
                    roots,
                    emitted: Seq::empty(),
                },
                FsNodeKind::Dir { children } => {
                    let fold = recon_children(t, i, children@, children@.len() as int, roots);
                    let agg = match fold.agg {
                        Option::None => SeedStatus::AllOrphaned,
                        Option::Some(s) => s,
                    };
                    if agg == SeedStatus::AllOrphaned {
                        ReconOutcome {
                            status: SeedStatus::AllOrphaned,
                            roots: fold.roots,
                            emitted: Seq::empty(),
                        }
                    } else {
                        ReconOutcome { status: agg, roots: fold.roots, emitted: fold.stream + fold.orphans }
                    }
                },
            }
        }
    } else {
        ReconOutcome { status: SeedStatus::Mixed, roots, emitted: Seq::empty() }
    }
}

/// Folds the first `j` children of the directory at node `i`, threading the
/// working roots left to right.
pub open spec fn recon_children(
    t: FsTree,
    i: int,
    cs: Seq<usize>,
    j: int,
    roots: Set<Seq<char>>,
) -> ChildFold
    decreases t.nodes@.len() - i, 0int, j,
{
    if 0 < j <= cs.len() {
        let prev = recon_children(t, i, cs, j - 1, roots);
        if i < cs[j - 1] < t.nodes@.len() {
            let c = cs[j - 1] as int;
            let child = recon_spec(t, c, prev.roots);
            ChildFold {
                agg: Some(combine(prev.agg, child.status)),
                roots: child.roots,
                stream: prev.stream + child.emitted,
                orphans: if child.status == SeedStatus::AllOrphaned {
                    prev.orphans.push(t.nodes@[c].path@)
                } else {
                    prev.orphans
                },
            }
        } else {
            prev
        }
    } else {
        ChildFold { agg: None, roots, stream: Seq::empty(), orphans: Seq::empty() }
    }
}

/// A node whose status is fully orphaned emitted nothing beneath itself:
/// its whole subtree is covered by reporting the node once, one level up.
pub proof fn lemma_orphaned_no_emit(t: FsTree, i: int, roots: Set<Seq<char>>)
    requires
        recon_spec(t, i, roots).status == SeedStatus::AllOrphaned,
    ensures
        recon_spec(t, i, roots).emitted == Seq::<Seq<char>>::empty(),
{
}

/// When the fold of a directory's children aggregates to fully orphaned (or
/// the directory is empty), no child emitted anything.
pub proof fn lemma_orphaned_stream_empty(
    t: FsTree,
    i: int,
    cs: Seq<usize>,
    j: int,
    roots: Set<Seq<char>>,
)
    requires
        recon_children(t, i, cs, j, roots).agg is None || recon_children(t, i, cs, j, roots).agg
            == Some(SeedStatus::AllOrphaned),
    ensures
        recon_children(t, i, cs, j, roots).stream == Seq::<Seq<char>>::empty(),
    decreases j,
{
    if 0 < j <= cs.len() {
        let prev = recon_children(t, i, cs, j - 1, roots);
        if i < cs[j - 1] < t.nodes@.len() {
            let c = cs[j - 1] as int;
            let child = recon_spec(t, c, prev.roots);
            assert(combine(prev.agg, child.status) == SeedStatus::AllOrphaned);
            assert(child.status == SeedStatus::AllOrphaned);
            assert(prev.agg is None || prev.agg == Some(SeedStatus::AllOrphaned));
            lemma_orphaned_stream_empty(t, i, cs, j - 1, roots);
            lemma_orphaned_no_emit(t, c, prev.roots);
            assert(prev.stream + child.emitted =~= Seq::<Seq<char>>::empty());
        } else {
            lemma_orphaned_stream_empty(t, i, cs, j - 1, roots);
        }
    }
}

/// Bottom-up reconciliation of one node. Returns the node's status; appends
/// the maximal orphan roots found strictly beneath it to `out`; consumes
/// matched roots from the working copy; records unreadable descendants.
pub fn get_unseed_files(
    tree: &FsTree,
    idx: usize,
    roots: &mut TranslatedRootSet,
    out: &mut Vec<String>,
    warnings: &mut Vec<ScanWarning>,
) -> (s: SeedStatus)
    requires
        tree.wf(),
        idx < tree.nodes@.len(),
        old(roots).wf(),
    ensures
        final(roots).wf(),
        s == recon_spec(*tree, idx as int, old(roots).key_set()).status,
        final(roots).key_set() == recon_spec(*tree, idx as int, old(roots).key_set()).roots,
        paths_view(final(out)@) == paths_view(old(out)@) + recon_spec(
            *tree,
            idx as int,
            old(roots).key_set(),
        ).emitted,
    decreases tree.nodes@.len() - idx,
{
    let ghost keys0 = old(roots).key_set();
    let ghost out0 = old(out)@;
    let ghost p = tree.nodes@[idx as int].path@;
    match roots.take(tree.nodes[idx].path.as_str()) {
        Some(_) => {
            proof {
                assert(keys0.contains(p));
                assert(roots.key_set() =~= keys0.remove(p));
                assert(paths_view(out@) =~= paths_view(out0) + Seq::<Seq<char>>::empty());
            }
            return SeedStatus::Seeding;
        },
        None => {
            proof {
                assert(!keys0.contains(p));
                assert(roots.key_set() =~= keys0);
            }
        },
    }
    match &tree.nodes[idx].kind {
        FsNodeKind::File => {
            proof {
                assert(paths_view(out@) =~= paths_view(out0) + Seq::<Seq<char>>::empty());
            }
            SeedStatus::AllOrphaned
        },
        FsNodeKind::Symlink { .. } => {
            proof {
                assert(paths_view(out@) =~= paths_view(out0) + Seq::<Seq<char>>::empty());
            }
            SeedStatus::AllOrphaned
        },
        FsNodeKind::Unreadable => {
            // Unknown contents must never look deletable: the node counts as
            // mixed, and the condition is recorded.
            warnings.push(
                ScanWarning::DescendantUnreadable { path: tree.nodes[idx].path.clone() },
            );
            proof {
                assert(paths_view(out@) =~= paths_view(out0) + Seq::<Seq<char>>::empty());
            }
            SeedStatus::Mixed
        },
        FsNodeKind::Dir { children } => {
            proof {
                assert(tree.nodes@[idx as int].kind is Dir);
                assert(tree.nodes@[idx as int].kind->Dir_children@ == children@);
            }
            let m = children.len();
            let mut agg: Option<SeedStatus> = None;
            let mut deferred: Vec<String> = Vec::new();
            let mut j: usize = 0;
            while j < m
                invariant
                    tree.wf(),
                    idx < tree.nodes@.len(),
                    m == children@.len(),
                    tree.nodes@[idx as int].kind->Dir_children@ == children@,
                    tree.nodes@[idx as int].kind is Dir,
                    j <= m,
                    roots.wf(),
                    ({
                        let fold = recon_children(*tree, idx as int, children@, j as int, keys0);
                        &&& agg == fold.agg
                        &&& roots.key_set() == fold.roots
                        &&& paths_view(out@) == paths_view(out0) + fold.stream
                        &&& paths_view(deferred@) == fold.orphans
                    }),
                decreases m - j,
            {
                let ghost fold_pre = recon_children(*tree, idx as int, children@, j as int, keys0);
                let c = children[j];
                assert((idx as int) < c < tree.nodes@.len());
                let ghost keys_pre = roots.key_set();
                let ghost out_pre = out@;
                let s = get_unseed_files(tree, c, roots, out, warnings);
                let ghost child = recon_spec(*tree, c as int, keys_pre);
                if s == SeedStatus::AllOrphaned {
                    let ghost deferred_pre = deferred@;
                    deferred.push(tree.nodes[c].path.clone());
                    proof {
                        lemma_paths_view_push(deferred_pre, tree.nodes@[c as int].path);
                    }
                }
                agg = match agg {
                    None => Some(s),
                    Some(x) => if x == s {
                        Some(x)
                    } else {
                        Some(SeedStatus::Mixed)
                    },
                };
                proof {
                    let fold_post = recon_children(
                        *tree,
                        idx as int,
                        children@,
                        j + 1,
                        keys0,
                    );
                    assert(fold_post.agg == Some(combine(fold_pre.agg, child.status)));
                    assert(paths_view(out@) =~= paths_view(out0) + (fold_pre.stream
                        + child.emitted));
                }
                j = j + 1;
            }
            let final_agg = match agg {
                None => SeedStatus::AllOrphaned,
                Some(x) => x,
            };
            let ghost fold = recon_children(*tree, idx as int, children@, m as int, keys0);
            if final_agg == SeedStatus::AllOrphaned {
                proof {
                    lemma_orphaned_stream_empty(*tree, idx as int, children@, m as int, keys0);
                    assert(paths_view(out@) =~= paths_view(out0) + Seq::<Seq<char>>::empty());
                }
                SeedStatus::AllOrphaned
            } else {
                // The directory is not fully orphaned, so each fully-orphaned
                // child is a maximal orphan subtree: report them now.
                let dn = deferred.len();
                let mut k: usize = 0;
                while k < dn
                    invariant
                        dn == deferred@.len(),
                        k <= dn,
                        paths_view(deferred@) == fold.orphans,
                        paths_view(out@) == paths_view(out0) + fold.stream + fold.orphans.take(
                            k as int,
                        ),
                    decreases dn - k,
                {
                    let ghost out_pre2 = out@;
                    out.push(deferred[k].clone());
                    proof {
                        lemma_paths_view_push(out_pre2, deferred@[k as int]);
                        assert(paths_view(deferred@)[k as int] == deferred@[k as int]@);
                        assert(fold.orphans.take(k + 1) =~= fold.orphans.take(k as int).push(
                            fold.orphans[k as int],
                        ));
                    }
                    k = k + 1;
                }
                proof {
                    assert(fold.orphans.take(dn as int) =~= fold.orphans);
                    assert(paths_view(out@) =~= paths_view(out0) + (fold.stream + fold.orphans));
                }
                final_agg
            }
        },
    }
}

/// The full result of reconciling one library root: the maximal orphan
/// subtree roots beneath it, with the root itself reported when the whole
/// tree is orphaned.
pub open spec fn reconcile_spec(t: FsTree, root: int, keys: Set<Seq<char>>) -> Seq<Seq<char>> {
    let res = recon_spec(t, root, keys);
    if res.status == SeedStatus::AllOrphaned {
        res.emitted.push(t.nodes@[root].path@)
    } else {
        res.emitted
    }
}

/// Reconciles one library root against the translated transfer roots,
/// returning the maximal fully-orphaned subtree roots and the warnings
/// recorded along the way. The root set is a working copy consumed by value;
/// the caller's tree is only read.
pub fn reconcile(tree: &FsTree, root: usize, roots: TranslatedRootSet) -> (r: (
    Vec<String>,
    Vec<ScanWarning>,
))
    requires
        tree.wf(),
        root < tree.nodes@.len(),
        roots.wf(),
    ensures
        paths_view(r.0@) == reconcile_spec(*tree, root as int, roots.key_set()),
{
    let mut work = roots;
    let mut out: Vec<String> = Vec::new();
    let mut warnings: Vec<ScanWarning> = Vec::new();
    let ghost keys0 = work.key_set();
    let s = get_unseed_files(tree, root, &mut work, &mut out, &mut warnings);
    if s == SeedStatus::AllOrphaned {
        let ghost out_pre = out@;
        out.push(tree.nodes[root].path.clone());
        proof {
            lemma_paths_view_push(out_pre, tree.nodes@[root as int].path);
            assert(paths_view(out_pre) =~= recon_spec(*tree, root as int, keys0).emitted);
        }
    }
    (out, warnings)
}

/// Reconciliation is repeatable: its result is a function of the tree and
/// the root-key set alone, so running it twice on an unchanged tree and an
/// unchanged transfer set — even through two distinct working copies holding
/// the same keys — yields identical result sequences.
pub proof fn lemma_reconcile_repeatable(
    t: FsTree,
    root: int,
    r1: TranslatedRootSet,
    r2: TranslatedRootSet,
)
    requires
        r1.key_set() == r2.key_set(),
    ensures
        reconcile_spec(t, root, r1.key_set()) == reconcile_spec(t, root, r2.key_set()),
{
}

/// There is an unreadable node in the subtree under `i`, by directory edges.
pub open spec fn has_unreadable(t: FsTree, i: int) -> bool
    decreases t.nodes@.len() - i, 1int, 0int,
{
    if 0 <= i < t.nodes@.len() {
        match t.nodes@[i].kind {
            FsNodeKind::Unreadable => true,
            FsNodeKind::Dir { children } => has_unreadable_prefix(
                t,
                i,
                children@,
                children@.len() as int,
            ),
            _ => false,
        }
    } else {
        false
    }
}

/// There is an unreadable node under one of the first `j` children of the
/// directory at node `i`.
pub open spec fn has_unreadable_prefix(t: FsTree, i: int, cs: Seq<usize>, j: int) -> bool
    decreases t.nodes@.len() - i, 0int, j,
{
    if 0 < j <= cs.len() {
        has_unreadable_prefix(t, i, cs, j - 1) || (i < cs[j - 1] < t.nodes@.len()
            && has_unreadable(t, cs[j - 1] as int))
    } else {
        false
    }
}

/// A node with an unreadable descendant is never fully orphaned, whatever
/// the transfer roots: it resolves to `Mixed`, or to `Seeding` when a root
/// covers it — so neither it nor any of its ancestors can be reported as an
/// orphan subtree.
pub proof fn lemma_unreadable_not_orphaned(t: FsTree, i: int, roots: Set<Seq<char>>)
    requires
        0 <= i < t.nodes@.len(),
        has_unreadable(t, i),
    ensures
        recon_spec(t, i, roots).status != SeedStatus::AllOrphaned,
    decreases t.nodes@.len() - i, 1int, 0int,
{
    if !roots.contains(t.nodes@[i].path@) {
        match t.nodes@[i].kind {
            FsNodeKind::Dir { children } => {
                lemma_unreadable_children(t, i, children@, children@.len() as int, roots);
            },
            _ => {},
        }
    }
}

/// When an unreadable node sits under one of the first `j` children, the
/// fold over those children cannot aggregate to fully orphaned.
proof fn lemma_unreadable_children(t: FsTree, i: int, cs: Seq<usize>, j: int, roots: Set<Seq<char>>)
    requires
        has_unreadable_prefix(t, i, cs, j),
    ensures
        recon_children(t, i, cs, j, roots).agg is Some,
        recon_children(t, i, cs, j, roots).agg != Some(SeedStatus::AllOrphaned),
    decreases t.nodes@.len() - i, 0int, j,
{
    let prev = recon_children(t, i, cs, j - 1, roots);
    if has_unreadable_prefix(t, i, cs, j - 1) {
        lemma_unreadable_children(t, i, cs, j - 1, roots);
    } else {
        assert(i < cs[j - 1] < t.nodes@.len() && has_unreadable(t, cs[j - 1] as int));
        lemma_unreadable_not_orphaned(t, cs[j - 1] as int, prev.roots);
    }
}

/// Composing a scan over several library roots: each root is reconciled in
/// turn against what is left of the working root set, and the emitted
/// orphan lists are concatenated.
pub open spec fn list_spec(t: FsTree, lib: Seq<usize>, j: int, keys: Set<Seq<char>>) -> (
    Set<Seq<char>>,
    Seq<Seq<char>>,
)
    decreases j,
{
    if 0 < j <= lib.len() {
        let prev = list_spec(t, lib, j - 1, keys);
        if lib[j - 1] < t.nodes@.len() {
            let res = recon_spec(t, lib[j - 1] as int, prev.0);
            let em = if res.status == SeedStatus::AllOrphaned {
                res.emitted.push(t.nodes@[lib[j - 1] as int].path@)
            } else {
                res.emitted
            };
            (res.roots, prev.1 + em)
        } else {
            prev
        }
    } else {
        (keys, Seq::empty())
    }
}

/// The root keys a transfer list translates to under the configured
/// relations: one key per resolvable transfer.
pub open spec fn translated_keys(ts: Seq<Torrent>, rels: Seq<MappingRelation>) -> Set<Seq<char>> {
    Set::new(
        |k: Seq<char>|
            exists|i: int| #[trigger] contributes(ts, rels, i) && root_key(ts, rels, i) == k,
    )
}

/// The whole reconciliation pass: translates the transfer list into library
/// roots, then reconciles each library tree root in turn against the one
/// working copy, so sibling roots sharing a transfer stay consistent. The
/// result is every maximal fully-orphaned subtree root, with the warnings
/// recorded along the way.
pub fn list_unseed_files(
    torrents: Vec<Torrent>,
    relations: &Vec<MappingRelation>,
    tree: &FsTree,
    library_roots: &Vec<usize>,
) -> (r: (Vec<String>, Vec<ScanWarning>))
    requires
        tree.wf(),
        forall|x: int|
            0 <= x < library_roots@.len() ==> (#[trigger] library_roots@[x] as int)
                < tree.nodes@.len(),
    ensures
        paths_view(r.0@) == list_spec(
            *tree,
            library_roots@,
            library_roots@.len() as int,
            translated_keys(torrents@, relations@),
        ).1,
{
    let ghost ts = torrents@;
    let ghost rels = relations@;
    let mut work = deal_torrent_path(torrents, relations);
    let ghost keys = translated_keys(ts, rels);
    proof {
        assert forall|k: Seq<char>| #[trigger]
            work.key_set().contains(k) implies keys.contains(k) by {
            let i = choose|i: int|
                #[trigger] retained_for(ts, rels, k, i) && work.spec_get(k).source
                    == ts[i]@.source && work.spec_get(k).file == Some(k);
            assert(contributes(ts, rels, i) && root_key(ts, rels, i) == k);
        }
        assert forall|k: Seq<char>| #[trigger] keys.contains(k) implies work.key_set().contains(
            k,
        ) by {
            let i = choose|i: int|
                #[trigger] contributes(ts, rels, i) && root_key(ts, rels, i) == k;
            assert(work.spec_contains(root_key(ts, rels, i)));
        }
        assert(work.key_set() =~= keys);
    }
    let mut out: Vec<String> = Vec::new();
    let mut warnings: Vec<ScanWarning> = Vec::new();
    let n = library_roots.len();
    let mut j: usize = 0;
    while j < n
        invariant
            tree.wf(),
            n == library_roots@.len(),
            j <= n,
            forall|x: int|
                0 <= x < n ==> (#[trigger] library_roots@[x] as int) < tree.nodes@.len(),
            work.wf(),
            work.key_set() == list_spec(*tree, library_roots@, j as int, keys).0,
            paths_view(out@) == list_spec(*tree, library_roots@, j as int, keys).1,
        decreases n - j,
    {
        let root = library_roots[j];
        let ghost keys_pre = work.key_set();
        let ghost out_pre = out@;
        let s = get_unseed_files(tree, root, &mut work, &mut out, &mut warnings);
        let ghost res = recon_spec(*tree, root as int, keys_pre);
        if s == SeedStatus::AllOrphaned {
            let ghost out_pre2 = out@;
            out.push(tree.nodes[root].path.clone());
            proof {
                lemma_paths_view_push(out_pre2, tree.nodes@[root as int].path);
                assert(paths_view(out@) =~= paths_view(out_pre) + res.emitted.push(
                    tree.nodes@[root as int].path@,
                ));
            }
        }
        proof {
            let prev = list_spec(*tree, library_roots@, j as int, keys);
            let post = list_spec(*tree, library_roots@, j + 1, keys);
            let em = if res.status == SeedStatus::AllOrphaned {
                res.emitted.push(tree.nodes@[root as int].path@)
            } else {
                res.emitted
            };
            assert(post.1 == prev.1 + em);
            assert(paths_view(out@) =~= prev.1 + em);
        }
        j = j + 1;
    }
    (out, warnings)
}

} // verus!
