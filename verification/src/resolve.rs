//! Path Mapping Resolver: translates a download client's save path into the
//! managed library's namespace through configured mapping relations, always
//! preferring the relation whose client directory is the longest matching
//! prefix on a path-segment boundary.

use vstd::prelude::*;

use crate::paths::is_prefix_of;
use crate::paths::is_segment_prefix;
use crate::paths::replace_prefix;
use crate::paths::segment_prefix;
use crate::paths::str_eq;
use crate::types::MappingRelation;
use crate::types::ResolvedPath;

verus! {

/// The relation applies to this transfer: same backend tag, and its client
/// directory is a segment-boundary prefix of the save path.
pub open spec fn relation_matches(rel: MappingRelation, tag: Seq<char>, path: Seq<char>) -> bool {
    rel@.source_tag == tag && is_segment_prefix(rel@.client_dir, path)
}

/// Some relation in the list applies.
pub open spec fn some_relation_matches(
    rels: Seq<MappingRelation>,
    tag: Seq<char>,
    path: Seq<char>,
) -> bool {
    exists|k: int| 0 <= k < rels.len() && relation_matches(rels[k], tag, path)
}

/// `rels[k]` is the relation resolution must use: it matches, no other match
/// has a longer client directory, and no earlier match is as long (so the
/// earliest of the longest matches wins).
pub open spec fn is_best_match(
    rels: Seq<MappingRelation>,
    tag: Seq<char>,
    path: Seq<char>,
    k: int,
) -> bool {
    &&& 0 <= k < rels.len()
    &&& relation_matches(rels[k], tag, path)
    &&& forall|j: int|
        0 <= j < rels.len() && relation_matches(rels[j], tag, path)
            ==> rels[j]@.client_dir.len() <= rels[k]@.client_dir.len()
    &&& forall|j: int|
        0 <= j < k && relation_matches(rels[j], tag, path)
            ==> rels[j]@.client_dir.len() < rels[k]@.client_dir.len()
}

/// The translation a relation performs: its manager directory followed by
/// the part of the save path after the client directory.
pub open spec fn translated(rel: MappingRelation, path: Seq<char>) -> Seq<char> {
    rel@.manager_dir + path.skip(rel@.client_dir.len() as int)
}

/// What resolution returns for this input: the translation by the best
/// matching relation, or the path unchanged when no relation matches.
pub open spec fn resolved_spec(rels: Seq<MappingRelation>, tag: Seq<char>, path: Seq<char>) -> Seq<
    char,
> {
    if some_relation_matches(rels, tag, path) {
        translated(rels[choose|k: int| is_best_match(rels, tag, path, k)], path)
    } else {
        path
    }
}

/// At most one relation can be the best match.
pub proof fn lemma_best_match_unique(
    rels: Seq<MappingRelation>,
    tag: Seq<char>,
    path: Seq<char>,
    k1: int,
    k2: int,
)
    requires
        is_best_match(rels, tag, path, k1),
        is_best_match(rels, tag, path, k2),
    ensures
        k1 == k2,
{
    if k1 < k2 {
        assert(rels[k1]@.client_dir.len() < rels[k2]@.client_dir.len());
        assert(rels[k2]@.client_dir.len() <= rels[k1]@.client_dir.len());
    } else if k2 < k1 {
        assert(rels[k2]@.client_dir.len() < rels[k1]@.client_dir.len());
        assert(rels[k1]@.client_dir.len() <= rels[k2]@.client_dir.len());
    }
}

/// Resolves one save path against the configured relations. The result is
/// flagged `resolved` exactly when some relation for this tag matches on a
/// segment boundary; an unresolved path comes back unchanged, so that the
/// caller can exclude it rather than guess at a library location.
pub fn resolve(source_tag: &str, client_path: &str, relations: &Vec<MappingRelation>) -> (r:
    ResolvedPath)
    ensures
        r.resolved == some_relation_matches(relations@, source_tag@, client_path@),
        r.path@ == resolved_spec(relations@, source_tag@, client_path@),
{
    let n = relations.len();
    let mut best: Option<usize> = None;
    let mut i: usize = 0;
    while i < n
        invariant
            n == relations@.len(),
            i <= n,
            best is None ==> forall|j: int|
                0 <= j < i ==> !relation_matches(relations@[j], source_tag@, client_path@),
            best is Some ==> {
                let b = best->0 as int;
                &&& 0 <= b < i
                &&& relation_matches(relations@[b], source_tag@, client_path@)
                &&& forall|j: int|
                    0 <= j < i && relation_matches(relations@[j], source_tag@, client_path@)
                        ==> relations@[j]@.client_dir.len() <= relations@[b]@.client_dir.len()
                &&& forall|j: int|
                    0 <= j < b && relation_matches(relations@[j], source_tag@, client_path@)
                        ==> relations@[j]@.client_dir.len() < relations@[b]@.client_dir.len()
            },
        decreases n - i,
    {
        let rel = &relations[i];
        if str_eq(rel.source_tag.as_str(), source_tag) && segment_prefix(
            rel.client_dir.as_str(),
            client_path,
        ) {
            match best {
                None => {
                    best = Some(i);
                },
                Some(b) => {
                    if rel.client_dir.unicode_len() > relations[b].client_dir.unicode_len() {
                        best = Some(i);
                    }
                },
            }
        }
        i = i + 1;
    }
    match best {
        None => {
            assert(!some_relation_matches(relations@, source_tag@, client_path@));
            ResolvedPath { path: client_path.to_owned(), resolved: false }
        },
        Some(b) => {
            proof {
                assert(is_best_match(relations@, source_tag@, client_path@, b as int));
                let k = choose|k: int|
                    is_best_match(relations@, source_tag@, client_path@, k);
                lemma_best_match_unique(relations@, source_tag@, client_path@, b as int, k);
            }
            let rel = &relations[b];
            assert(is_prefix_of(rel.client_dir@, client_path@));
            let path = replace_prefix(
                rel.client_dir.as_str(),
                rel.manager_dir.as_str(),
                client_path,
            );
            ResolvedPath { path, resolved: true }
        },
    }
}

} // verus!
