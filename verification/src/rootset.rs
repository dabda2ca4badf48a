//! The translated-root set: one entry per transfer whose save path was
//! successfully translated into the library namespace, keyed by the
//! translated canonical path. Keys are unique; when two transfers translate
//! to the same root, the later one is retained (sharing a save directory is
//! legitimate, not an error).

use vstd::prelude::*;

use crate::paths::str_eq;
use crate::resolve::resolve;
use crate::resolve::resolved_spec;
use crate::resolve::some_relation_matches;
use crate::types::MappingRelation;
use crate::types::Torrent;
use crate::types::TorrentView;

verus! {

/// Mapping from translated canonical path to the transfer that covers it.
pub struct TranslatedRootSet {
    pub entries: Vec<(String, Torrent)>,
}

impl TranslatedRootSet {
    /// Keys are unique: at most one entry per translated root.
    pub open spec fn wf(self) -> bool {
        forall|i: int, j: int|
            0 <= i < j < self.entries@.len() ==> self.entries@[i].0@ != self.entries@[j].0@
    }

    /// The set holds an entry for this root.
    pub open spec fn spec_contains(self, key: Seq<char>) -> bool {
        exists|i: int| 0 <= i < self.entries@.len() && self.entries@[i].0@ == key
    }

    /// The transfer stored for this root (meaningful only when present).
    pub open spec fn spec_get(self, key: Seq<char>) -> TorrentView {
        self.entries@[choose|i: int|
            0 <= i < self.entries@.len() && self.entries@[i].0@ == key].1@
    }

    /// The keys held, as a mathematical set of canonical paths. This is all
    /// reconciliation reads of a root set.
    pub open spec fn key_set(self) -> Set<Seq<char>> {
        Set::new(|k: Seq<char>| self.spec_contains(k))
    }

    /// In a well-formed set, the entry at index `i` is what lookup by its own
    /// key returns.
    pub proof fn lemma_get_at(self, i: int)
        requires
            self.wf(),
            0 <= i < self.entries@.len(),
        ensures
            self.spec_contains(self.entries@[i].0@),
            self.spec_get(self.entries@[i].0@) == self.entries@[i].1@,
    {
        let key = self.entries@[i].0@;
        let j = choose|j: int| 0 <= j < self.entries@.len() && self.entries@[j].0@ == key;
        assert(0 <= j < self.entries@.len() && self.entries@[j].0@ == key);
        if i < j {
            assert(self.entries@[i].0@ != self.entries@[j].0@);
        } else if j < i {
            assert(self.entries@[j].0@ != self.entries@[i].0@);
        }
    }

    /// An empty root set.
    pub fn new() -> (r: Self)
        ensures
            r.wf(),
            forall|k: Seq<char>| !r.spec_contains(k),
            r.entries@.len() == 0,
    {
        TranslatedRootSet { entries: Vec::new() }
    }

    /// The number of roots held.
    pub fn len(&self) -> (r: usize)
        ensures
            r == self.entries@.len(),
    {
        self.entries.len()
    }

    /// Whether this canonical path is a registered transfer root.
    pub fn contains_key(&self, key: &str) -> (r: bool)
        ensures
            r == self.spec_contains(key@),
    {
        let n = self.entries.len();
        let mut i: usize = 0;
        while i < n
            invariant
                n == self.entries@.len(),
                i <= n,
                forall|j: int| 0 <= j < i ==> self.entries@[j].0@ != key@,
            decreases n - i,
        {
            if str_eq(self.entries[i].0.as_str(), key) {
                return true;
            }
            i = i + 1;
        }
        false
    }

    /// Inserts a root, replacing any entry already stored under the same key.
    pub fn insert(&mut self, key: String, value: Torrent)
        requires
            old(self).wf(),
        ensures
            final(self).wf(),
            forall|k: Seq<char>|
                final(self).spec_contains(k) <==> (old(self).spec_contains(k) || k == key@),
            final(self).spec_get(key@) == value@,
            forall|k: Seq<char>|
                k != key@ && old(self).spec_contains(k) ==> final(self).spec_get(k) == old(
                    self,
                ).spec_get(k),
    {
        let ghost old_entries = self.entries@;
        let n = self.entries.len();
        let mut found: Option<usize> = None;
        let mut i: usize = 0;
        while i < n
            invariant
                n == self.entries@.len(),
                i <= n,
                found is None ==> forall|j: int| 0 <= j < i ==> self.entries@[j].0@ != key@,
                found is Some ==> {
                    let f = found->0 as int;
                    0 <= f < n && self.entries@[f].0@ == key@
                },
            decreases n - i,
        {
            if str_eq(self.entries[i].0.as_str(), key.as_str()) {
                found = Some(i);
                i = n;
            } else {
                i = i + 1;
            }
        }
        if let Some(f) = found {
            self.entries.remove(f);
            proof {
                assert(forall|j: int|
                    0 <= j < old_entries.len() && j != f ==> old_entries[j].0@ != key@);
            }
        }
        let ghost mid_entries = self.entries@;
        proof {
            // No entry under this key survives to this point.
            assert(forall|j: int| 0 <= j < mid_entries.len() ==> mid_entries[j].0@ != key@);
        }
        self.entries.push((key, value));
        proof {
            let post = self.entries@;
            assert(forall|j2: int| 0 <= j2 < mid_entries.len() ==> post[j2] == mid_entries[j2]);
            assert(final(self).wf());
            final(self).lemma_get_at(post.len() - 1);
            assert(final(self).spec_get(key@) == value@);
            assert forall|k: Seq<char>|
                k != key@ && old(self).spec_contains(k) implies final(self).spec_contains(k)
                && final(self).spec_get(k) == old(self).spec_get(k) by {
                let j = choose|j: int| 0 <= j < old_entries.len() && old_entries[j].0@ == k;
                old(self).lemma_get_at(j);
                if found is Some {
                    let f = found->0 as int;
                    assert(j != f);
                    if j < f {
                        assert(post[j] == old_entries[j]);
                        final(self).lemma_get_at(j);
                    } else {
                        assert(post[j - 1] == old_entries[j]);
                        final(self).lemma_get_at(j - 1);
                    }
                } else {
                    assert(post[j] == old_entries[j]);
                    final(self).lemma_get_at(j);
                }
            }
            assert forall|k: Seq<char>|
                final(self).spec_contains(k) && k != key@ implies old(self).spec_contains(
                k,
            ) by {
                let j = choose|j: int| 0 <= j < post.len() && post[j].0@ == k;
                assert(j < post.len() - 1);
                assert(post[j] == mid_entries[j]);
                if found is Some && j >= found->0 {
                    assert(old_entries[j + 1] == mid_entries[j]);
                } else {
                    assert(old_entries[j] == mid_entries[j]);
                }
            }
        }
    }

    /// Removes and returns the transfer stored under this root, if any.
    /// Reconciliation consumes a matched root this way, so that a second
    /// physically distinct path cannot spuriously match the same entry.
    pub fn take(&mut self, key: &str) -> (r: Option<Torrent>)
        requires
            old(self).wf(),
        ensures
            final(self).wf(),
            (r is Some) == old(self).spec_contains(key@),
            r is Some ==> r->0@ == old(self).spec_get(key@),
            forall|k: Seq<char>|
                final(self).spec_contains(k) <==> (old(self).spec_contains(k) && k != key@),
            forall|k: Seq<char>|
                k != key@ && old(self).spec_contains(k) ==> final(self).spec_get(k) == old(
                    self,
                ).spec_get(k),
    {
        let ghost old_entries = self.entries@;
        let n = self.entries.len();
        let mut found: Option<usize> = None;
        let mut i: usize = 0;
        while i < n
            invariant
                n == self.entries@.len(),
                i <= n,
                found is None ==> forall|j: int| 0 <= j < i ==> self.entries@[j].0@ != key@,
                found is Some ==> {
                    let f = found->0 as int;
                    0 <= f < n && self.entries@[f].0@ == key@
                },
            decreases n - i,
        {
            if str_eq(self.entries[i].0.as_str(), key) {
                found = Some(i);
                i = n;
            } else {
                i = i + 1;
            }
        }
        match found {
            None => {
                assert(!old(self).spec_contains(key@));
                None
            },
            Some(f) => {
                proof {
                    old(self).lemma_get_at(f as int);
                    assert(forall|j: int|
                        0 <= j < old_entries.len() && j != f ==> old_entries[j].0@ != key@);
                }
                let pair = self.entries.remove(f);
                proof {
                    let post = self.entries@;
                    assert(final(self).wf());
                    assert forall|k: Seq<char>|
                        final(self).spec_contains(k) implies (old(self).spec_contains(k) && k
                        != key@) by {
                        let j = choose|j: int| 0 <= j < post.len() && post[j].0@ == k;
                        if j >= f {
                            assert(old_entries[j + 1] == post[j]);
                        } else {
                            assert(old_entries[j] == post[j]);
                        }
                    }
                    assert forall|k: Seq<char>|
                        k != key@ && old(self).spec_contains(k) implies final(self).spec_contains(
                        k,
                    ) && final(self).spec_get(k) == old(self).spec_get(k) by {
                        let j = choose|j: int|
                            0 <= j < old_entries.len() && old_entries[j].0@ == k;
                        old(self).lemma_get_at(j);
                        assert(j != f);
                        if j < f {
                            assert(post[j] == old_entries[j]);
                            final(self).lemma_get_at(j);
                        } else {
                            assert(post[j - 1] == old_entries[j]);
                            final(self).lemma_get_at(j - 1);
                        }
                    }
                }
                Some(pair.1)
            },
        }
    }
}

/// The transfer at index `i` contributes a root: the backend reported a save
/// location for it, and some configured relation translates that location.
/// Transfers with no retrievable location, and transfers whose save path no
/// relation resolves, are excluded — guessing a library path for them could
/// lead to false orphan verdicts against live data.
pub open spec fn contributes(ts: Seq<Torrent>, rels: Seq<MappingRelation>, i: int) -> bool {
    &&& 0 <= i < ts.len()
    &&& ts[i]@.file is Some
    &&& some_relation_matches(rels, ts[i]@.source, ts[i]@.file->Some_0)
}

/// The root the transfer at index `i` contributes: its save path translated
/// into the library namespace.
pub open spec fn root_key(ts: Seq<Torrent>, rels: Seq<MappingRelation>, i: int) -> Seq<char> {
    resolved_spec(rels, ts[i]@.source, ts[i]@.file->Some_0)
}

/// The transfer at index `i` is the one retained for root `k` among the
/// first `bound` transfers: it contributes `k`, and no later transfer before
/// `bound` contributes the same root (the last one wins).
pub open spec fn retained_upto(
    ts: Seq<Torrent>,
    rels: Seq<MappingRelation>,
    k: Seq<char>,
    i: int,
    bound: int,
) -> bool {
    &&& contributes(ts, rels, i)
    &&& i < bound
    &&& root_key(ts, rels, i) == k
    &&& forall|i2: int|
        i < i2 < bound && #[trigger] contributes(ts, rels, i2) ==> root_key(ts, rels, i2) != k
}

/// The transfer at index `i` is the one retained for root `k` overall.
pub open spec fn retained_for(
    ts: Seq<Torrent>,
    rels: Seq<MappingRelation>,
    k: Seq<char>,
    i: int,
) -> bool {
    retained_upto(ts, rels, k, i, ts.len() as int)
}

/// Builds the translated-root set for a transfer list: every transfer whose
/// save path resolves contributes one entry keyed by the translated path and
/// holding the transfer with its save path rewritten; duplicate roots keep
/// the last contributing transfer.
pub fn deal_torrent_path(torrents: Vec<Torrent>, relations: &Vec<MappingRelation>) -> (r:
    TranslatedRootSet)
    ensures
        r.wf(),
        forall|i: int|
            #[trigger] contributes(torrents@, relations@, i) ==> r.spec_contains(
                root_key(torrents@, relations@, i),
            ),
        forall|k: Seq<char>|
            #[trigger] r.spec_contains(k) ==> exists|i: int|
                #[trigger] retained_for(torrents@, relations@, k, i) && r.spec_get(k).source
                    == torrents@[i]@.source && r.spec_get(k).file == Some(k),
{
    let ghost ts = torrents@;
    let ghost rels = relations@;
    let n = torrents.len();
    let mut r = TranslatedRootSet::new();
    let mut i: usize = 0;
    while i < n
        invariant
            n == ts.len(),
            torrents@ == ts,
            relations@ == rels,
            i <= n,
            r.wf(),
            forall|i1: int|
                0 <= i1 < i && #[trigger] contributes(ts, rels, i1) ==> r.spec_contains(
                    root_key(ts, rels, i1),
                ),
            forall|k: Seq<char>|
                #[trigger] r.spec_contains(k) ==> exists|i1: int|
                    #[trigger] retained_upto(ts, rels, k, i1, i as int) && r.spec_get(k).source
                        == ts[i1]@.source && r.spec_get(k).file == Some(k),
        decreases n - i,
    {
        let ghost r_before = r;
        let mut inserted = false;
        let ghost key_spec = root_key(ts, rels, i as int);
        match &torrents[i].file {
            None => {},
            Some(save_dir) => {
                let res = resolve(torrents[i].source.as_str(), save_dir.as_str(), relations);
                if res.resolved {
                    assert(contributes(ts, rels, i as int));
                    assert(res.path@ == key_spec);
                    let value = Torrent {
                        file: Some(res.path.clone()),
                        source: torrents[i].source.clone(),
                    };
                    r.insert(res.path, value);
                    inserted = true;
                }
            },
        }
        proof {
            if inserted {
                assert(r.spec_get(key_spec).file == Some(key_spec));
                assert forall|k: Seq<char>| #[trigger] r.spec_contains(k) implies exists|i1: int|
                    #[trigger] retained_upto(ts, rels, k, i1, i + 1) && r.spec_get(k).source
                        == ts[i1]@.source && r.spec_get(k).file == Some(k) by {
                    if k == key_spec {
                        assert(retained_upto(ts, rels, k, i as int, i + 1));
                    } else {
                        assert(r_before.spec_contains(k));
                        let i1 = choose|i1: int|
                            #[trigger] retained_upto(ts, rels, k, i1, i as int)
                                && r_before.spec_get(k).source == ts[i1]@.source
                                && r_before.spec_get(k).file == Some(k);
                        assert(retained_upto(ts, rels, k, i1, i + 1));
                    }
                }
            } else {
                assert(!contributes(ts, rels, i as int) || r.spec_contains(
                    root_key(ts, rels, i as int),
                ));
                assert forall|k: Seq<char>| #[trigger] r.spec_contains(k) implies exists|i1: int|
                    #[trigger] retained_upto(ts, rels, k, i1, i + 1) && r.spec_get(k).source
                        == ts[i1]@.source && r.spec_get(k).file == Some(k) by {
                    let i1 = choose|i1: int|
                        #[trigger] retained_upto(ts, rels, k, i1, i as int) && r.spec_get(
                            k,
                        ).source == ts[i1]@.source && r.spec_get(k).file == Some(k);
                    assert(retained_upto(ts, rels, k, i1, i + 1));
                }
            }
        }
        i = i + 1;
    }
    proof {
        assert forall|k: Seq<char>| #[trigger] r.spec_contains(k) implies exists|i1: int|
            #[trigger] retained_for(ts, rels, k, i1) && r.spec_get(k).source == ts[i1]@.source
                && r.spec_get(k).file == Some(k) by {
            let i1 = choose|i1: int|
                #[trigger] retained_upto(ts, rels, k, i1, n as int) && r.spec_get(k).source
                    == ts[i1]@.source && r.spec_get(k).file == Some(k);
            assert(retained_for(ts, rels, k, i1));
        }
    }
    r
}

} // verus!
