//! Torrent Registry boundary, compute side: shaping what a backend reports
//! into the uniform transfer list, and filtering faulted torrents by their
//! error text. Fetching from a backend is the caller's affair; these
//! functions work on the plain values handed back.

use vstd::prelude::*;

use crate::paths::contains_seq;
use crate::paths::contains_str;
use crate::types::Torrent;
use crate::types::TorrentFault;

verus! {

/// Builds the uniform transfer list for one backend: each reported save
/// location becomes one transfer tagged with the backend's source tag, in
/// order. A missing location is kept as missing, so that translation can
/// exclude it.
pub fn make_transfers(save_paths: Vec<Option<String>>, source_tag: &str) -> (r: Vec<Torrent>)
    ensures
        r@.len() == save_paths@.len(),
        forall|i: int|
            0 <= i < r@.len() ==> (#[trigger] r@[i]).file == save_paths@[i] && r@[i].source@
                == source_tag@,
{
    let n = save_paths.len();
    let mut r: Vec<Torrent> = Vec::new();
    let mut i: usize = 0;
    while i < n
        invariant
            n == save_paths@.len(),
            i <= n,
            r@.len() == i,
            forall|k: int|
                0 <= k < i ==> (#[trigger] r@[k]).file == save_paths@[k] && r@[k].source@
                    == source_tag@,
        decreases n - i,
    {
        let file = match &save_paths[i] {
            Some(s) => Some(s.clone()),
            None => None,
        };
        r.push(Torrent { file, source: source_tag.to_owned() });
        i = i + 1;
    }
    r
}

/// The error text the backend reports for a torrent; no text reads as
/// empty.
pub open spec fn fault_text(t: TorrentFault) -> Seq<char> {
    match t.error_string {
        Some(s) => s@,
        None => Seq::empty(),
    }
}

/// The torrent is in a reported fault state and its error text contains the
/// queried fragment.
pub open spec fn fault_matches(t: TorrentFault, info: Seq<char>) -> bool {
    t.faulted && contains_seq(fault_text(t), info)
}

/// Queries the faulted torrents whose error text contains `info`: returns
/// their positions in the given list, in increasing order — exactly those
/// whose state is a fault and whose text matches, and no other.
pub fn match_torrent_info(torrents: &Vec<TorrentFault>, info: &str) -> (r: Vec<usize>)
    ensures
        forall|k: int|
            0 <= k < r@.len() ==> (#[trigger] r@[k] as int) < torrents@.len() && fault_matches(
                torrents@[r@[k] as int],
                info@,
            ),
        forall|i: int|
            0 <= i < torrents@.len() && fault_matches(#[trigger] torrents@[i], info@)
                ==> exists|k: int| 0 <= k < r@.len() && (#[trigger] r@[k] as int) == i,
        forall|k1: int, k2: int| 0 <= k1 < k2 < r@.len() ==> r@[k1] < r@[k2],
{
    let n = torrents.len();
    let mut r: Vec<usize> = Vec::new();
    let mut i: usize = 0;
    while i < n
        invariant
            n == torrents@.len(),
            i <= n,
            forall|k: int|
                0 <= k < r@.len() ==> (#[trigger] r@[k] as int) < i && fault_matches(
                    torrents@[r@[k] as int],
                    info@,
                ),
            forall|i2: int|
                0 <= i2 < i && fault_matches(#[trigger] torrents@[i2], info@) ==> exists|k: int|
                    0 <= k < r@.len() && (#[trigger] r@[k] as int) == i2,
            forall|k1: int, k2: int| 0 <= k1 < k2 < r@.len() ==> r@[k1] < r@[k2],
        decreases n - i,
    {
        let hit = if torrents[i].faulted {
            match &torrents[i].error_string {
                Some(s) => contains_str(s.as_str(), info),
                None => {
                    let empty = "";
                    proof {
                        reveal_strlit("");
                        assert(empty@ =~= Seq::<char>::empty());
                    }
                    contains_str(empty, info)
                },
            }
        } else {
            false
        };
        assert(hit == fault_matches(torrents@[i as int], info@));
        let ghost r_before = r@;
        if hit {
            r.push(i);
        }
        proof {
            assert forall|i2: int|
                0 <= i2 < i + 1 && fault_matches(#[trigger] torrents@[i2], info@) implies exists|
                k: int,
            | 0 <= k < r@.len() && (#[trigger] r@[k] as int) == i2 by {
                if i2 < i {
                    let k = choose|k: int|
                        0 <= k < r_before.len() && (#[trigger] r_before[k] as int) == i2;
                    assert(r@[k] as int == i2);
                } else {
                    assert(r@[r@.len() - 1] as int == i2);
                }
            }
        }
        i = i + 1;
    }
    r
}

} // verus!
