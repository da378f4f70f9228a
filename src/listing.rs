//! The listing of every note: one entry per hash, each with its backlinks.

use vstd::prelude::*;

use crate::backlinks::{backlinks_of, NoteWithBacklinks};
use crate::model::{link_views, Link, Note};

verus! {

/// `nwb` is `note` joined to the backlink view of `links`.
pub open spec fn describes(nwb: NoteWithBacklinks, note: Note, links: Seq<Link>) -> bool {
    &&& nwb.title == note.title
    &&& nwb.creator == note.creator
    &&& nwb.timestamp == note.timestamp
    &&& nwb.syn_dna_hash == note.syn_dna_hash
    &&& nwb.backlinks.wf()
    &&& nwb.backlinks@ == backlinks_of(link_views(links))
}

/// Entry `j` is the last of `v` with hash `h`.
pub open spec fn is_last_with(v: Seq<(Vec<u8>, Note, Vec<Link>)>, h: Seq<u8>, j: int) -> bool {
    &&& 0 <= j < v.len()
    &&& v[j].0@ == h
    &&& forall|k: int| j < k < v.len() ==> (#[trigger] v[k]).0@ != h
}

/// `x` is the listing of the last entry of `v` with its hash.
pub open spec fn listed_from(v: Seq<(Vec<u8>, Note, Vec<Link>)>, x: (Vec<u8>, NoteWithBacklinks)) -> bool {
    exists|j: int| is_last_with(v, x.0@, j) && describes(x.1, v[j].1, v[j].2@)
}

/// Some entry of `out` has hash `h`.
pub open spec fn lists_hash(out: Seq<(Vec<u8>, NoteWithBacklinks)>, h: Seq<u8>) -> bool {
    exists|i: int| 0 <= i < out.len() && (#[trigger] out[i]).0@ == h
}

pub open spec fn hashes_unique(v: Seq<(Vec<u8>, NoteWithBacklinks)>) -> bool {
    forall|i: int, j: int| 0 <= i < j < v.len() ==> (#[trigger] v[i]).0@ != (#[trigger] v[j]).0@
}

fn has_hash(out: &Vec<(Vec<u8>, NoteWithBacklinks)>, h: &Vec<u8>) -> (r: bool)
    ensures
        r == exists|i: int| 0 <= i < out@.len() && (#[trigger] out@[i]).0@ == h@,
{
    let n = out.len();
    let mut i: usize = 0;
    while i < n
        invariant
            n == out@.len(),
            i <= n,
            forall|j: int| 0 <= j < i ==> (#[trigger] out@[j]).0@ != h@,
        decreases n - i,
    {
        if out[i].0 == *h {
            assert(out@[i as int].0@ == h@);
            return true;
        }
        i = i + 1;
    }
    false
}

/// Lists the fetched notes, each given as its hash, its record and its
/// note-to-note edges, by hash. A hash listed more than once keeps its last
/// entry.
pub fn get_all_notes(entries: Vec<(Vec<u8>, Note, Vec<Link>)>) -> (r: Vec<(Vec<u8>, NoteWithBacklinks)>)
    ensures
        hashes_unique(r@),
        forall|i: int| 0 <= i < r@.len() ==> listed_from(entries@, #[trigger] r@[i]),
        forall|j: int| 0 <= j < entries@.len() ==> lists_hash(r@, (#[trigger] entries@[j]).0@),
{
    let ghost all = entries@;
    let mut rest = entries;
    let mut out: Vec<(Vec<u8>, NoteWithBacklinks)> = Vec::new();
    while rest.len() > 0
        invariant
            all == entries@,
            rest@ == all.subrange(0, rest@.len() as int),
            rest@.len() <= all.len(),
            hashes_unique(out@),
            forall|i: int| 0 <= i < out@.len() ==> listed_from(all, #[trigger] out@[i]),
            forall|j: int| rest@.len() <= j < all.len() ==> lists_hash(out@, (#[trigger] all[j]).0@),
        decreases rest@.len(),
    {
        let k = rest.len() - 1;
        let ghost before = out@;
        let e = rest.pop().unwrap();
        assert(e == all[k as int]);
        let (h, note, links) = e;
        if !has_hash(&out, &h) {
            assert forall|m: int| k < m < all.len() implies (#[trigger] all[m]).0@ != h@ by {
                if all[m].0@ == h@ {
                    assert(lists_hash(out@, all[m].0@));
                }
            }
            assert(is_last_with(all, h@, k as int));
            let nwb = NoteWithBacklinks::from_note(note, &links);
            out.push((h, nwb));
            assert forall|i: int| 0 <= i < out@.len() implies listed_from(all, #[trigger] out@[i]) by {
                if i == before.len() {
                    assert(is_last_with(all, out@[i].0@, k as int));
                } else {
                    assert(out@[i] == before[i]);
                }
            }
            assert forall|j: int| rest@.len() <= j < all.len() implies lists_hash(
                out@,
                (#[trigger] all[j]).0@,
            ) by {
                if j == k {
                    assert(out@[before.len() as int].0@ == all[j].0@);
                } else {
                    assert(lists_hash(before, all[j].0@));
                    let i = choose|i: int| 0 <= i < before.len() && (#[trigger] before[i]).0@ == all[j].0@;
                    assert(out@[i] == before[i]);
                }
            }
        } else {
            assert(lists_hash(out@, all[k as int].0@));
        }
        assert(rest@ =~= all.subrange(0, rest@.len() as int));
    }
    assert(all.subrange(0, 0) =~= rest@);
    out
}

} // verus!
