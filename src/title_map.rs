//! A map from titles to hashes, kept as a vector of pairs with distinct titles.
//!
//! The pairs are compared by their text with `String`'s `==`, whose meaning
//! Verus knows; an ordered map keyed by `String` would rest on an ordering of
//! strings that nothing here specifies, and its contents could not be related
//! to the maps that the backlink view is stated over.

use vstd::prelude::*;

verus! {

pub open spec fn keys_unique(v: Seq<(String, Vec<u8>)>) -> bool {
    forall|i: int, j: int| 0 <= i < j < v.len() ==> (#[trigger] v[i]).0@ != (#[trigger] v[j]).0@
}

/// The map that the pairs stand for, the later pair winning on a repeated title.
pub open spec fn pairs_map(v: Seq<(String, Vec<u8>)>) -> Map<Seq<char>, Seq<u8>>
    decreases v.len(),
{
    if v.len() == 0 {
        Map::empty()
    } else {
        pairs_map(v.drop_last()).insert(v.last().0@, v.last().1@)
    }
}

proof fn lemma_pairs_map_update(v: Seq<(String, Vec<u8>)>, p: int, x: (String, Vec<u8>))
    requires
        keys_unique(v),
        0 <= p < v.len(),
        v[p].0@ == x.0@,
    ensures
        pairs_map(v.update(p, x)) == pairs_map(v).insert(x.0@, x.1@),
        keys_unique(v.update(p, x)),
    decreases v.len(),
{
    let u = v.update(p, x);
    assert(keys_unique(u)) by {
        assert forall|i: int, j: int| 0 <= i < j < u.len() implies (#[trigger] u[i]).0@ != (
        #[trigger] u[j]).0@ by {
            assert(v[i].0@ != v[j].0@);
        }
    }
    if p == v.len() - 1 {
        assert(u.drop_last() =~= v.drop_last());
        assert(pairs_map(u) =~= pairs_map(v).insert(x.0@, x.1@));
    } else {
        assert(u.drop_last() =~= v.drop_last().update(p, x));
        lemma_pairs_map_update(v.drop_last(), p, x);
        assert(v.last().0@ != x.0@) by {
            assert(v[p].0@ != v[v.len() - 1].0@);
        }
        assert(pairs_map(u) =~= pairs_map(v).insert(x.0@, x.1@));
    }
}

/// Sets `title` to `hash` in the map that `m` stands for.
pub fn insert_title(m: &mut Vec<(String, Vec<u8>)>, title: String, hash: Vec<u8>)
    requires
        keys_unique(old(m)@),
    ensures
        keys_unique(final(m)@),
        pairs_map(final(m)@) == pairs_map(old(m)@).insert(title@, hash@),
{
    let n = m.len();
    let mut i: usize = 0;
    while i < n
        invariant
            m@ == old(m)@,
            keys_unique(m@),
            n == m@.len(),
            i <= n,
            forall|j: int| 0 <= j < i ==> (#[trigger] m@[j]).0@ != title@,
        decreases n - i,
    {
        if m[i].0 == title {
            let ghost before = m@;
            proof {
                lemma_pairs_map_update(before, i as int, (title, hash));
            }
            m.set(i, (title, hash));
            return;
        }
        i = i + 1;
    }
    let ghost before = m@;
    m.push((title, hash));
    assert(m@.drop_last() =~= before);
    assert(m@.last() == (title, hash));
    assert(keys_unique(m@)) by {
        assert forall|a: int, b: int| 0 <= a < b < m@.len() implies (#[trigger] m@[a]).0@ != (
        #[trigger] m@[b]).0@ by {
            if b == n {
                assert(before[a].0@ != title@);
            }
        }
    }
}

} // verus!
