//! What holds of the store as the library's writes change it.
//!
//! The store is modelled as the sequence of edges that a peer has seen, in
//! the order in which it enumerates them; a title resolves to the target of
//! the last edge under its anchor.

use vstd::prelude::*;

use crate::backlinks::{backlinks_of, BacklinksView};
use crate::extract::inline_refs;
use crate::lifecycle::{all_notes_key, index_writes, latest};
use crate::model::{
    lemma_links_at_append, lemma_links_at_member, lemma_links_at_none, links_at, BaseView,
    EdgeView, LinkTypes, LinkView,
};
use crate::sync::{backlink_writes, has_links_to, pair_writes, pairs_have_title, pairs_to_add};
use crate::tag::{decode_tag, lemma_tag_round_trip, NoteLinkView};

verus! {

/// The note that `title` resolves to in `store`.
pub open spec fn resolve(store: Seq<EdgeView>, title: Seq<char>) -> Option<Seq<u8>> {
    latest(links_at(store, BaseView::Anchor(title), LinkTypes::PathToNote))
}

pub open spec fn resolutions(store: Seq<EdgeView>, titles: Seq<Seq<char>>) -> Seq<Option<Seq<u8>>> {
    titles.map_values(|t: Seq<char>| resolve(store, t))
}

/// The note-to-note edges of the note `h`.
pub open spec fn note_edges(store: Seq<EdgeView>, h: Seq<u8>) -> Seq<LinkView> {
    links_at(store, BaseView::Entry(h), LinkTypes::NoteToBacklinks)
}

/// The backlink view of the note `h` in `store`.
pub open spec fn backlinks_in(store: Seq<EdgeView>, h: Seq<u8>) -> BacklinksView {
    backlinks_of(note_edges(store, h))
}

/// The store after synchronising the note `base`, titled `base_title`, with
/// `titles`: what it was, and the edge pairs that the references call for.
pub open spec fn sync_store(
    store: Seq<EdgeView>,
    base: Seq<u8>,
    base_title: Seq<char>,
    titles: Seq<Seq<char>>,
) -> Seq<EdgeView> {
    store + backlink_writes(
        base,
        base_title,
        pairs_to_add(note_edges(store, base), titles, resolutions(store, titles)),
    )
}

proof fn lemma_writes_shape(base: Seq<u8>, base_title: Seq<char>, pairs: Seq<(Seq<char>, Seq<u8>)>)
    ensures
        backlink_writes(base, base_title, pairs).len() == 2 * pairs.len(),
        forall|q: int|
            0 <= q < backlink_writes(base, base_title, pairs).len() ==> (#[trigger] backlink_writes(
                base,
                base_title,
                pairs,
            )[q]).base is Entry && backlink_writes(base, base_title, pairs)[q].link_type
                == LinkTypes::NoteToBacklinks,
        forall|p: int|
            0 <= p < pairs.len() ==> #[trigger] backlink_writes(base, base_title, pairs)[2 * p]
                == pair_writes(base, base_title, pairs[p].0, pairs[p].1)[0],
    decreases pairs.len(),
{
    if pairs.len() > 0 {
        let rest = pairs.drop_last();
        lemma_writes_shape(base, base_title, rest);
        let w = backlink_writes(base, base_title, pairs);
        let wr = backlink_writes(base, base_title, rest);
        assert forall|p: int| 0 <= p < pairs.len() implies #[trigger] w[2 * p] == pair_writes(
            base,
            base_title,
            pairs[p].0,
            pairs[p].1,
        )[0] by {
            if p < rest.len() {
                assert(w[2 * p] == wr[2 * p]);
                assert(rest[p] == pairs[p]);
            }
        }
    }
}

proof fn lemma_pairs_member(
    existing: Seq<LinkView>,
    titles: Seq<Seq<char>>,
    resolved: Seq<Option<Seq<u8>>>,
    k: int,
)
    requires
        titles.len() == resolved.len(),
        0 <= k < titles.len(),
        resolved[k] is Some,
        !has_links_to(existing, titles[k]),
    ensures
        pairs_have_title(pairs_to_add(existing, titles, resolved), titles[k]),
    decreases titles.len(),
{
    let ps = pairs_to_add(existing, titles, resolved);
    let rt = titles.drop_last();
    let rr = resolved.drop_last();
    let rest = pairs_to_add(existing, rt, rr);
    if k == titles.len() - 1 {
        if pairs_have_title(rest, titles[k]) {
            let p = choose|p: int| 0 <= p < rest.len() && (#[trigger] rest[p]).0 == titles[k];
            assert(ps[p] == rest[p]);
        } else {
            assert(ps[ps.len() - 1].0 == titles[k]);
        }
    } else {
        assert(rt[k] == titles[k] && rr[k] == resolved[k]);
        lemma_pairs_member(existing, rt, rr, k);
        let p = choose|p: int| 0 <= p < rest.len() && (#[trigger] rest[p]).0 == titles[k];
        assert(ps[p] == rest[p]);
    }
}

proof fn lemma_pairs_none(existing: Seq<LinkView>, titles: Seq<Seq<char>>, resolved: Seq<Option<Seq<u8>>>)
    requires
        titles.len() == resolved.len(),
        forall|k: int|
            0 <= k < titles.len() ==> #[trigger] resolved[k] is None || has_links_to(
                existing,
                titles[k],
            ),
    ensures
        pairs_to_add(existing, titles, resolved).len() == 0,
    decreases titles.len(),
{
    if titles.len() > 0 {
        let rt = titles.drop_last();
        let rr = resolved.drop_last();
        assert forall|k: int| 0 <= k < rt.len() implies #[trigger] rr[k] is None || has_links_to(
            existing,
            rt[k],
        ) by {
            assert(rr[k] == resolved[k] && rt[k] == titles[k]);
        }
        lemma_pairs_none(existing, rt, rr);
        assert(resolved[titles.len() - 1] is None || has_links_to(existing, titles.last()));
    }
}

/// Synchronising twice with the same titles leaves the store as synchronising
/// once did: every title that resolves has its `links_to` edge after the first
/// call, and the writes touch no anchor, so no title resolves anew.
pub proof fn lemma_sync_idempotent(
    store: Seq<EdgeView>,
    base: Seq<u8>,
    base_title: Seq<char>,
    titles: Seq<Seq<char>>,
)
    ensures
        sync_store(sync_store(store, base, base_title, titles), base, base_title, titles)
            == sync_store(store, base, base_title, titles),
{
    let e0 = note_edges(store, base);
    let r0 = resolutions(store, titles);
    let ps = pairs_to_add(e0, titles, r0);
    let w = backlink_writes(base, base_title, ps);
    let s1 = store + w;
    lemma_writes_shape(base, base_title, ps);
    assert forall|t: Seq<char>| resolve(s1, t) == resolve(store, t) by {
        lemma_links_at_append(store, w, BaseView::Anchor(t), LinkTypes::PathToNote);
        lemma_links_at_none(w, BaseView::Anchor(t), LinkTypes::PathToNote);
        assert(links_at(s1, BaseView::Anchor(t), LinkTypes::PathToNote) =~= links_at(
            store,
            BaseView::Anchor(t),
            LinkTypes::PathToNote,
        ));
    }
    let r1 = resolutions(s1, titles);
    assert(r1 =~= r0);
    lemma_links_at_append(store, w, BaseView::Entry(base), LinkTypes::NoteToBacklinks);
    let e1 = note_edges(s1, base);
    let x = links_at(w, BaseView::Entry(base), LinkTypes::NoteToBacklinks);
    assert(e1 == e0 + x);
    assert forall|k: int| 0 <= k < titles.len() implies #[trigger] r1[k] is None || has_links_to(
        e1,
        titles[k],
    ) by {
        if r0[k] is Some {
            if has_links_to(e0, titles[k]) {
                let i = choose|i: int|
                    0 <= i < e0.len() && decode_tag(#[trigger] e0[i].tag) == Some(
                        NoteLinkView::LinksTo(titles[k]),
                    );
                assert(e1[i] == e0[i]);
            } else {
                lemma_pairs_member(e0, titles, r0, k);
                let p = choose|p: int| 0 <= p < ps.len() && (#[trigger] ps[p]).0 == titles[k];
                let q = 2 * p;
                assert(w[q] == pair_writes(base, base_title, ps[p].0, ps[p].1)[0]);
                lemma_links_at_member(w, BaseView::Entry(base), LinkTypes::NoteToBacklinks, q);
                let lv = LinkView { target: w[q].target, tag: w[q].tag };
                let i = choose|i: int| 0 <= i < x.len() && #[trigger] x[i] == lv;
                lemma_tag_round_trip(NoteLinkView::LinksTo(titles[k]));
                assert(e1[e0.len() + i] == lv);
                assert(decode_tag(e1[e0.len() + i].tag) == Some(NoteLinkView::LinksTo(titles[k])));
            }
        }
    }
    lemma_pairs_none(e1, titles, r1);
    assert(backlink_writes(base, base_title, pairs_to_add(e1, titles, r1)) =~= Seq::<
        EdgeView,
    >::empty());
    assert(sync_store(s1, base, base_title, titles) =~= s1);
}

/// Referring from note `a` to `title`: where the title resolves to note `b`
/// and `a` had no `links_to` edge for it, `a`'s `links_to` map gains `title`
/// mapped to `b`, and `b`'s `linked_from` map gains `a_title` mapped to `a`.
/// Where the title resolves to nothing, or `a` already refers to it, the
/// store is left as it was.
pub proof fn lemma_sync_reciprocity(
    store: Seq<EdgeView>,
    a: Seq<u8>,
    a_title: Seq<char>,
    title: Seq<char>,
)
    ensures
        ({
            let s1 = sync_store(store, a, a_title, seq![title]);
            match resolve(store, title) {
                Some(b) => if has_links_to(note_edges(store, a), title) {
                    s1 == store
                } else {
                    &&& backlinks_in(s1, a).links_to == backlinks_in(store, a).links_to.insert(
                        title,
                        b,
                    )
                    &&& backlinks_in(s1, b).linked_from == backlinks_in(
                        store,
                        b,
                    ).linked_from.insert(a_title, a)
                },
                None => s1 == store,
            }
        }),
{
    let titles = seq![title];
    let e0 = note_edges(store, a);
    let r0 = resolutions(store, titles);
    assert(r0[0] == resolve(store, title));
    assert(titles.drop_last() =~= Seq::<Seq<char>>::empty());
    assert(r0.drop_last() =~= Seq::<Option<Seq<u8>>>::empty());
    assert(r0.len() == 1 && r0.last() == resolve(store, title) && titles.last() == title);
    assert(pairs_to_add(e0, titles.drop_last(), r0.drop_last()).len() == 0);
    let ps = pairs_to_add(e0, titles, r0);
    let s1 = sync_store(store, a, a_title, titles);
    match resolve(store, title) {
        Some(b) => {
            if has_links_to(e0, title) {
                assert(ps.len() == 0);
                assert(s1 =~= store);
            } else {
                assert(ps =~= seq![(title, b)]);
                assert(ps.drop_last() =~= Seq::<(Seq<char>, Seq<u8>)>::empty());
                assert(backlink_writes(a, a_title, ps.drop_last()) =~= Seq::<EdgeView>::empty());
                let w = pair_writes(a, a_title, title, b);
                assert(backlink_writes(a, a_title, ps) =~= w);
                let ex = w[0];
                let ey = w[1];
                let s_x = store.push(ex);
                assert(s1 =~= s_x.push(ey));
                assert(s1.drop_last() =~= s_x);
                assert(s_x.drop_last() =~= store);
                lemma_tag_round_trip(NoteLinkView::LinksTo(title));
                lemma_tag_round_trip(NoteLinkView::LinkedFrom(a_title));
                let lx = LinkView { target: ex.target, tag: ex.tag };
                let ly = LinkView { target: ey.target, tag: ey.tag };
                // from a
                let ea = note_edges(store, a);
                let ea_x = note_edges(s_x, a);
                assert(ea_x == ea.push(lx));
                assert(ea.push(lx).drop_last() =~= ea);
                assert(backlinks_of(ea_x).links_to == backlinks_of(ea).links_to.insert(title, b));
                if a == b {
                    assert(note_edges(s1, a) == ea_x.push(ly));
                    assert(ea_x.push(ly).drop_last() =~= ea_x);
                } else {
                    assert(note_edges(s1, a) == ea_x);
                }
                // to b
                let eb = note_edges(store, b);
                let eb_x = note_edges(s_x, b);
                if a == b {
                    assert(eb_x == eb.push(lx));
                    assert(eb.push(lx).drop_last() =~= eb);
                    assert(backlinks_of(eb_x).linked_from == backlinks_of(eb).linked_from);
                } else {
                    assert(eb_x == eb);
                }
                assert(note_edges(s1, b) == eb_x.push(ly));
                assert(eb_x.push(ly).drop_last() =~= eb_x);
            }
        },
        None => {
            assert(ps.len() == 0);
            assert(s1 =~= store);
        },
    }
}

/// A title that resolves to nothing writes nothing: synchronising with it
/// appended to the titles changes the store as synchronising without it does.
pub proof fn lemma_sync_skips_unresolved(
    store: Seq<EdgeView>,
    base: Seq<u8>,
    base_title: Seq<char>,
    titles: Seq<Seq<char>>,
    title: Seq<char>,
)
    requires
        resolve(store, title) is None,
    ensures
        sync_store(store, base, base_title, titles.push(title)) == sync_store(
            store,
            base,
            base_title,
            titles,
        ),
{
    let t2 = titles.push(title);
    assert(t2.drop_last() =~= titles);
    assert(resolutions(store, t2) =~= resolutions(store, titles).push(None));
    assert(resolutions(store, t2).drop_last() =~= resolutions(store, titles));
}

/// Synchronising note `a` with the references of `text`, which are `linked`,
/// resolving to note `b`, then `ghost`, resolving to nothing: only `linked`
/// gets its edge pair. `a`'s `links_to` map gains `linked` mapped to `b` and
/// no `ghost` entry, and `b`'s `linked_from` map gains `a_title` mapped to `a`.
pub proof fn lemma_extract_and_sync(
    store: Seq<EdgeView>,
    a: Seq<u8>,
    a_title: Seq<char>,
    text: Seq<char>,
    linked: Seq<char>,
    ghost: Seq<char>,
    b: Seq<u8>,
)
    requires
        inline_refs(text) == seq![linked, ghost],
        resolve(store, linked) == Some(b),
        resolve(store, ghost) is None,
        !has_links_to(note_edges(store, a), linked),
    ensures
        ({
            let s1 = sync_store(store, a, a_title, inline_refs(text));
            &&& backlinks_in(s1, a).links_to == backlinks_in(store, a).links_to.insert(linked, b)
            &&& backlinks_in(s1, b).linked_from == backlinks_in(store, b).linked_from.insert(
                a_title,
                a,
            )
        }),
{
    assert(seq![linked, ghost] =~= seq![linked].push(ghost));
    lemma_sync_skips_unresolved(store, a, a_title, seq![linked], ghost);
    lemma_sync_reciprocity(store, a, a_title, linked);
}

/// Creating a note lists it once more under the global anchor, whatever the
/// store held: the same note created twice is listed twice, and once per
/// creation. A title equal to the global key names the global anchor itself,
/// and is left out.
pub proof fn lemma_index_lists_once(store: Seq<EdgeView>, hash: Seq<u8>, title: Seq<char>)
    requires
        title != all_notes_key(),
    ensures
        links_at(store + index_writes(hash, title), BaseView::Anchor(all_notes_key()), LinkTypes::PathToNote)
            == links_at(store, BaseView::Anchor(all_notes_key()), LinkTypes::PathToNote).push(
            LinkView { target: hash, tag: Seq::empty() },
        ),
{
    let w = index_writes(hash, title);
    let g = BaseView::Anchor(all_notes_key());
    let ty = LinkTypes::PathToNote;
    let s_x = store.push(w[0]);
    assert(store + w =~= s_x.push(w[1]));
    assert(s_x.push(w[1]).drop_last() =~= s_x);
    assert(s_x.drop_last() =~= store);
    assert(w[1].base != g);
    assert(links_at(s_x, g, ty) == links_at(store, g, ty).push(
        LinkView { target: hash, tag: Seq::empty() },
    ));
    assert(links_at(s_x.push(w[1]), g, ty) == links_at(s_x, g, ty));
}

/// Two writers that register notes under the same title reach one anchor:
/// its enumeration holds both notes, in the order their edges arrived.
pub proof fn lemma_anchor_shared(
    store: Seq<EdgeView>,
    h1: Seq<u8>,
    h2: Seq<u8>,
    title: Seq<char>,
)
    requires
        title != all_notes_key(),
    ensures
        links_at(
            store + index_writes(h1, title) + index_writes(h2, title),
            BaseView::Anchor(title),
            LinkTypes::PathToNote,
        ) == links_at(store, BaseView::Anchor(title), LinkTypes::PathToNote).push(
            LinkView { target: h1, tag: Seq::empty() },
        ).push(LinkView { target: h2, tag: Seq::empty() }),
        resolve(store + index_writes(h1, title) + index_writes(h2, title), title) == Some(h2),
{
    let t = BaseView::Anchor(title);
    let ty = LinkTypes::PathToNote;
    let w1 = index_writes(h1, title);
    let w2 = index_writes(h2, title);
    lemma_links_at_append(store + w1, w2, t, ty);
    lemma_links_at_append(store, w1, t, ty);
    assert(w1.drop_last() =~= seq![w1[0]]);
    assert(w1.drop_last().drop_last() =~= Seq::<EdgeView>::empty());
    assert(w1[0].base != t);
    assert(links_at(w1.drop_last().drop_last(), t, ty) =~= Seq::<LinkView>::empty());
    assert(w1.drop_last().last() == w1[0]);
    assert(links_at(w1.drop_last(), t, ty) =~= Seq::<LinkView>::empty());
    assert(links_at(w1, t, ty) =~= seq![LinkView { target: h1, tag: Seq::empty() }]);
    assert(w2.drop_last() =~= seq![w2[0]]);
    assert(w2.drop_last().drop_last() =~= Seq::<EdgeView>::empty());
    assert(links_at(w2.drop_last(), t, ty) =~= Seq::<LinkView>::empty());
    assert(links_at(w2, t, ty) =~= seq![LinkView { target: h2, tag: Seq::empty() }]);
    assert(links_at(store + w1 + w2, t, ty) =~= links_at(store, t, ty).push(
        LinkView { target: h1, tag: Seq::empty() },
    ).push(LinkView { target: h2, tag: Seq::empty() }));
}

} // verus!
