//! Backlink synchronisation: which edge pairs a note's references call for.

use vstd::prelude::*;

use crate::extract::{extract_link_titles, inline_refs, string_views};
use crate::model::{
    link_views, write_views, BaseView, EdgeView, Link, LinkBase, LinkTypes, LinkView, LinkWrite,
    NoteContentsInput, UpdateNoteBacklinksInput,
};
use crate::tag::{
    decode_tag, encode_tag, linked_from_tag, links_to_tag, title_from_tag, NoteLink, NoteLinkView,
};

verus! {

pub open spec fn hash_opt_views(v: Seq<Option<Vec<u8>>>) -> Seq<Option<Seq<u8>>> {
    v.map_values(
        |o: Option<Vec<u8>>|
            match o {
                Some(h) => Some(h@),
                None => None,
            },
    )
}

pub open spec fn pair_views(v: Seq<(String, Vec<u8>)>) -> Seq<(Seq<char>, Seq<u8>)> {
    v.map_values(|p: (String, Vec<u8>)| (p.0@, p.1@))
}

/// Some edge among `existing` is a `links_to` edge for `title`.
pub open spec fn has_links_to(existing: Seq<LinkView>, title: Seq<char>) -> bool {
    exists|i: int|
        0 <= i < existing.len() && decode_tag(#[trigger] existing[i].tag) == Some(
            NoteLinkView::LinksTo(title),
        )
}

/// Some pair among `pairs` carries `title`.
pub open spec fn pairs_have_title(pairs: Seq<(Seq<char>, Seq<u8>)>, title: Seq<char>) -> bool {
    exists|p: int| 0 <= p < pairs.len() && (#[trigger] pairs[p]).0 == title
}

/// The (title, target) pairs that need an edge pair: each title, in order, that
/// resolved to a note and has no `links_to` edge yet, neither among `existing`
/// nor among the pairs chosen for the titles before it.
pub open spec fn pairs_to_add(
    existing: Seq<LinkView>,
    titles: Seq<Seq<char>>,
    resolved: Seq<Option<Seq<u8>>>,
) -> Seq<(Seq<char>, Seq<u8>)>
    decreases titles.len(),
{
    if titles.len() == 0 || resolved.len() == 0 {
        Seq::empty()
    } else {
        let rest = pairs_to_add(existing, titles.drop_last(), resolved.drop_last());
        let t = titles.last();
        match resolved.last() {
            Some(b) => if has_links_to(existing, t) || pairs_have_title(rest, t) {
                rest
            } else {
                rest.push((t, b))
            },
            None => rest,
        }
    }
}

/// The edge pair for a reference from `base` to `target` under `title`: a
/// `links_to` edge carrying `title`, and a `linked_from` edge back carrying
/// the title of `base`.
pub open spec fn pair_writes(base: Seq<u8>, base_title: Seq<char>, title: Seq<char>, target: Seq<u8>) -> Seq<EdgeView> {
    seq![
        EdgeView {
            base: BaseView::Entry(base),
            target: target,
            link_type: LinkTypes::NoteToBacklinks,
            tag: encode_tag(NoteLinkView::LinksTo(title)),
        },
        EdgeView {
            base: BaseView::Entry(target),
            target: base,
            link_type: LinkTypes::NoteToBacklinks,
            tag: encode_tag(NoteLinkView::LinkedFrom(base_title)),
        },
    ]
}

pub open spec fn backlink_writes(
    base: Seq<u8>,
    base_title: Seq<char>,
    pairs: Seq<(Seq<char>, Seq<u8>)>,
) -> Seq<EdgeView>
    decreases pairs.len(),
{
    if pairs.len() == 0 {
        Seq::empty()
    } else {
        backlink_writes(base, base_title, pairs.drop_last()) + pair_writes(
            base,
            base_title,
            pairs.last().0,
            pairs.last().1,
        )
    }
}

/// Whether `existing` holds a `links_to` edge for `title`.
fn has_links_to_edge(existing: &Vec<Link>, title: &String) -> (r: bool)
    ensures
        r == has_links_to(link_views(existing@), title@),
{
    let ghost ls = link_views(existing@);
    let n = existing.len();
    let mut i: usize = 0;
    while i < n
        invariant
            n == existing@.len(),
            ls == link_views(existing@),
            i <= n,
            forall|j: int|
                0 <= j < i ==> decode_tag(#[trigger] ls[j].tag) != Some(
                    NoteLinkView::LinksTo(title@),
                ),
        decreases n - i,
    {
        assert(ls[i as int] == existing@[i as int]@);
        match title_from_tag(&existing[i].tag) {
            Some(NoteLink::LinksTo(t)) => {
                if t == *title {
                    assert(decode_tag(ls[i as int].tag) == Some(NoteLinkView::LinksTo(title@)));
                    return true;
                }
            },
            _ => {},
        }
        i = i + 1;
    }
    false
}

fn has_pair_for(pairs: &Vec<(String, Vec<u8>)>, title: &String) -> (r: bool)
    ensures
        r == pairs_have_title(pair_views(pairs@), title@),
{
    let ghost ps = pair_views(pairs@);
    let n = pairs.len();
    let mut i: usize = 0;
    while i < n
        invariant
            n == pairs@.len(),
            ps == pair_views(pairs@),
            i <= n,
            forall|j: int| 0 <= j < i ==> (#[trigger] ps[j]).0 != title@,
        decreases n - i,
    {
        if pairs[i].0 == *title {
            assert(ps[i as int].0 == title@);
            return true;
        }
        i = i + 1;
    }
    false
}

/// Decides, for each title that `input` names, whether the note `input.note`
/// needs a new edge pair: `existing` is its note-to-note edges, `resolved[i]`
/// the note that the i-th title resolved to. Titles already linked, and those
/// that resolved to nothing, are skipped, and so is a title repeated after
/// an earlier copy was given its pair. Returns the titles with their targets.
pub fn update_note_backlinks(
    input: &UpdateNoteBacklinksInput,
    existing: &Vec<Link>,
    resolved: &Vec<Option<Vec<u8>>>,
) -> (r: Vec<(String, Vec<u8>)>)
    requires
        resolved@.len() == input.link_titles@.len(),
    ensures
        pair_views(r@) == pairs_to_add(
            link_views(existing@),
            string_views(input.link_titles@),
            hash_opt_views(resolved@),
        ),
{
    let ghost es = link_views(existing@);
    let ghost ts = string_views(input.link_titles@);
    let ghost rs = hash_opt_views(resolved@);
    let titles = &input.link_titles;
    let n = titles.len();
    let mut out: Vec<(String, Vec<u8>)> = Vec::new();
    let mut i: usize = 0;
    assert(pair_views(out@) =~= pairs_to_add(es, ts.subrange(0, 0), rs.subrange(0, 0)));
    while i < n
        invariant
            n == titles@.len(),
            n == resolved@.len(),
            titles == &input.link_titles,
            es == link_views(existing@),
            ts == string_views(titles@),
            rs == hash_opt_views(resolved@),
            i <= n,
            pair_views(out@) == pairs_to_add(es, ts.subrange(0, i as int), rs.subrange(0, i as int)),
        decreases n - i,
    {
        assert(ts.subrange(0, i + 1).drop_last() =~= ts.subrange(0, i as int));
        assert(rs.subrange(0, i + 1).drop_last() =~= rs.subrange(0, i as int));
        assert(ts.subrange(0, i + 1).last() == titles@[i as int]@);
        assert(rs.subrange(0, i + 1).last() == rs[i as int]);
        match &resolved[i] {
            Some(target) => {
                if !has_links_to_edge(existing, &titles[i]) && !has_pair_for(&out, &titles[i]) {
                    let ghost before = out@;
                    let t = titles[i].clone();
                    let b = target.clone();
                    assert(b@ =~= target@);
                    out.push((t, b));
                    assert(pair_views(out@) =~= pair_views(before).push((t@, b@)));
                }
            },
            None => {},
        }
        i = i + 1;
    }
    assert(ts.subrange(0, n as int) =~= ts);
    assert(rs.subrange(0, n as int) =~= rs);
    out
}

/// The edges to write for `pairs`, as [`update_note_backlinks`] returned
/// them, from the note `base` whose title is `base_title`: for each pair a
/// `links_to` edge and then its reciprocal `linked_from` edge.
pub fn add_backlinks(base: &Vec<u8>, base_title: &String, pairs: &Vec<(String, Vec<u8>)>) -> (r: Vec<
    LinkWrite,
>)
    ensures
        write_views(r@) == backlink_writes(base@, base_title@, pair_views(pairs@)),
{
    let ghost ps = pair_views(pairs@);
    let n = pairs.len();
    let mut out: Vec<LinkWrite> = Vec::new();
    let mut i: usize = 0;
    assert(write_views(out@) =~= backlink_writes(base@, base_title@, ps.subrange(0, 0)));
    while i < n
        invariant
            n == pairs@.len(),
            ps == pair_views(pairs@),
            i <= n,
            write_views(out@) == backlink_writes(base@, base_title@, ps.subrange(0, i as int)),
        decreases n - i,
    {
        let ghost before = out@;
        let (title, target) = (&pairs[i].0, &pairs[i].1);
        assert(ps.subrange(0, i + 1).drop_last() =~= ps.subrange(0, i as int));
        assert(ps.subrange(0, i + 1).last() == (title@, target@));
        let t1 = target.clone();
        let b2 = base.clone();
        let t2 = target.clone();
        assert(t1@ =~= target@ && t2@ =~= target@ && b2@ =~= base@);
        out.push(
            LinkWrite {
                base: LinkBase::Entry(base.clone()),
                target: t1,
                link_type: LinkTypes::NoteToBacklinks,
                tag: links_to_tag(title),
            },
        );
        out.push(
            LinkWrite {
                base: LinkBase::Entry(t2),
                target: b2,
                link_type: LinkTypes::NoteToBacklinks,
                tag: linked_from_tag(base_title),
            },
        );
        assert(write_views(out@) =~= write_views(before) + pair_writes(
            base@,
            base_title@,
            title@,
            target@,
        ));
        i = i + 1;
    }
    assert(ps.subrange(0, n as int) =~= ps);
    out
}

/// Scans the note's text for references and names them for synchronisation.
pub fn parse_note_for_links_and_update_backlinks(input: NoteContentsInput) -> (r:
    UpdateNoteBacklinksInput)
    ensures
        r.note == input.note,
        string_views(r.link_titles@) == inline_refs(input.contents@),
{
    let link_titles = extract_link_titles(&input.contents);
    UpdateNoteBacklinksInput { note: input.note, link_titles }
}

} // verus!
