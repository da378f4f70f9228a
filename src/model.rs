//! The records and edges of the store, and the store as a sequence of edges.

use vstd::prelude::*;

use crate::tag::{decode_tag, NoteLinkView};

verus! {

/// A note record. Hashes and keys are held as their raw bytes; the timestamp
/// in microseconds.
pub struct Note {
    pub title: String,
    pub creator: Vec<u8>,
    pub timestamp: i64,
    pub syn_dna_hash: Vec<u8>,
}

/// What a caller gives to create a note; the creator comes from the host.
pub struct CreateNoteInput {
    pub title: String,
    pub timestamp: i64,
    pub syn_dna_hash: Vec<u8>,
}

/// The titles that the note with hash `note` refers to.
pub struct UpdateNoteBacklinksInput {
    pub note: Vec<u8>,
    pub link_titles: Vec<String>,
}

/// The text of the note with hash `note`, to be scanned for references.
pub struct NoteContentsInput {
    pub note: Vec<u8>,
    pub contents: String,
}

/// The two kinds of edge: from an anchor to a note, and between notes.
#[derive(PartialEq, Eq, Structural, Clone, Copy, Debug)]
pub enum LinkTypes {
    PathToNote,
    NoteToBacklinks,
}

/// One edge as the store enumerates it from a given base.
pub struct Link {
    pub target: Vec<u8>,
    pub tag: String,
}

/// Where an edge starts: an anchor, named by its key, or a record, by hash.
pub enum LinkBase {
    Anchor(String),
    Entry(Vec<u8>),
}

/// An edge to append to the store.
pub struct LinkWrite {
    pub base: LinkBase,
    pub target: Vec<u8>,
    pub link_type: LinkTypes,
    pub tag: String,
}

pub struct LinkView {
    pub target: Seq<u8>,
    pub tag: Seq<char>,
}

pub enum BaseView {
    Anchor(Seq<char>),
    Entry(Seq<u8>),
}

pub struct EdgeView {
    pub base: BaseView,
    pub target: Seq<u8>,
    pub link_type: LinkTypes,
    pub tag: Seq<char>,
}

impl View for Link {
    type V = LinkView;

    open spec fn view(&self) -> LinkView {
        LinkView { target: self.target@, tag: self.tag@ }
    }
}

impl View for LinkBase {
    type V = BaseView;

    open spec fn view(&self) -> BaseView {
        match self {
            LinkBase::Anchor(k) => BaseView::Anchor(k@),
            LinkBase::Entry(h) => BaseView::Entry(h@),
        }
    }
}

impl View for LinkWrite {
    type V = EdgeView;

    open spec fn view(&self) -> EdgeView {
        EdgeView {
            base: self.base@,
            target: self.target@,
            link_type: self.link_type,
            tag: self.tag@,
        }
    }
}

pub open spec fn link_views(v: Seq<Link>) -> Seq<LinkView> {
    v.map_values(|l: Link| l@)
}

pub open spec fn write_views(v: Seq<LinkWrite>) -> Seq<EdgeView> {
    v.map_values(|w: LinkWrite| w@)
}

/// The edges of `store` from `base` of type `ty`, as the store enumerates
/// them: in the order in which they were appended.
pub open spec fn links_at(store: Seq<EdgeView>, base: BaseView, ty: LinkTypes) -> Seq<LinkView>
    decreases store.len(),
{
    if store.len() == 0 {
        Seq::empty()
    } else {
        let e = store.last();
        let rest = links_at(store.drop_last(), base, ty);
        if e.base == base && e.link_type == ty {
            rest.push(LinkView { target: e.target, tag: e.tag })
        } else {
            rest
        }
    }
}

/// Enumeration distributes over appending.
pub proof fn lemma_links_at_append(s: Seq<EdgeView>, w: Seq<EdgeView>, base: BaseView, ty: LinkTypes)
    ensures
        links_at(s + w, base, ty) == links_at(s, base, ty) + links_at(w, base, ty),
    decreases w.len(),
{
    if w.len() == 0 {
        assert(s + w =~= s);
        assert(links_at(s, base, ty) + links_at(w, base, ty) =~= links_at(s, base, ty));
    } else {
        assert((s + w).drop_last() =~= s + w.drop_last());
        lemma_links_at_append(s, w.drop_last(), base, ty);
        let e = w.last();
        assert((s + w).last() == e);
        if e.base == base && e.link_type == ty {
            assert(links_at(s, base, ty) + links_at(w.drop_last(), base, ty).push(
                LinkView { target: e.target, tag: e.tag },
            ) =~= (links_at(s, base, ty) + links_at(w.drop_last(), base, ty)).push(
                LinkView { target: e.target, tag: e.tag },
            ));
        }
    }
}

/// An edge of `w` from `base` of type `ty` shows in the enumeration of `w`.
pub proof fn lemma_links_at_member(w: Seq<EdgeView>, base: BaseView, ty: LinkTypes, q: int)
    requires
        0 <= q < w.len(),
        w[q].base == base,
        w[q].link_type == ty,
    ensures
        exists|i: int|
            0 <= i < links_at(w, base, ty).len() && #[trigger] links_at(w, base, ty)[i] == (
            LinkView { target: w[q].target, tag: w[q].tag }),
    decreases w.len(),
{
    let lv = LinkView { target: w[q].target, tag: w[q].tag };
    if q == w.len() - 1 {
        let l = links_at(w, base, ty);
        assert(l[l.len() - 1] == lv);
    } else {
        lemma_links_at_member(w.drop_last(), base, ty, q);
        let i = choose|i: int|
            0 <= i < links_at(w.drop_last(), base, ty).len() && #[trigger] links_at(
                w.drop_last(),
                base,
                ty,
            )[i] == lv;
        assert(links_at(w, base, ty)[i] == lv);
    }
}

/// No edge of `w` starts at `base` with type `ty`: the enumeration is empty.
pub proof fn lemma_links_at_none(w: Seq<EdgeView>, base: BaseView, ty: LinkTypes)
    requires
        forall|q: int| 0 <= q < w.len() ==> !(#[trigger] w[q].base == base && w[q].link_type == ty),
    ensures
        links_at(w, base, ty).len() == 0,
    decreases w.len(),
{
    if w.len() > 0 {
        assert(!(w[w.len() - 1].base == base && w[w.len() - 1].link_type == ty));
        lemma_links_at_none(w.drop_last(), base, ty);
    }
}

/// The `links_to` map of a note, built from its note-to-note edges in
/// enumeration order: a later edge with the same title replaces an earlier one.
pub open spec fn links_to_map(ls: Seq<LinkView>) -> Map<Seq<char>, Seq<u8>>
    decreases ls.len(),
{
    if ls.len() == 0 {
        Map::empty()
    } else {
        let m = links_to_map(ls.drop_last());
        match decode_tag(ls.last().tag) {
            Some(NoteLinkView::LinksTo(t)) => m.insert(t, ls.last().target),
            _ => m,
        }
    }
}

/// The `linked_from` map of a note, built as [`links_to_map`] is.
pub open spec fn linked_from_map(ls: Seq<LinkView>) -> Map<Seq<char>, Seq<u8>>
    decreases ls.len(),
{
    if ls.len() == 0 {
        Map::empty()
    } else {
        let m = linked_from_map(ls.drop_last());
        match decode_tag(ls.last().tag) {
            Some(NoteLinkView::LinkedFrom(t)) => m.insert(t, ls.last().target),
            _ => m,
        }
    }
}

} // verus!
