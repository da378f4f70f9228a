//! Creating a note: its record, and its place under the two anchors.

use vstd::prelude::*;
use vstd::string::*;

use crate::model::{
    link_views, write_views, BaseView, CreateNoteInput, EdgeView, Link, LinkBase, LinkTypes,
    LinkView, LinkWrite, Note,
};

verus! {

/// `all_notes`: the key of the anchor under which every note is listed.
pub open spec fn all_notes_key() -> Seq<char> {
    seq!['a', 'l', 'l', '_', 'n', 'o', 't', 'e', 's']
}

/// The key of the anchor that lists every note.
pub fn all_notes_path() -> (r: String)
    ensures
        r@ == all_notes_key(),
{
    proof {
        reveal_strlit("all_notes");
    }
    let r = String::from_str("all_notes");
    assert(r@ =~= all_notes_key());
    r
}

/// The key of the anchor that lists the notes titled `title`: the title as it
/// stands, with no normalisation.
pub fn title_path(title: &String) -> (r: String)
    ensures
        r@ == title@,
{
    title.clone()
}

/// The record for a new note, its creator being the writer's key.
pub fn create_new_note(input: CreateNoteInput, creator: Vec<u8>) -> (r: Note)
    ensures
        r.title == input.title,
        r.creator == creator,
        r.timestamp == input.timestamp,
        r.syn_dna_hash == input.syn_dna_hash,
{
    Note {
        title: input.title,
        creator,
        timestamp: input.timestamp,
        syn_dna_hash: input.syn_dna_hash,
    }
}

/// The two untagged anchor edges that list the note `hash`: under the global
/// anchor, then under the anchor of its title.
pub open spec fn index_writes(hash: Seq<u8>, title: Seq<char>) -> Seq<EdgeView> {
    seq![
        EdgeView {
            base: BaseView::Anchor(all_notes_key()),
            target: hash,
            link_type: LinkTypes::PathToNote,
            tag: Seq::empty(),
        },
        EdgeView {
            base: BaseView::Anchor(title),
            target: hash,
            link_type: LinkTypes::PathToNote,
            tag: Seq::empty(),
        },
    ]
}

/// The edges that register the note `hash`, titled `title`, under its anchors.
pub fn index_note(hash: &Vec<u8>, title: &String) -> (r: Vec<LinkWrite>)
    ensures
        write_views(r@) == index_writes(hash@, title@),
{
    let h1 = hash.clone();
    let h2 = hash.clone();
    assert(h1@ =~= hash@ && h2@ =~= hash@);
    let mut r: Vec<LinkWrite> = Vec::new();
    r.push(
        LinkWrite {
            base: LinkBase::Anchor(all_notes_path()),
            target: h1,
            link_type: LinkTypes::PathToNote,
            tag: String::new(),
        },
    );
    r.push(
        LinkWrite {
            base: LinkBase::Anchor(title_path(title)),
            target: h2,
            link_type: LinkTypes::PathToNote,
            tag: String::new(),
        },
    );
    assert(write_views(r@) =~= index_writes(hash@, title@));
    r
}

/// The note that a title resolves to: the target of the last edge that its
/// anchor enumerates.
pub open spec fn latest(ls: Seq<LinkView>) -> Option<Seq<u8>> {
    if ls.len() == 0 {
        None
    } else {
        Some(ls.last().target)
    }
}

/// Picks, from the edges under a title's anchor, the note it resolves to.
pub fn latest_target(title_links: &Vec<Link>) -> (r: Option<Vec<u8>>)
    ensures
        r is Some <==> latest(link_views(title_links@)) is Some,
        r is Some ==> latest(link_views(title_links@)) == Some(r->0@),
{
    let n = title_links.len();
    if n == 0 {
        None
    } else {
        let t = title_links[n - 1].target.clone();
        assert(t@ =~= title_links@[n - 1].target@);
        assert(link_views(title_links@).last() == title_links@[n - 1]@);
        Some(t)
    }
}

} // verus!
