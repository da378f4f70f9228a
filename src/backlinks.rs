//! The backlink view of a note, built from its note-to-note edges.

use vstd::prelude::*;

use crate::model::{link_views, linked_from_map, links_to_map, Link, LinkView, Note};
use crate::tag::{title_from_tag, NoteLink};
use crate::title_map::{insert_title, keys_unique, pairs_map};

verus! {

/// A note's references by title: `links_to` the notes it refers to,
/// `linked_from` the notes that refer to it.
pub struct NoteBacklinks {
    pub links_to: Vec<(String, Vec<u8>)>,
    pub linked_from: Vec<(String, Vec<u8>)>,
}

pub struct BacklinksView {
    pub links_to: Map<Seq<char>, Seq<u8>>,
    pub linked_from: Map<Seq<char>, Seq<u8>>,
}

impl View for NoteBacklinks {
    type V = BacklinksView;

    open spec fn view(&self) -> BacklinksView {
        BacklinksView { links_to: pairs_map(self.links_to@), linked_from: pairs_map(self.linked_from@) }
    }
}

impl NoteBacklinks {
    pub open spec fn wf(&self) -> bool {
        keys_unique(self.links_to@) && keys_unique(self.linked_from@)
    }
}

/// The backlink view that a note's edges, in enumeration order, give.
pub open spec fn backlinks_of(ls: Seq<LinkView>) -> BacklinksView {
    BacklinksView { links_to: links_to_map(ls), linked_from: linked_from_map(ls) }
}

/// Builds the backlink view from the note-to-note edges of a note. Tags that
/// decode to neither direction are skipped.
pub fn get_note_links(links: &Vec<Link>) -> (r: NoteBacklinks)
    ensures
        r.wf(),
        r@ == backlinks_of(link_views(links@)),
{
    let ghost ls = link_views(links@);
    let mut links_to: Vec<(String, Vec<u8>)> = Vec::new();
    let mut linked_from: Vec<(String, Vec<u8>)> = Vec::new();
    let n = links.len();
    let mut i: usize = 0;
    assert(ls.subrange(0, 0) =~= Seq::<LinkView>::empty());
    while i < n
        invariant
            n == links@.len(),
            ls == link_views(links@),
            i <= n,
            keys_unique(links_to@),
            keys_unique(linked_from@),
            pairs_map(links_to@) == links_to_map(ls.subrange(0, i as int)),
            pairs_map(linked_from@) == linked_from_map(ls.subrange(0, i as int)),
        decreases n - i,
    {
        let link = &links[i];
        assert(ls.subrange(0, i + 1).drop_last() =~= ls.subrange(0, i as int));
        assert(ls.subrange(0, i + 1).last() == link@);
        match title_from_tag(&link.tag) {
            Some(NoteLink::LinksTo(title)) => {
                let target = link.target.clone();
                assert(target@ =~= link.target@);
                insert_title(&mut links_to, title, target);
            },
            Some(NoteLink::LinkedFrom(title)) => {
                let target = link.target.clone();
                assert(target@ =~= link.target@);
                insert_title(&mut linked_from, title, target);
            },
            None => {},
        }
        i = i + 1;
    }
    assert(ls.subrange(0, n as int) =~= ls);
    NoteBacklinks { links_to, linked_from }
}

/// A note together with its backlink view.
pub struct NoteWithBacklinks {
    pub title: String,
    pub creator: Vec<u8>,
    pub timestamp: i64,
    pub syn_dna_hash: Vec<u8>,
    pub backlinks: NoteBacklinks,
}

impl NoteWithBacklinks {
    /// Joins a note's fields to the backlink view built from its edges.
    pub fn from_note(note: Note, links: &Vec<Link>) -> (r: NoteWithBacklinks)
        ensures
            r.title == note.title,
            r.creator == note.creator,
            r.timestamp == note.timestamp,
            r.syn_dna_hash == note.syn_dna_hash,
            r.backlinks.wf(),
            r.backlinks@ == backlinks_of(link_views(links@)),
    {
        let backlinks = get_note_links(links);
        NoteWithBacklinks {
            title: note.title,
            creator: note.creator,
            timestamp: note.timestamp,
            syn_dna_hash: note.syn_dna_hash,
            backlinks,
        }
    }
}

} // verus!
