//! The edge-tag codec: a direction prefix followed by the title, as text.

use vstd::prelude::*;
use vstd::string::*;

verus! {

/// The direction and title that a note-to-note edge tag carries.
pub enum NoteLink {
    LinksTo(String),
    LinkedFrom(String),
}

/// The mathematical value of a [`NoteLink`].
pub enum NoteLinkView {
    LinksTo(Seq<char>),
    LinkedFrom(Seq<char>),
}

impl View for NoteLink {
    type V = NoteLinkView;

    open spec fn view(&self) -> NoteLinkView {
        match self {
            NoteLink::LinksTo(t) => NoteLinkView::LinksTo(t@),
            NoteLink::LinkedFrom(t) => NoteLinkView::LinkedFrom(t@),
        }
    }
}

pub open spec fn link_view(l: Option<NoteLink>) -> Option<NoteLinkView> {
    match l {
        Some(x) => Some(x@),
        None => None,
    }
}

/// `links_to_`
pub open spec fn links_to_prefix() -> Seq<char> {
    seq!['l', 'i', 'n', 'k', 's', '_', 't', 'o', '_']
}

/// `linked_from_`
pub open spec fn linked_from_prefix() -> Seq<char> {
    seq!['l', 'i', 'n', 'k', 'e', 'd', '_', 'f', 'r', 'o', 'm', '_']
}

pub open spec fn has_prefix(s: Seq<char>, p: Seq<char>) -> bool {
    p.len() <= s.len() && s.subrange(0, p.len() as int) == p
}

/// The tag written for an edge of the given direction and title.
pub open spec fn encode_tag(link: NoteLinkView) -> Seq<char> {
    match link {
        NoteLinkView::LinksTo(t) => links_to_prefix() + t,
        NoteLinkView::LinkedFrom(t) => linked_from_prefix() + t,
    }
}

/// Strips the `links_to_` prefix, else the `linked_from_` prefix; a tag with
/// neither decodes to nothing.
pub open spec fn decode_tag(tag: Seq<char>) -> Option<NoteLinkView> {
    if has_prefix(tag, links_to_prefix()) {
        Some(NoteLinkView::LinksTo(tag.subrange(links_to_prefix().len() as int, tag.len() as int)))
    } else if has_prefix(tag, linked_from_prefix()) {
        Some(
            NoteLinkView::LinkedFrom(
                tag.subrange(linked_from_prefix().len() as int, tag.len() as int),
            ),
        )
    } else {
        None
    }
}

fn starts_with(s: &str, p: &str) -> (r: bool)
    ensures
        r == has_prefix(s@, p@),
{
    let n = s.unicode_len();
    let m = p.unicode_len();
    if m > n {
        return false;
    }
    let mut i: usize = 0;
    while i < m
        invariant
            m == p@.len(),
            n == s@.len(),
            m <= n,
            i <= m,
            forall|j: int| 0 <= j < i ==> s@[j] == p@[j],
        decreases m - i,
    {
        if s.get_char(i) != p.get_char(i) {
            assert(s@.subrange(0, m as int)[i as int] != p@[i as int]);
            return false;
        }
        i = i + 1;
    }
    assert(s@.subrange(0, m as int) =~= p@);
    true
}

/// The tag of a `links_to` edge for `title`.
pub fn links_to_tag(title: &String) -> (r: String)
    ensures
        r@ == encode_tag(NoteLinkView::LinksTo(title@)),
{
    proof {
        reveal_strlit("links_to_");
    }
    let p = String::from_str("links_to_");
    assert(p@ =~= links_to_prefix());
    p.concat(title.as_str())
}

/// The tag of a `linked_from` edge for `title`.
pub fn linked_from_tag(title: &String) -> (r: String)
    ensures
        r@ == encode_tag(NoteLinkView::LinkedFrom(title@)),
{
    proof {
        reveal_strlit("linked_from_");
    }
    let p = String::from_str("linked_from_");
    assert(p@ =~= linked_from_prefix());
    p.concat(title.as_str())
}

/// Reads the direction and title out of an edge tag; `None` for a tag that
/// carries neither prefix, which callers skip.
pub fn title_from_tag(tag: &String) -> (r: Option<NoteLink>)
    ensures
        link_view(r) == decode_tag(tag@),
{
    proof {
        reveal_strlit("links_to_");
        reveal_strlit("linked_from_");
    }
    let s = tag.as_str();
    let n = s.unicode_len();
    let to_prefix = "links_to_";
    let from_prefix = "linked_from_";
    assert(to_prefix@ =~= links_to_prefix());
    assert(from_prefix@ =~= linked_from_prefix());
    if starts_with(s, to_prefix) {
        let title = String::from_str(s.substring_char(9, n));
        Some(NoteLink::LinksTo(title))
    } else if starts_with(s, from_prefix) {
        let title = String::from_str(s.substring_char(12, n));
        Some(NoteLink::LinkedFrom(title))
    } else {
        None
    }
}

/// Decoding undoes encoding in both directions: no `linked_from_` tag starts
/// with `links_to_`, so the priority order never misreads a tag this codec wrote.
pub proof fn lemma_tag_round_trip(link: NoteLinkView)
    ensures
        decode_tag(encode_tag(link)) == Some(link),
{
    let e = encode_tag(link);
    match link {
        NoteLinkView::LinksTo(t) => {
            assert(e.subrange(0, 9) =~= links_to_prefix());
            assert(e.subrange(9, e.len() as int) =~= t);
        },
        NoteLinkView::LinkedFrom(t) => {
            assert(e[4] == 'e');
            assert(links_to_prefix()[4] == 's');
            assert(e.subrange(0, 9)[4] != links_to_prefix()[4]);
            assert(e.subrange(0, 12) =~= linked_from_prefix());
            assert(e.subrange(12, e.len() as int) =~= t);
        },
    }
}

} // verus!
