use notes::backlinks::{get_note_links, NoteBacklinks};
use notes::extract::extract_link_titles;
use notes::lifecycle::{all_notes_path, create_new_note, index_note, latest_target, title_path};
use notes::listing::get_all_notes;
use notes::model::{
    CreateNoteInput, Link, LinkBase, LinkTypes, LinkWrite, Note, NoteContentsInput,
    UpdateNoteBacklinksInput,
};
use notes::sync::{add_backlinks, parse_note_for_links_and_update_backlinks, update_note_backlinks};
use notes::tag::{linked_from_tag, links_to_tag, title_from_tag, NoteLink};

/// An edge store held in memory: edges in the order they were appended, and
/// records by hash.
struct MemStore {
    edges: Vec<LinkWrite>,
    records: Vec<(Vec<u8>, Note)>,
}

fn same_base(a: &LinkBase, b: &LinkBase) -> bool {
    match (a, b) {
        (LinkBase::Anchor(x), LinkBase::Anchor(y)) => x == y,
        (LinkBase::Entry(x), LinkBase::Entry(y)) => x == y,
        _ => false,
    }
}

fn copy_note(n: &Note) -> Note {
    Note {
        title: n.title.clone(),
        creator: n.creator.clone(),
        timestamp: n.timestamp,
        syn_dna_hash: n.syn_dna_hash.clone(),
    }
}

impl MemStore {
    fn new() -> Self {
        MemStore { edges: Vec::new(), records: Vec::new() }
    }

    fn list(&self, base: &LinkBase, ty: LinkTypes) -> Vec<Link> {
        self.edges
            .iter()
            .filter(|e| same_base(&e.base, base) && e.link_type == ty)
            .map(|e| Link { target: e.target.clone(), tag: e.tag.clone() })
            .collect()
    }

    fn apply(&mut self, writes: Vec<LinkWrite>) {
        self.edges.extend(writes);
    }

    fn get(&self, hash: &Vec<u8>) -> Option<Note> {
        self.records.iter().rev().find(|(h, _)| h == hash).map(|(_, n)| copy_note(n))
    }

    fn create(&mut self, title: &str, timestamp: i64, hash: Vec<u8>) -> Vec<u8> {
        let input = CreateNoteInput {
            title: String::from(title),
            timestamp,
            syn_dna_hash: vec![9, 9, 9],
        };
        let note = create_new_note(input, vec![7, 7]);
        let writes = index_note(&hash, &note.title);
        self.records.push((hash.clone(), note));
        self.apply(writes);
        hash
    }

    fn note_links(&self, hash: &Vec<u8>) -> NoteBacklinks {
        get_note_links(&self.list(&LinkBase::Entry(hash.clone()), LinkTypes::NoteToBacklinks))
    }

    fn find_by_title(&self, title: &str) -> Option<Note> {
        let links = self.list(&LinkBase::Anchor(title_path(&String::from(title))), LinkTypes::PathToNote);
        latest_target(&links).and_then(|h| self.get(&h))
    }

    fn sync(&mut self, note: &Vec<u8>, titles: Vec<String>) {
        let input = UpdateNoteBacklinksInput { note: note.clone(), link_titles: titles };
        let existing = self.list(&LinkBase::Entry(note.clone()), LinkTypes::NoteToBacklinks);
        let resolved: Vec<Option<Vec<u8>>> = input
            .link_titles
            .iter()
            .map(|t| {
                let links = self.list(&LinkBase::Anchor(title_path(t)), LinkTypes::PathToNote);
                latest_target(&links).filter(|h| self.get(h).is_some())
            })
            .collect();
        let pairs = update_note_backlinks(&input, &existing, &resolved);
        if !pairs.is_empty() {
            let base_title = self.get(note).expect("base note").title;
            let writes = add_backlinks(note, &base_title, &pairs);
            self.apply(writes);
        }
    }

    fn all_notes(&self) -> Vec<(Vec<u8>, notes::backlinks::NoteWithBacklinks)> {
        let links = self.list(&LinkBase::Anchor(all_notes_path()), LinkTypes::PathToNote);
        let entries = links
            .iter()
            .filter_map(|l| {
                self.get(&l.target).map(|n| {
                    let edges = self.list(&LinkBase::Entry(l.target.clone()), LinkTypes::NoteToBacklinks);
                    (l.target.clone(), n, edges)
                })
            })
            .collect();
        get_all_notes(entries)
    }
}

fn strings(v: &[&str]) -> Vec<String> {
    v.iter().map(|s| String::from(*s)).collect()
}

#[test]
fn links_to_tag_has_prefix_and_title() {
    assert_eq!(links_to_tag(&String::from("new note")), "links_to_new note");
}

#[test]
fn linked_from_tag_has_prefix_and_title() {
    assert_eq!(linked_from_tag(&String::from("new note")), "linked_from_new note");
}

#[test]
fn tag_decodes_each_direction() {
    match title_from_tag(&String::from("links_to_a b")) {
        Some(NoteLink::LinksTo(t)) => assert_eq!(t, "a b"),
        _ => panic!("expected a links_to tag"),
    }
    match title_from_tag(&String::from("linked_from_c")) {
        Some(NoteLink::LinkedFrom(t)) => assert_eq!(t, "c"),
        _ => panic!("expected a linked_from tag"),
    }
    match title_from_tag(&String::from("links_to_")) {
        Some(NoteLink::LinksTo(t)) => assert_eq!(t, ""),
        _ => panic!("expected an empty links_to title"),
    }
}

#[test]
fn unrecognised_tag_decodes_to_nothing() {
    assert!(title_from_tag(&String::from("")).is_none());
    assert!(title_from_tag(&String::from("link_to_x")).is_none());
    assert!(title_from_tag(&String::from("xlinks_to_x")).is_none());
}

#[test]
fn tag_round_trips_titles_with_reserved_words() {
    let title = String::from("links_to_é ü");
    match title_from_tag(&linked_from_tag(&title)) {
        Some(NoteLink::LinkedFrom(t)) => assert_eq!(t, title),
        _ => panic!("expected a linked_from tag"),
    }
    match title_from_tag(&links_to_tag(&title)) {
        Some(NoteLink::LinksTo(t)) => assert_eq!(t, title),
        _ => panic!("expected a links_to tag"),
    }
}

#[test]
fn extract_finds_titles_in_order() {
    let r = extract_link_titles(&String::from("a [[X]] b [[Y Z]] c"));
    assert_eq!(r, strings(&["X", "Y Z"]));
}

#[test]
fn extract_finds_multi_word_titles() {
    let text = String::from(
        "
        hello, this is a note with [[backlinks]] which can be [[composed of multiple words]], [[I love links]].
        ",
    );
    let r = extract_link_titles(&text);
    assert_eq!(r.len(), 3);
    assert_eq!(r, strings(&["backlinks", "composed of multiple words", "I love links"]));
}

#[test]
fn extract_edge_cases() {
    assert_eq!(extract_link_titles(&String::from("")), Vec::<String>::new());
    assert_eq!(extract_link_titles(&String::from("no refs [x] ]]")), Vec::<String>::new());
    assert_eq!(extract_link_titles(&String::from("[[]]")), strings(&[""]));
    assert_eq!(extract_link_titles(&String::from("[[a]b]]")), Vec::<String>::new());
    assert_eq!(extract_link_titles(&String::from("[[[a]]")), strings(&["[a"]));
    assert_eq!(extract_link_titles(&String::from("[[x]][[x]]")), strings(&["x", "x"]));
    assert_eq!(extract_link_titles(&String::from("[[é\nü]] [[open")), strings(&["é\nü"]));
}

#[test]
fn parse_note_keeps_note_and_titles() {
    let r = parse_note_for_links_and_update_backlinks(NoteContentsInput {
        note: vec![1, 2],
        contents: String::from("see [[new note 2]] and [[ghost]]"),
    });
    assert_eq!(r.note, vec![1, 2]);
    assert_eq!(r.link_titles, strings(&["new note 2", "ghost"]));
}

#[test]
fn create_builds_record_and_two_anchor_edges() {
    let note = create_new_note(
        CreateNoteInput { title: String::from("t"), timestamp: 42, syn_dna_hash: vec![3] },
        vec![5],
    );
    assert_eq!(note.title, "t");
    assert_eq!(note.creator, vec![5]);
    assert_eq!(note.timestamp, 42);
    assert_eq!(note.syn_dna_hash, vec![3]);
    let w = index_note(&vec![1], &note.title);
    assert_eq!(w.len(), 2);
    assert!(same_base(&w[0].base, &LinkBase::Anchor(String::from("all_notes"))));
    assert!(same_base(&w[1].base, &LinkBase::Anchor(String::from("t"))));
    for e in &w {
        assert_eq!(e.target, vec![1]);
        assert!(e.link_type == LinkTypes::PathToNote);
        assert_eq!(e.tag, "");
    }
}

#[test]
fn latest_target_takes_last_edge() {
    assert!(latest_target(&Vec::new()).is_none());
    let links = vec![
        Link { target: vec![1], tag: String::new() },
        Link { target: vec![2], tag: String::new() },
    ];
    assert_eq!(latest_target(&links), Some(vec![2]));
}

#[test]
fn note_links_partition_and_last_wins() {
    let links = vec![
        Link { target: vec![1], tag: String::from("links_to_a") },
        Link { target: vec![2], tag: String::from("linked_from_b") },
        Link { target: vec![3], tag: String::from("junk") },
        Link { target: vec![4], tag: String::from("links_to_a") },
        Link { target: vec![5], tag: String::from("links_to_c") },
    ];
    let r = get_note_links(&links);
    assert_eq!(r.links_to.len(), 2);
    assert!(r.links_to.contains(&(String::from("a"), vec![4])));
    assert!(r.links_to.contains(&(String::from("c"), vec![5])));
    assert_eq!(r.linked_from, vec![(String::from("b"), vec![2])]);
}

#[test]
fn sync_plan_skips_linked_and_unresolved_titles() {
    let input = UpdateNoteBacklinksInput { note: vec![1], link_titles: strings(&["a", "b", "c", "a"]) };
    let existing = vec![Link { target: vec![8], tag: String::from("links_to_b") }];
    let resolved = vec![Some(vec![2]), Some(vec![3]), None, Some(vec![2])];
    let pairs = update_note_backlinks(&input, &existing, &resolved);
    assert_eq!(pairs, vec![(String::from("a"), vec![2])]);
    let writes = add_backlinks(&vec![1], &String::from("base"), &pairs);
    assert_eq!(writes.len(), 2);
    assert!(same_base(&writes[0].base, &LinkBase::Entry(vec![1])));
    assert_eq!(writes[0].target, vec![2]);
    assert_eq!(writes[0].tag, "links_to_a");
    assert!(same_base(&writes[1].base, &LinkBase::Entry(vec![2])));
    assert_eq!(writes[1].target, vec![1]);
    assert_eq!(writes[1].tag, "linked_from_base");
    assert!(writes.iter().all(|w| w.link_type == LinkTypes::NoteToBacklinks));
}

#[test]
fn create_and_get() {
    let mut store = MemStore::new();
    let h1 = store.create("new note", 1_700_000_000_000_000, vec![1, 1]);

    let all = store.all_notes();
    assert_eq!(all.len(), 1);
    assert_eq!(all[0].1.title, "new note");

    assert_eq!(store.find_by_title("new note").unwrap().title, "new note");

    let h2 = store.create("new note 2", 1_700_000_000_000_000, vec![2, 2]);
    assert_eq!(store.find_by_title("new note 2").unwrap().title, "new note 2");

    store.sync(&h1, strings(&["new note 2"]));
    store.sync(&h1, strings(&["blah"]));

    let first = store.note_links(&h1);
    let second = store.note_links(&h2);
    assert_eq!(first.links_to, vec![(String::from("new note 2"), h2.clone())]);
    assert_eq!(second.linked_from, vec![(String::from("new note"), h1.clone())]);
    assert!(first.linked_from.is_empty());
    assert!(second.links_to.is_empty());

    let before = store.edges.len();
    let input = parse_note_for_links_and_update_backlinks(NoteContentsInput {
        note: h1.clone(),
        contents: String::from("see [[new note 2]] and [[ghost]]"),
    });
    assert_eq!(input.link_titles, strings(&["new note 2", "ghost"]));
    store.sync(&input.note, input.link_titles.clone());
    assert_eq!(store.edges.len(), before);
    assert_eq!(store.note_links(&h1).links_to, vec![(String::from("new note 2"), h2.clone())]);
}

#[test]
fn unresolved_title_writes_nothing() {
    let mut store = MemStore::new();
    let h1 = store.create("a", 1, vec![1]);
    store.sync(&h1, strings(&["nobody"]));
    assert_eq!(store.edges.len(), 2);
    assert!(store.note_links(&h1).links_to.is_empty());
}

#[test]
fn sync_twice_is_sync_once() {
    let mut store = MemStore::new();
    let a = store.create("a", 1, vec![1]);
    let _b = store.create("b", 2, vec![2]);
    store.sync(&a, strings(&["b", "missing"]));
    let after_once = store.edges.len();
    store.sync(&a, strings(&["b", "missing"]));
    assert_eq!(store.edges.len(), after_once);
    assert_eq!(after_once, 6);
}

#[test]
fn self_reference_links_both_ways() {
    let mut store = MemStore::new();
    let a = store.create("me", 1, vec![1]);
    store.sync(&a, strings(&["me"]));
    let v = store.note_links(&a);
    assert_eq!(v.links_to, vec![(String::from("me"), a.clone())]);
    assert_eq!(v.linked_from, vec![(String::from("me"), a.clone())]);
}

#[test]
fn same_note_created_twice_is_listed_once() {
    let mut store = MemStore::new();
    let h = store.create("twin", 5, vec![4]);
    let h_again = store.create("twin", 5, vec![4]);
    assert_eq!(h, h_again);
    let global = store.list(&LinkBase::Anchor(all_notes_path()), LinkTypes::PathToNote);
    assert_eq!(global.len(), 2);
    let all = store.all_notes();
    assert_eq!(all.len(), 1);
    assert_eq!(all[0].0, vec![4]);
}

#[test]
fn titles_differing_in_case_use_separate_anchors() {
    let mut store = MemStore::new();
    store.create("Note", 1, vec![1]);
    store.create("note", 2, vec![2]);
    assert_eq!(store.find_by_title("Note").unwrap().timestamp, 1);
    assert_eq!(store.find_by_title("note").unwrap().timestamp, 2);
    assert!(store.find_by_title("NOTE").is_none());
}

#[test]
fn shared_title_resolves_to_last_listed() {
    let mut store = MemStore::new();
    store.create("dup", 1, vec![1]);
    store.create("dup", 2, vec![2]);
    assert_eq!(store.find_by_title("dup").unwrap().timestamp, 2);
    let all = store.all_notes();
    assert_eq!(all.len(), 2);
}

#[test]
fn repeated_title_gets_one_edge_pair() {
    let mut store = MemStore::new();
    let a = store.create("a", 1, vec![1]);
    let b = store.create("b", 2, vec![2]);
    store.sync(&a, strings(&["b", "b"]));
    assert_eq!(store.edges.len(), 6);
    assert_eq!(store.note_links(&a).links_to, vec![(String::from("b"), b.clone())]);
    assert_eq!(store.note_links(&b).linked_from, vec![(String::from("a"), a.clone())]);
}

#[test]
fn titles_with_dots_use_their_own_anchor() {
    let mut store = MemStore::new();
    store.create("a.b", 1, vec![1]);
    store.create("a..b", 2, vec![2]);
    assert_eq!(store.find_by_title("a.b").unwrap().timestamp, 1);
    assert_eq!(store.find_by_title("a..b").unwrap().timestamp, 2);
}

#[test]
fn extract_and_sync_links_only_resolvable_titles() {
    let mut store = MemStore::new();
    let h1 = store.create("new note", 1, vec![1]);
    let h2 = store.create("new note 2", 2, vec![2]);
    let input = parse_note_for_links_and_update_backlinks(NoteContentsInput {
        note: h1.clone(),
        contents: String::from("see [[new note 2]] and [[ghost]]"),
    });
    assert_eq!(input.link_titles, strings(&["new note 2", "ghost"]));
    store.sync(&input.note, input.link_titles.clone());
    assert_eq!(store.note_links(&h1).links_to, vec![(String::from("new note 2"), h2.clone())]);
    assert_eq!(store.note_links(&h2).linked_from, vec![(String::from("new note"), h1.clone())]);
    assert_eq!(store.edges.len(), 6);
}
