//! The title scanner and the application of its matches, plus the tag
//! table and the store records.

use tangles::doc::Document;
use tangles::autolink::{apply_matches, scan_titles, sort_titles};
use tangles::tag::Tag;
use tangles::table::TagTable;
use tangles::store::LinkType;

fn cv(s: &str) -> Vec<char> {
    s.chars().collect()
}

fn to_s(v: &Vec<char>) -> String {
    v.iter().collect()
}

#[test]
fn longest_title_wins_at_a_shared_prefix() {
    let mut d = Document::new();
    d.type_text(0, &cv("I ate Apple Pie today"));
    let titles = vec![cv("Apple"), cv("Apple Pie")];
    let ms = scan_titles(&d.text_all(), &cv("Me"), &titles);
    assert_eq!(to_s(&ms[0].title), "Apple Pie");
    assert_eq!(ms[0].offset, 6);
    apply_matches(&mut d, &ms);
    // one link covers the long title; the shorter one was not applied
    for p in 6..15 {
        assert_eq!(d.tags_at(p), vec![Tag::TangleLink(cv("Apple Pie"))]);
    }
    assert!(d.tags_at(5).is_empty());
    assert!(d.tags_at(15).is_empty());
}

#[test]
fn word_boundaries_are_required() {
    let d_text = cv("Catalog");
    let ms = scan_titles(&d_text, &cv("Me"), &vec![cv("Cat")]);
    assert!(ms.is_empty());
}

#[test]
fn boundaries_accept_punctuation_and_edges() {
    let text = cv("Cat, log; Cat");
    let ms = scan_titles(&text, &cv("Me"), &vec![cv("Cat")]);
    assert_eq!(ms.len(), 2);
    assert_eq!(ms[0].offset, 0);
    assert_eq!(ms[1].offset, 10);
}

#[test]
fn own_empty_and_placeholder_titles_are_skipped() {
    let text = cv("Me and New Note here");
    let titles = vec![cv("Me"), cv(""), cv("New Note")];
    let ms = scan_titles(&text, &cv("Me"), &titles);
    assert!(ms.is_empty());
}

#[test]
fn one_title_never_overlaps_itself() {
    let text = cv("aa aa aa");
    let ms = scan_titles(&text, &cv("Me"), &vec![cv("aa")]);
    assert_eq!(ms.len(), 3);
    assert_eq!(ms[0].offset, 0);
    assert_eq!(ms[1].offset, 3);
    assert_eq!(ms[2].offset, 6);
}

#[test]
fn titles_sorted_longest_first_ties_stable() {
    let sorted = sort_titles(&vec![cv("bb"), cv("a"), cv("cc"), cv("dddd")]);
    let texts: Vec<String> = sorted.iter().map(to_s).collect();
    assert_eq!(texts, vec!["dddd", "bb", "cc", "a"]);
}

#[test]
fn applying_matches_twice_is_idempotent() {
    let mut d = Document::new();
    d.type_text(0, &cv("see Notes here"));
    let titles = vec![cv("Notes")];
    let ms = scan_titles(&d.text_all(), &cv("Me"), &titles);
    apply_matches(&mut d, &ms);
    let snapshot = tangles::serialize::serialize_to_string(&d);
    let ms2 = scan_titles(&d.text_all(), &cv("Me"), &titles);
    apply_matches(&mut d, &ms2);
    assert_eq!(tangles::serialize::serialize_to_string(&d), snapshot);
}

#[test]
fn stale_offsets_are_dropped_or_clipped() {
    let mut d = Document::new();
    d.type_text(0, &cv("ab"));
    let ms = vec![
        tangles::autolink::TitleMatch { offset: 10, title: cv("gone") },
        tangles::autolink::TitleMatch { offset: 1, title: cv("long title") },
    ];
    apply_matches(&mut d, &ms);
    assert!(d.tags_at(0).is_empty());
    assert_eq!(d.tags_at(1), vec![Tag::TangleLink(cv("long title"))]);
}

#[test]
fn tag_table_interns_names() {
    let mut t = TagTable::new();
    assert_eq!(t.count(), 0);
    assert!(t.lookup(&cv("bold")).is_none());
    assert_eq!(t.get_or_create(&cv("bold")), Tag::Bold);
    assert_eq!(t.count(), 1);
    assert_eq!(t.get_or_create(&cv("bold")), Tag::Bold);
    assert_eq!(t.count(), 1);
    assert_eq!(t.lookup(&cv("bold")), Some(Tag::Bold));
    assert_eq!(
        t.get_or_create(&cv("fg::#ff0000")),
        Tag::Foreground(cv("#ff0000"))
    );
    assert_eq!(
        t.get_or_create(&cv("tangle::Other")),
        Tag::TangleLink(cv("Other"))
    );
    assert_eq!(t.get_or_create(&cv("h3")), Tag::H3);
    assert_eq!(t.get_or_create(&cv("numbered-list")), Tag::NumberedList);
    assert_eq!(t.get_or_create(&cv("mystery")), Tag::Plain(cv("mystery")));
    assert_eq!(t.count(), 6);
}

#[test]
fn link_type_labels_round_trip() {
    assert_eq!(to_s(&LinkType::Connection.label()), "connection");
    assert_eq!(to_s(&LinkType::WordReference.label()), "word_reference");
    assert!(matches!(
        LinkType::from_label(&cv("word_reference")),
        LinkType::WordReference
    ));
    assert!(matches!(
        LinkType::from_label(&cv("connection")),
        LinkType::Connection
    ));
    assert!(matches!(LinkType::from_label(&cv("junk")), LinkType::Connection));
}

#[test]
fn store_records_hold_their_fields() {
    let link = tangles::store::Link {
        id: Some(1),
        source_note_id: 2,
        target_note_id: 3,
        link_type: LinkType::Connection,
        created_at: String::from("2026-01-01T00:00:00Z"),
    };
    assert_eq!(link.source_note_id, 2);
    assert_eq!(link.target_note_id, 3);
    let w = tangles::store::WordIndex {
        id: None,
        word: String::from("note"),
        note_id: 3,
        frequency: 4,
    };
    assert_eq!(w.frequency, 4);
}
