//! Round trips and scenarios for the serializer, the tokenizer and the
//! deserializer.

use tangles::doc::Document;
use tangles::edit::{toggle_heading, toggle_inline, toggle_list};
use tangles::tag::Tag;
use tangles::serialize::{serialize, serialize_to_string};
use tangles::deserialize::deserialize;

fn cv(s: &str) -> Vec<char> {
    s.chars().collect()
}

fn to_s(v: &Vec<char>) -> String {
    v.iter().collect()
}

fn no_avail() -> Vec<Vec<char>> {
    Vec::new()
}

#[test]
fn empty_document_serializes_to_nothing() {
    let d = Document::new();
    assert_eq!(serialize_to_string(&d), "");
}

#[test]
fn plain_paragraph() {
    let mut d = Document::new();
    d.type_text(0, &cv("Hello"));
    assert_eq!(serialize_to_string(&d), "<p>Hello</p>\n");
}

#[test]
fn bold_run_grouped() {
    let mut d = Document::new();
    d.type_text(0, &cv("Hello world"));
    toggle_inline(&mut d, &Tag::Bold, Some((0, 5)));
    assert_eq!(serialize_to_string(&d), "<p><b>Hello</b> world</p>\n");
}

#[test]
fn heading_line() {
    let mut d = Document::new();
    d.type_text(0, &cv("Title"));
    toggle_heading(&mut d, 0, &Tag::H1);
    assert_eq!(serialize_to_string(&d), "<h1>Title</h1>\n");
}

#[test]
fn round_trip_paragraph_and_inline() {
    let markup = "<p><b>Hello</b> world</p>\n";
    let d = deserialize(markup, &no_avail());
    assert_eq!(to_s(&d.text_all()), "Hello world");
    for p in 0..5 {
        assert_eq!(d.tags_at(p), vec![Tag::Bold]);
    }
    for p in 5..11 {
        assert!(d.tags_at(p).is_empty());
    }
    assert_eq!(serialize_to_string(&d), markup);
}

#[test]
fn round_trip_headings_and_styles() {
    let mut d = Document::new();
    d.type_text(0, &cv("one\ntwo three\nfour"));
    toggle_heading(&mut d, 0, &Tag::H2);
    toggle_inline(&mut d, &Tag::Italic, Some((4, 7)));
    toggle_inline(&mut d, &Tag::Underline, Some((8, 13)));
    toggle_inline(&mut d, &Tag::Strikethrough, Some((14, 18)));
    let markup = serialize_to_string(&d);
    let d2 = deserialize(&markup, &no_avail());
    assert_eq!(d.text_all(), d2.text_all());
    for p in 0..d.len() {
        assert_eq!(d.tags_at(p), d2.tags_at(p), "tag sets differ at {}", p);
    }
}

#[test]
fn heading_list_scenario() {
    let markup = "<h1>Title</h1><ul><li>one</li><li>two</li></ul>";
    let d = deserialize(markup, &no_avail());
    assert_eq!(to_s(&d.text_all()), "Title\n  \u{2022} one\n  \u{2022} two");
    assert!(d.has_tag_in_range(&Tag::H1, 0, 5));
    assert!(d.has_tag_in_range(&Tag::BulletList, 6, 13));
    assert!(d.has_tag_in_range(&Tag::BulletList, 14, 21));
    let again = serialize_to_string(&d);
    assert_eq!(again, "<h1>Title</h1>\n<ul>\n<li>one</li>\n<li>two</li>\n</ul>\n");
    let d2 = deserialize(&again, &no_avail());
    assert_eq!(d.text_all(), d2.text_all());
    for p in 0..d.len() {
        assert_eq!(d.tags_at(p), d2.tags_at(p));
    }
}

#[test]
fn numbered_list_round_trip() {
    let markup = "<ol><li>a</li><li>b</li></ol>";
    let d = deserialize(markup, &no_avail());
    assert_eq!(to_s(&d.text_all()), "  1. a\n  2. b");
    assert!(d.has_tag_in_range(&Tag::NumberedList, 0, 6));
    assert_eq!(serialize_to_string(&d), "<ol>\n<li>a</li>\n<li>b</li>\n</ol>\n");
}

#[test]
fn escaping_round_trip() {
    let mut d = Document::new();
    d.type_text(0, &cv("a&b<c>d\"e"));
    let markup = serialize_to_string(&d);
    assert_eq!(markup, "<p>a&amp;b&lt;c&gt;d&quot;e</p>\n");
    let d2 = deserialize(&markup, &no_avail());
    assert_eq!(to_s(&d2.text_all()), "a&b<c>d\"e");
}

#[test]
fn colors_round_trip() {
    let markup = "<p><span style=\"color:#ff0000\">x</span>y</p>";
    let d = deserialize(markup, &no_avail());
    assert_eq!(d.tags_at(0), vec![Tag::Foreground(cv("#ff0000"))]);
    assert!(d.tags_at(1).is_empty());
    assert_eq!(serialize_to_string(&d), "<p><span style=\"color:#ff0000\">x</span>y</p>\n");
}

#[test]
fn background_color_parsed() {
    let markup = "<p><span style=\"font-weight:bold; background-color: #00ff00 \">x</span></p>";
    let d = deserialize(markup, &no_avail());
    assert_eq!(d.tags_at(0), vec![Tag::Background(cv("#00ff00"))]);
}

#[test]
fn links_round_trip() {
    let markup = "<p><a href=\"https://example.test\">here</a></p>";
    let d = deserialize(markup, &no_avail());
    assert_eq!(d.tags_at(0), vec![Tag::WebLink(cv("https://example.test"))]);
    assert_eq!(
        serialize_to_string(&d),
        "<p><a href=\"https://example.test\">here</a></p>\n"
    );
}

#[test]
fn tangle_links_round_trip() {
    let markup = "<p><a href=\"tangle://Shopping\" class=\"tangle\">Shopping</a></p>";
    let d = deserialize(markup, &no_avail());
    assert_eq!(d.tags_at(0), vec![Tag::TangleLink(cv("Shopping"))]);
    assert_eq!(serialize_to_string(&d), markup.to_owned() + "\n");
}

#[test]
fn tangle_by_class_alone() {
    let markup = "<p><a href=\"Other Note\" class=\"tangle\">x</a></p>";
    let d = deserialize(markup, &no_avail());
    assert_eq!(d.tags_at(0), vec![Tag::TangleLink(cv("Other Note"))]);
}

#[test]
fn image_with_available_path() {
    let markup = "<p><img src=\"/tmp/pic.png\" width=\"240\" alt=\"image\"/></p>";
    let avail = vec![cv("/tmp/pic.png")];
    let d = deserialize(markup, &avail);
    assert_eq!(d.len(), 1);
    let a = d.anchor_at(0).expect("anchor");
    assert_eq!(to_s(&a.path), "/tmp/pic.png");
    assert_eq!(a.width, 240);
    assert_eq!(serialize_to_string(&d), markup.to_owned() + "\n");
}

#[test]
fn image_with_missing_path_is_dropped() {
    let markup = "<p><img src=\"/tmp/pic.png\" width=\"240\"/></p>";
    let d = deserialize(markup, &no_avail());
    assert_eq!(d.len(), 0);
    assert!(d.anchor_at(0).is_none());
}

#[test]
fn image_width_defaults_when_unreadable() {
    let avail = vec![cv("p")];
    let d = deserialize("<p><img src=\"p\" width=\"abc\"/></p>", &avail);
    let a = d.anchor_at(0).expect("anchor");
    assert_eq!(a.width, 300);
    let d2 = deserialize("<p><img src=\"p\"/></p>", &avail);
    assert_eq!(d2.anchor_at(0).expect("anchor").width, 300);
}

#[test]
fn inserted_image_serializes() {
    let mut d = Document::new();
    d.insert_image(0, cv("/tmp/x.png"), 300);
    assert_eq!(
        serialize_to_string(&d),
        "<p><img src=\"/tmp/x.png\" width=\"300\" alt=\"image\"/></p>\n"
    );
}

#[test]
fn unknown_elements_degrade_to_plain_text() {
    let d = deserialize("<p><xyz foo=\"1\">hi</xyz></p>", &no_avail());
    assert_eq!(to_s(&d.text_all()), "hi");
    assert!(d.tags_at(0).is_empty());
    assert!(d.tags_at(1).is_empty());
}

#[test]
fn malformed_markup_never_fails() {
    let cases = [
        "<b>unclosed",
        "</p>stray close",
        "a < b and a > b",
        "<p><b>cross</p></b>",
        "<<p>>",
        "<p attr=>x</p>",
        "<!doctype html><p>y</p>",
        "<p/>z",
        "&nosuch; &amp;",
    ];
    for m in cases {
        let d = deserialize(m, &no_avail());
        let _ = serialize_to_string(&d);
    }
}

#[test]
fn literal_less_than_stays_text() {
    let d = deserialize("<p>a < b</p>", &no_avail());
    assert_eq!(to_s(&d.text_all()), "a < b");
}

#[test]
fn entities_decode() {
    let d = deserialize("<p>a&amp;b&lt;c&gt;d&quot;e</p>", &no_avail());
    assert_eq!(to_s(&d.text_all()), "a&b<c>d\"e");
}

#[test]
fn upper_case_tags_are_recognized() {
    let d = deserialize("<P><B>Hi</B></P>", &no_avail());
    assert_eq!(to_s(&d.text_all()), "Hi");
    assert_eq!(d.tags_at(0), vec![Tag::Bold]);
}

#[test]
fn br_inserts_line_separator() {
    let d = deserialize("<p>a<br>b</p>", &no_avail());
    assert_eq!(to_s(&d.text_all()), "a\nb");
}

#[test]
fn whitespace_between_blocks_is_dropped() {
    let d = deserialize("<p>a</p>\n   <p>b</p>", &no_avail());
    assert_eq!(to_s(&d.text_all()), "a\nb");
}

#[test]
fn empty_blocks_still_separate() {
    let d = deserialize("<p></p><p>b</p>", &no_avail());
    assert_eq!(to_s(&d.text_all()), "\nb");
}

#[test]
fn list_toggle_then_serialize() {
    let mut d = Document::new();
    d.type_text(0, &cv("item"));
    toggle_list(&mut d, 0, &Tag::BulletList);
    assert_eq!(to_s(&d.text_all()), "  \u{2022} item");
    assert_eq!(serialize_to_string(&d), "<ul>\n<li>item</li>\n</ul>\n");
}
