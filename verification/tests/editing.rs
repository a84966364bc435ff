//! The editing state machine: list toggling, Enter-key continuation,
//! heading exclusivity, prefix recognition, colors, links and the
//! pending tag set.

use tangles::doc::Document;
use tangles::edit::{
    apply_color,
    count_list_prefix_chars,
    handle_enter,
    insert_link,
    insert_tangle,
    list_number,
    remove_colors,
    toggle_heading,
    toggle_inline,
    toggle_list,
};
use tangles::tag::Tag;
use tangles::color::{is_valid_hex_color, parse_style_color};

fn cv(s: &str) -> Vec<char> {
    s.chars().collect()
}

fn to_s(v: &Vec<char>) -> String {
    v.iter().collect()
}

#[test]
fn toggle_list_twice_restores_plain_line() {
    let mut d = Document::new();
    d.type_text(0, &cv("hello world"));
    toggle_inline(&mut d, &Tag::Bold, Some((0, 5)));
    toggle_list(&mut d, 0, &Tag::BulletList);
    assert_eq!(to_s(&d.text_all()), "  \u{2022} hello world");
    toggle_list(&mut d, 0, &Tag::BulletList);
    assert_eq!(to_s(&d.text_all()), "hello world");
    for p in 0..5 {
        assert_eq!(d.tags_at(p), vec![Tag::Bold]);
    }
    for p in 5..11 {
        assert!(d.tags_at(p).is_empty());
    }
}

#[test]
fn toggle_numbered_twice_restores() {
    let mut d = Document::new();
    d.type_text(0, &cv("2. odd line"));
    toggle_list(&mut d, 0, &Tag::NumberedList);
    assert_eq!(to_s(&d.text_all()), "  1. 2. odd line");
    toggle_list(&mut d, 0, &Tag::NumberedList);
    assert_eq!(to_s(&d.text_all()), "2. odd line");
}

#[test]
fn toggle_list_switches_kind() {
    let mut d = Document::new();
    d.type_text(0, &cv("x"));
    toggle_list(&mut d, 0, &Tag::BulletList);
    toggle_list(&mut d, 0, &Tag::NumberedList);
    assert_eq!(to_s(&d.text_all()), "  1. x");
    assert!(!d.has_tag_in_range(&Tag::BulletList, 0, d.len()));
    assert!(d.has_tag_in_range(&Tag::NumberedList, 0, d.len()));
}

#[test]
fn enter_exits_empty_bullet_item() {
    let mut d = Document::new();
    toggle_list(&mut d, 0, &Tag::BulletList);
    assert_eq!(to_s(&d.text_all()), "  \u{2022} ");
    let consumed = handle_enter(&mut d, 4);
    assert!(consumed);
    assert_eq!(d.len(), 0);
}

#[test]
fn enter_continues_bullet_item() {
    let mut d = Document::new();
    toggle_list(&mut d, 0, &Tag::BulletList);
    d.type_text(4, &cv("hi"));
    let consumed = handle_enter(&mut d, 6);
    assert!(consumed);
    assert_eq!(to_s(&d.text_all()), "  \u{2022} hi\n  \u{2022} ");
    assert!(d.has_tag_in_range(&Tag::BulletList, 7, 11));
}

#[test]
fn enter_increments_numbered_item() {
    let mut d = Document::new();
    d.type_text(0, &cv("a"));
    toggle_list(&mut d, 0, &Tag::NumberedList);
    assert_eq!(to_s(&d.text_all()), "  1. a");
    let consumed = handle_enter(&mut d, 6);
    assert!(consumed);
    assert_eq!(to_s(&d.text_all()), "  1. a\n  2. ");
    assert!(d.has_tag_in_range(&Tag::NumberedList, 7, 12));
}

#[test]
fn enter_on_plain_line_is_not_consumed() {
    let mut d = Document::new();
    d.type_text(0, &cv("plain"));
    let consumed = handle_enter(&mut d, 5);
    assert!(!consumed);
    assert_eq!(to_s(&d.text_all()), "plain");
}

#[test]
fn heading_family_is_exclusive() {
    let mut d = Document::new();
    d.type_text(0, &cv("head"));
    toggle_heading(&mut d, 0, &Tag::H1);
    assert!(d.has_tag_in_range(&Tag::H1, 0, 4));
    toggle_heading(&mut d, 0, &Tag::H2);
    assert!(!d.has_tag_in_range(&Tag::H1, 0, 4));
    assert!(d.has_tag_in_range(&Tag::H2, 0, 4));
    for p in 0..4 {
        assert_eq!(d.tags_at(p), vec![Tag::H2]);
    }
}

#[test]
fn heading_toggles_off_when_already_set() {
    let mut d = Document::new();
    d.type_text(0, &cv("head"));
    toggle_heading(&mut d, 0, &Tag::H3);
    toggle_heading(&mut d, 0, &Tag::H3);
    for p in 0..4 {
        assert!(d.tags_at(p).is_empty());
    }
}

#[test]
fn prefix_recognition_boundaries() {
    assert_eq!(count_list_prefix_chars(&cv("  \u{2022} tail")), 4);
    assert_eq!(count_list_prefix_chars(&cv("  \u{2022} ")), 4);
    assert_eq!(count_list_prefix_chars(&cv("  1. x")), 5);
    assert_eq!(count_list_prefix_chars(&cv("1. x")), 3);
    assert_eq!(count_list_prefix_chars(&cv(" 12. x")), 5);
    assert_eq!(count_list_prefix_chars(&cv("  9999. x")), 8);
    assert_eq!(count_list_prefix_chars(&cv("  12345. x")), 0);
    assert_eq!(count_list_prefix_chars(&cv("   1. x")), 0);
    assert_eq!(count_list_prefix_chars(&cv("  . x")), 0);
    assert_eq!(count_list_prefix_chars(&cv("  1.x")), 0);
    assert_eq!(count_list_prefix_chars(&cv("  1 . x")), 0);
    assert_eq!(count_list_prefix_chars(&cv("plain")), 0);
    assert_eq!(count_list_prefix_chars(&cv("")), 0);
    assert_eq!(count_list_prefix_chars(&cv("  1.")), 0);
}

#[test]
fn list_number_extraction() {
    assert_eq!(list_number(&cv("  7. x")), 7);
    assert_eq!(list_number(&cv("  9999. x")), 9999);
    assert_eq!(list_number(&cv("  \u{2022} x")), 0);
    assert_eq!(list_number(&cv("plain")), 0);
}

#[test]
fn inline_toggle_removes_if_any_position_covered() {
    let mut d = Document::new();
    d.type_text(0, &cv("abcdef"));
    toggle_inline(&mut d, &Tag::Bold, Some((0, 3)));
    // the second toggle overlaps the bold run, so it removes
    toggle_inline(&mut d, &Tag::Bold, Some((2, 6)));
    assert!(d.has_tag_in_range(&Tag::Bold, 0, 2));
    assert!(!d.has_tag_in_range(&Tag::Bold, 2, 6));
}

#[test]
fn pending_tags_apply_to_next_typed_text() {
    let mut d = Document::new();
    toggle_inline(&mut d, &Tag::Bold, None);
    assert_eq!(d.pending_tags(), vec![Tag::Bold]);
    d.type_text(0, &cv("hi"));
    assert_eq!(d.tags_at(0), vec![Tag::Bold]);
    assert_eq!(d.tags_at(1), vec![Tag::Bold]);
    assert!(d.pending_tags().is_empty());
}

#[test]
fn pending_toggle_is_an_involution() {
    let mut d = Document::new();
    toggle_inline(&mut d, &Tag::Italic, None);
    toggle_inline(&mut d, &Tag::Italic, None);
    assert!(d.pending_tags().is_empty());
}

#[test]
fn cursor_movement_clears_pending() {
    let mut d = Document::new();
    toggle_inline(&mut d, &Tag::Bold, None);
    d.clear_pending();
    d.type_text(0, &cv("hi"));
    assert!(d.tags_at(0).is_empty());
}

#[test]
fn color_application_is_exclusive_per_family() {
    let mut d = Document::new();
    d.type_text(0, &cv("color"));
    apply_color(&mut d, true, &cv("#ff0000"), Some((0, 5)));
    apply_color(&mut d, true, &cv("#00ff00"), Some((0, 5)));
    assert_eq!(d.tags_at(0), vec![Tag::Foreground(cv("#00ff00"))]);
    apply_color(&mut d, false, &cv("#0000ff"), Some((0, 5)));
    assert_eq!(
        d.tags_at(0),
        vec![Tag::Foreground(cv("#00ff00")), Tag::Background(cv("#0000ff"))]
    );
    remove_colors(&mut d, true, Some((0, 5)));
    assert_eq!(d.tags_at(0), vec![Tag::Background(cv("#0000ff"))]);
}

#[test]
fn invalid_color_is_rejected_as_noop() {
    let mut d = Document::new();
    d.type_text(0, &cv("x"));
    apply_color(&mut d, true, &cv("#ff00zz"), Some((0, 1)));
    apply_color(&mut d, true, &cv("red"), Some((0, 1)));
    apply_color(&mut d, true, &cv("#ff00001"), Some((0, 1)));
    assert!(d.tags_at(0).is_empty());
}

#[test]
fn hex_color_shape() {
    assert!(is_valid_hex_color(&cv("#ff0000")));
    assert!(is_valid_hex_color(&cv("#AbCdEf")));
    assert!(!is_valid_hex_color(&cv("ff0000")));
    assert!(!is_valid_hex_color(&cv("#ff000")));
    assert!(!is_valid_hex_color(&cv("#ff000g")));
    assert!(!is_valid_hex_color(&cv("")));
}

#[test]
fn style_declaration_parsing() {
    assert_eq!(
        parse_style_color(&cv("color:#ff0000")),
        Some(Tag::Foreground(cv("#ff0000")))
    );
    assert_eq!(
        parse_style_color(&cv("font-size:12px; background-color: #00ff00")),
        Some(Tag::Background(cv("#00ff00")))
    );
    assert_eq!(parse_style_color(&cv("font-weight:bold")), None);
    assert_eq!(parse_style_color(&cv("")), None);
}

#[test]
fn web_link_insertion() {
    let mut d = Document::new();
    d.type_text(0, &cv("click here"));
    insert_link(&mut d, &cv("https://example.test"), &cv(""), 0, Some((6, 10)));
    assert_eq!(d.tags_at(6), vec![Tag::WebLink(cv("https://example.test"))]);
    assert!(d.tags_at(0).is_empty());
}

#[test]
fn web_link_without_selection_inserts_display_text() {
    let mut d = Document::new();
    insert_link(&mut d, &cv("https://example.test"), &cv("example"), 0, None);
    assert_eq!(to_s(&d.text_all()), "example");
    assert_eq!(d.tags_at(0), vec![Tag::WebLink(cv("https://example.test"))]);
}

#[test]
fn empty_url_is_noop() {
    let mut d = Document::new();
    d.type_text(0, &cv("x"));
    insert_link(&mut d, &cv(""), &cv("y"), 0, None);
    assert_eq!(to_s(&d.text_all()), "x");
}

#[test]
fn tangle_insertion_without_selection_inserts_title() {
    let mut d = Document::new();
    insert_tangle(&mut d, &cv("Other Note"), 0, None);
    assert_eq!(to_s(&d.text_all()), "Other Note");
    assert_eq!(d.tags_at(0), vec![Tag::TangleLink(cv("Other Note"))]);
}
