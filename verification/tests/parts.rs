//! Texts, marks, styles and patterns on their own.

use gpui_notion::block::{BlockAttrs, BlockContent, PARAGRAPH};
use gpui_notion::edit::measure_rows;
use gpui_notion::input_rules::{attrs_from_capture, InputRuleMode};
use gpui_notion::mark::{
    copy_kinds, diff_edit, inclusive_kinds, HighlightColor, MarkKind, Marks, TextColor, TextEdit,
    ThreadId,
};
use gpui_notion::pattern::{captures, compiles};
use gpui_notion::slash::{default_people, group_rank, mention_mark_id};
use gpui_notion::style::{highlight_style, Tint, UnderlineStyle};
use gpui_notion::suggestion::{default_emoji, default_mentions, Trigger};
use gpui_notion::text;
use gpui_notion::toolbar::normalize_href;

#[test]
fn texts_are_measured_and_cut_in_bytes() {
    assert_eq!(text::text_len("añ🚀"), 7);
    assert!(text::is_boundary("añ", 1));
    assert!(!text::is_boundary("añ", 2));
    assert!(text::is_boundary("añ", 3));
    assert!(!text::is_boundary("añ", 4));
    assert_eq!(text::cut("añb", 3), ("añ", "b"));
    assert_eq!(text::text_slice("añb", 1, 3), "ñ");
    assert_eq!(text::text_splice("añb", 1, 3, "--"), "a--b");
    assert_eq!(text::text_snap("añ", 2), 1);
    assert_eq!(text::text_snap("añ", 3), 3);
}

#[test]
fn white_space_is_what_unicode_says() {
    for code in 0..0x11_0000u32 {
        if let Some(c) = char::from_u32(code) {
            assert_eq!(text::is_whitespace(c), c.is_whitespace(), "{:x}", code);
        }
    }
}

#[test]
fn trimming_follows_white_space() {
    for source in ["", " ", "a", " a", "a\t", "\u{a0}a b\u{2003}\n", "\u{feff}a"] {
        assert_eq!(text::text_trim(source), source.trim());
        assert_eq!(text::text_trim_end(source), source.trim_end());
    }
}

#[test]
fn searching_finds_what_is_there() {
    assert!(text::text_contains("a://b", "://"));
    assert!(!text::text_contains("a:/b", "://"));
    assert!(text::text_contains("", ""));
    assert!(text::text_starts_with("mailto:x", "mailto:"));
    assert!(!text::text_starts_with("m", "mailto:"));
    assert!(text::text_ends_with("a...", "..."));
    assert!(!text::text_ends_with("..", "..."));
    assert!(text::text_contains_ignoring_case("Heading 1", "HEAD"));
    assert!(!text::text_contains_ignoring_case("Heading 1", "heads"));
    assert!(text::has_char("a\nb", '\n'));
    assert_eq!(text::first_char("ñ/"), Some('ñ'));
    assert_eq!(text::last_char("ñ/"), Some('/'));
    assert_eq!(text::last_char(""), None);
}

#[test]
fn splitting_into_lines_loses_nothing() {
    for source in ["", "a", "\n", "a\n", "\na", "a\nb\n\nc"] {
        let lines = text::text_lines(source);
        let expected: Vec<&str> = source.split('\n').collect();
        assert_eq!(lines, expected);
        assert_eq!(lines.join("\n"), source);
    }
}

#[test]
fn a_mark_replaces_its_kind_and_leaves_the_others() {
    let mut marks = Marks::new();
    marks.add(MarkKind::Link("a".to_string()), 0, 10);
    marks.add(MarkKind::Bold, 2, 4);
    marks.add(MarkKind::Link("b".to_string()), 3, 5);
    let at = |o: usize| marks.mark_at(&MarkKind::Link(String::new()), o).map(|m| m.kind.clone());
    assert_eq!(at(2), Some(MarkKind::Link("a".to_string())));
    assert_eq!(at(3), Some(MarkKind::Link("b".to_string())));
    assert_eq!(at(5), Some(MarkKind::Link("a".to_string())));
    assert!(marks.has(&MarkKind::Bold, 2, 4));
    assert!(!marks.has(&MarkKind::Bold, 2, 5));
    assert!(!marks.has(&MarkKind::Bold, 3, 3));

    marks.remove(&MarkKind::Link(String::new()), 4, 6);
    assert!(marks.has(&MarkKind::Link(String::new()), 0, 4));
    assert!(marks.mark_at(&MarkKind::Link(String::new()), 4).is_none());
    assert!(marks.has(&MarkKind::Link(String::new()), 6, 10));
}

#[test]
fn an_empty_range_takes_no_mark() {
    let mut marks = Marks::new();
    marks.add(MarkKind::Bold, 3, 3);
    assert!(marks.is_empty());
    marks.add(MarkKind::Bold, 1, 3);
    marks.remove(&MarkKind::Bold, 2, 2);
    assert!(marks.has(&MarkKind::Bold, 1, 3));
    marks.clear();
    assert!(marks.is_empty());
}

#[test]
fn clamping_cuts_marks_to_the_text() {
    let mut marks = Marks::new();
    marks.add(MarkKind::Bold, 0, 8);
    marks.add(MarkKind::Italic, 6, 8);
    marks.clamp(5);
    assert!(marks.has(&MarkKind::Bold, 0, 5));
    assert_eq!(marks.items.len(), 1);
    assert_eq!(marks.items[0].end, 5);
}

#[test]
fn marks_move_with_the_text() {
    let mut marks = Marks::new();
    marks.add(MarkKind::Bold, 4, 8);
    marks.remap(&TextEdit { start: 0, end: 0, new_len: 3 }, 10);
    assert_eq!((marks.items[0].start, marks.items[0].end), (7, 11));
    marks.remap(&TextEdit { start: 8, end: 10, new_len: 1 }, 13);
    assert_eq!((marks.items[0].start, marks.items[0].end), (7, 10));
}

#[test]
fn runs_are_the_stretches_of_equal_marks() {
    let mut marks = Marks::new();
    marks.add(MarkKind::Bold, 0, 4);
    marks.add(MarkKind::Italic, 2, 6);
    let runs: Vec<(usize, usize, Vec<MarkKind>)> = marks
        .runs(8)
        .into_iter()
        .map(|run| (run.start, run.end, run.kinds))
        .collect();
    assert_eq!(
        runs,
        vec![
            (0, 2, vec![MarkKind::Bold]),
            (2, 4, vec![MarkKind::Bold, MarkKind::Italic]),
            (4, 6, vec![MarkKind::Italic]),
        ]
    );
}

#[test]
fn the_edit_between_two_texts_is_found() {
    assert!(diff_edit("same", "same").is_none());
    let edit = diff_edit("hello world", "hello brave world").unwrap();
    assert_eq!(edit, TextEdit { start: 6, end: 6, new_len: 6 });
    let edit = diff_edit("aña", "aa").unwrap();
    assert_eq!(edit, TextEdit { start: 1, end: 3, new_len: 0 });
    let edit = diff_edit("", "x").unwrap();
    assert_eq!(edit, TextEdit { start: 0, end: 0, new_len: 1 });
}

#[test]
fn links_mentions_and_comments_end_where_they_were_put() {
    let kinds = vec![
        MarkKind::Bold,
        MarkKind::Link("x".to_string()),
        MarkKind::Mention("x".to_string()),
        MarkKind::Comment(ThreadId(1)),
        MarkKind::Code,
    ];
    assert_eq!(inclusive_kinds(&kinds), vec![MarkKind::Bold, MarkKind::Code]);
    assert_eq!(copy_kinds(&kinds), kinds);
}

#[test]
fn later_marks_paint_over_earlier_ones() {
    let style = highlight_style(&vec![
        MarkKind::Bold,
        MarkKind::Highlight(Some(HighlightColor(2))),
        MarkKind::TextColor(TextColor(1)),
        MarkKind::Comment(ThreadId(7)),
        MarkKind::Superscript,
    ]);
    assert!(style.bold);
    assert!(!style.italic);
    assert_eq!(style.color, Some(Tint::Text(TextColor(1))));
    assert_eq!(style.background_color, Some(Tint::CommentFill));
    assert_eq!(style.underline, Some(UnderlineStyle { color: Some(Tint::CommentAccent) }));

    let code = highlight_style(&vec![MarkKind::Code]);
    assert_eq!(code.background_color, Some(Tint::CodeBackground));
    assert_eq!(code.color, Some(Tint::CodeForeground));
    let link = highlight_style(&vec![MarkKind::Link(String::new()), MarkKind::Strike]);
    assert_eq!(link.color, Some(Tint::Link));
    assert_eq!(link.underline, Some(UnderlineStyle { color: None }));
    assert!(link.strikethrough);
}

#[test]
fn patterns_that_are_none_are_told() {
    assert!(compiles(r"^(#{1,3})\s$"));
    assert!(!compiles("("));
    assert!(!compiles(r"[a"));
}

#[test]
fn a_match_gives_its_groups_in_bytes() {
    let found = captures(r"(?:^|\s)(\*\*(?P<body>[^*]+)\*\*)$", "ñ **b** ").is_none();
    assert!(found);
    let caps = captures(r"(?:^|\s)(\*\*(?P<body>[^*]+)\*\*)$", "ñ **b**").unwrap();
    assert_eq!(caps.get(0), Some((2, 8)));
    assert_eq!(caps.get(1), Some((3, 8)));
    assert_eq!(caps.name("body"), Some((5, 6)));
    assert_eq!(caps.text_of((5, 6)), "b");
    assert_eq!(caps.get(3), None);
    assert_eq!(caps.name("tail"), None);

    let caps = captures("(a)|(b)", "b").unwrap();
    assert_eq!(caps.get(1), None);
    assert_eq!(caps.get(2), Some((0, 1)));
}

#[test]
fn attributes_are_read_from_a_capture() {
    let caps = captures(r"^(?P<kind>\w+)!$", "note!").unwrap();
    let attrs = attrs_from_capture(&caps, "kind");
    assert_eq!(attrs.extra, vec![("kind".to_string(), "note".to_string())]);
    let none = attrs_from_capture(&caps, "other");
    assert!(none.extra.is_empty());
    assert!(none.same(&BlockAttrs::new()));
}

#[test]
fn the_editor_interprets_what_is_typed_by_default() {
    assert_eq!(InputRuleMode::default(), InputRuleMode::BuiltIn);
}

#[test]
fn named_attributes_are_set_in_place() {
    let mut attrs = BlockAttrs::new();
    attrs.set_extra("a".to_string(), "1".to_string());
    attrs.set_extra("b".to_string(), "2".to_string());
    attrs.set_extra("a".to_string(), "3".to_string());
    assert_eq!(
        attrs.extra,
        vec![("a".to_string(), "3".to_string()), ("b".to_string(), "2".to_string())]
    );
    assert!(attrs.same(&attrs.copy()));
    let mut other = attrs.copy();
    other.language = Some("rust".to_string());
    assert!(!attrs.same(&other));
}

#[test]
fn bare_addresses_get_a_scheme() {
    assert_eq!(normalize_href(" tiptap.dev "), "https://tiptap.dev");
    assert_eq!(normalize_href("http://a"), "http://a");
    assert_eq!(normalize_href("mailto:a@b"), "mailto:a@b");
    assert_eq!(normalize_href("#top"), "#top");
    assert_eq!(normalize_href(""), "https://");
    assert_eq!(normalize_href(&normalize_href("x y")), "https://x y");
}

#[test]
fn groups_have_their_places() {
    let places: Vec<usize> = ["AI", "Style", "Insert", "Upload", "Emoji", "People", "Mine", ""]
        .iter()
        .map(|group| group_rank(group))
        .collect();
    assert_eq!(places, vec![0, 1, 2, 3, 4, 5, 6, 6]);
}

#[test]
fn rows_are_counted_from_lines_and_breaks() {
    assert_eq!(measure_rows("", &Some(vec![0])), 1);
    assert_eq!(measure_rows("a\n\nb", &Some(vec![2, 5, 0])), 5);
    assert_eq!(measure_rows("a\nb", &None), 1);
}

#[test]
fn mention_marks_carry_an_id() {
    let people = default_people();
    assert_eq!(people.len(), 1);
    assert_eq!(people[0].name, "Ada Lovelace");
    assert_eq!(people[0].name, default_mentions()[0].name);
    let mark = people[0].mark();
    assert_eq!(mention_mark_id(&mark), Some("ada".to_string()));
    assert_eq!(mention_mark_id(&MarkKind::Bold), None);
    assert_eq!(default_emoji()[0].character, "🚀");
}

#[test]
fn triggers_and_their_characters() {
    for trigger in [Trigger::Slash, Trigger::Emoji, Trigger::Mention] {
        assert_eq!(Trigger::from_character(trigger.character()), Some(trigger));
    }
    assert_eq!(Trigger::from_character('x'), None);
}

#[test]
fn content_is_plain_until_something_is_set() {
    let content = BlockContent::paragraph("text");
    assert_eq!(content.ty, PARAGRAPH);
    assert_eq!(content.text, "text");
    assert_eq!(content.indent, 0);
    assert!(content.marks.is_empty());
    assert!(content.attrs.same(&BlockAttrs::new()));
}

#[test]
fn marks_are_the_same_by_what_they_cover() {
    let mut one = Marks::new();
    assert!(one.same(&Marks::new()));
    one.add(MarkKind::Link("a".to_string()), 0, 3);
    assert!(!one.same(&Marks::new()));
    assert!(one.same(&one.copy()));
    let mut other = Marks::new();
    other.add(MarkKind::Link("b".to_string()), 0, 3);
    assert!(!one.same(&other));
    let mut shorter = Marks::new();
    shorter.add(MarkKind::Link("a".to_string()), 0, 2);
    assert!(!one.same(&shorter));
    assert!(MarkKind::Link("a".to_string()).same(&MarkKind::Link("a".to_string())));
    assert!(!MarkKind::Bold.same(&MarkKind::Italic));
}
