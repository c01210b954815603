//! Test drive of the basics: typing, markdown rules, marks, menus, toolbars
//! and focus, as an interface would drive the editor.

use gpui_notion::block::{
    BlockAttrs, BlockCaps, BlockContent, BlockId, BlockRegistry, BlockSpec, InputRule, Selection,
};
use gpui_notion::effect::{Decoration, Effect};
use gpui_notion::input_rules::InputRuleMode;
use gpui_notion::mark::{HighlightColor, MarkKind, TextColor};
use gpui_notion::pattern::Captures;
use gpui_notion::render::MarginTop;
use gpui_notion::slash::{
    ApplicationMenu, ApplicationMenuAnchor, Leading, MenuAction, MenuPlace, MenuRow,
};
use gpui_notion::style::{highlight_style, Tint};
use gpui_notion::suggestion::{Emoji, Mention, SlashItem, SlashRun, Trigger};
use gpui_notion::toolbar::{
    color_menu, more_items, turn_into_items, ActiveMarks, ApplyColor, ColorRow, CommandRow,
    ExistingLink, LinkEditor, ToolbarCommand, ToolbarItem, ToolbarPart, ToolbarPlace,
};
use gpui_notion::view::{Caret, CellPosition, NotionEditor};

const PARAGRAPH: &str = "paragraph";
const HEADING: &str = "heading";
const BULLET_LIST: &str = "bulletList";
const ORDERED_LIST: &str = "orderedList";
const BLOCKQUOTE: &str = "blockquote";
const CODE_BLOCK: &str = "codeBlock";
const DIVIDER: &str = "horizontalRule";
const TABLE: &str = "table";
const TASK: &str = "taskItem";

/// A block type of the test document.
struct Kind(&'static str);

impl BlockSpec for Kind {
    fn caps(&self) -> BlockCaps {
        let list = self.0 == BULLET_LIST || self.0 == ORDERED_LIST;
        let code = self.0 == CODE_BLOCK;
        let atom = self.0 == DIVIDER || self.0 == TABLE;
        BlockCaps {
            textual: !atom,
            marks: !atom && !code,
            list,
            grid: self.0 == TABLE,
            multiline: code,
            input_rules: !atom && !code,
        }
    }

    fn placeholder(&self, attrs: &BlockAttrs) -> String {
        match self.0 {
            HEADING => format!("Heading {}", attrs.level),
            PARAGRAPH => "Write, type '/' for commands…".to_string(),
            _ => String::new(),
        }
    }

    fn placeholder_always(&self) -> bool {
        self.0 == HEADING
    }

    fn label(&self, attrs: &BlockAttrs) -> String {
        match self.0 {
            HEADING => format!("Heading {}", attrs.level),
            PARAGRAPH => "Text".to_string(),
            other => other.to_string(),
        }
    }

    fn strikethrough(&self, attrs: &BlockAttrs) -> bool {
        self.0 == TASK && attrs.level == 1
    }

    fn collapse_with_siblings(&self, _attrs: &BlockAttrs) -> bool {
        self.0 == BULLET_LIST || self.0 == ORDERED_LIST
    }

    fn build(&self, _rule: usize, caps: &Captures) -> Option<(String, BlockAttrs)> {
        let mut attrs = BlockAttrs::new();
        match self.0 {
            HEADING => {
                let span = caps.get(1)?;
                attrs.level = caps.text_of(span).len();
            }
            ORDERED_LIST => {
                let span = caps.get(1)?;
                let start: usize = caps.text_of(span).parse().ok()?;
                if start != 1 {
                    attrs.start = Some(start);
                }
            }
            _ => {}
        }
        Some((self.0.to_string(), attrs))
    }
}

fn slash(title: &'static str, keywords: &[&'static str], group: &'static str, n: usize) -> SlashItem {
    SlashItem {
        title,
        subtext: "",
        keywords: keywords.to_vec(),
        group,
        icon: "type",
        run: SlashRun::Command(n),
    }
}

fn registry() -> BlockRegistry<Kind> {
    let types: [(&'static str, &[&str]); 9] = [
        (PARAGRAPH, &[]),
        (HEADING, &[r"^(#{1,3})\s$"]),
        (BULLET_LIST, &[r"^[-*+]\s$"]),
        (ORDERED_LIST, &[r"^(\d+)\.\s$"]),
        (BLOCKQUOTE, &[r"^>\s$"]),
        (CODE_BLOCK, &[r"^```\s$"]),
        (DIVIDER, &[r"^---\s$", r"^\*\*\*\s$"]),
        (TABLE, &[]),
        (TASK, &[]),
    ];
    let mut registry = BlockRegistry::new(Kind(PARAGRAPH));
    for (name, patterns) in types {
        let patterns = patterns.iter().map(|pattern| pattern.to_string()).collect();
        registry.register(name.to_string(), Kind(name), patterns);
    }
    registry.slash = vec![
        slash("Image", &["picture", "upload"], "Upload", 9),
        slash("Text", &["paragraph"], "Style", 0),
        slash("Heading 1", &["h1"], "Style", 1),
        slash("Heading 2", &["h2"], "Style", 2),
        slash("Heading 3", &["h3"], "Style", 3),
        slash("Table", &["grid"], "Insert", 4),
    ];
    registry
}

struct Harness {
    editor: NotionEditor<Kind>,
    /// The block whose input has the keyboard.
    keyboard: Option<BlockId>,
}

fn setup() -> Harness {
    let mut harness = Harness { editor: NotionEditor::new(registry()), keyboard: None };
    harness.click(0);
    harness
}

fn load(content: Vec<BlockContent>) -> Harness {
    Harness { editor: NotionEditor::with_content(registry(), content), keyboard: None }
}

impl Harness {
    fn id(&self, ix: usize) -> BlockId {
        self.editor.block_id_at(ix).unwrap()
    }

    /// Click a block: its input takes the keyboard.
    fn click(&mut self, ix: usize) {
        self.editor.close_suggestion_menu();
        let id = self.id(ix);
        self.keyboard = Some(id);
        self.editor.on_input_focused(id);
        self.perform();
    }

    /// Whether the input of a block has the keyboard.
    fn has_keyboard(&self, ix: usize) -> Option<bool> {
        Some(self.keyboard == Some(self.editor.block_id_at(ix)?))
    }

    /// Click the toolbar's button of that icon: its mark goes on the selection.
    fn click_mark(&mut self, icon: &str) {
        let off = ActiveMarks {
            bold: false,
            italic: false,
            underline: false,
            strike: false,
            code: false,
            link: false,
        };
        let parts = self.editor.toolbar_parts(off).unwrap();
        let kind = parts
            .into_iter()
            .find_map(|part| match part {
                ToolbarPart::Mark { icon: name, kind, .. } if name == icon => Some(kind),
                _ => None,
            })
            .unwrap();
        let id = self.editor.focused_id().unwrap();
        let block = self.editor.block_mut(id).unwrap();
        let (start, end) = (block.input.start, block.input.end);
        block.marks.add(kind, start, end);
    }

    /// Put `text` in at the caret in one go, the way a paste arrives.
    fn input(&mut self, text: &str) {
        let id = self.editor.focused_id().unwrap();
        let block = self.editor.block(id).unwrap();
        let mut value = block.text.clone();
        value.replace_range(block.input.start..block.input.end, text);
        let caret = block.input.start + text.len();
        assert!(self.editor.handle_change(id, value, Selection::caret(caret)));
        self.perform();
    }

    /// Type the way a person does: one character at a time, so input rules
    /// and the slash menu see each keystroke.
    fn type_text(&mut self, text: &str) {
        for ch in text.chars() {
            self.input(&ch.to_string());
        }
    }

    /// Go on in a new block of type `ty` below the focused one.
    fn next_block(&mut self, ty: &str) {
        let ix = self.editor.active_index().unwrap();
        let id = self.editor.insert_block(ix + 1, BlockContent::new(ty, ""));
        self.editor.focus_block(id, Caret::Start);
    }

    /// Select the text before the caret.
    fn select_to_start(&mut self) {
        let ix = self.editor.active_index().unwrap();
        let end = self.editor.caret_offset(self.id(ix)).unwrap();
        self.editor.select_text_in_block(ix, 0, end);
    }

    /// Run the commands that were asked for.
    fn perform(&mut self) {
        let effects = self.editor.take_effects();
        for effect in effects {
            if let Effect::RunCommand(command) = effect {
                let id = self.editor.active_id().unwrap();
                let mut attrs = BlockAttrs::new();
                match command {
                    0 => self.editor.set_block_type(id, PARAGRAPH.to_string(), attrs),
                    4 => {
                        let ix = self.editor.index_of(id).unwrap();
                        self.editor.insert_block(ix, BlockContent::new(TABLE, ""));
                        self.editor.remove_block(id);
                    }
                    level => {
                        attrs.level = level;
                        self.editor.set_block_type(id, HEADING.to_string(), attrs);
                    }
                }
            }
        }
    }

    fn confirm(&mut self) {
        self.editor.confirm_suggestion();
        self.perform();
    }

    fn texts(&self) -> Vec<String> {
        self.editor.content().into_iter().map(|block| block.text).collect()
    }

    fn types(&self) -> Vec<String> {
        self.editor.content().into_iter().map(|block| block.ty).collect()
    }

    /// (block index, caret offset) of the focused block.
    fn caret(&self) -> Option<(usize, usize)> {
        let id = self.editor.focused_id()?;
        Some((self.editor.index_of(id)?, self.editor.caret_offset(id)?))
    }
}

#[test]
fn types_text_into_the_first_block() {
    let mut harness = setup();
    harness.type_text("Hello editor");
    assert_eq!(harness.texts(), vec!["Hello editor"]);
}

#[test]
fn markdown_rules_create_nodes() {
    let mut harness = setup();
    harness.type_text("# Title");
    assert_eq!(harness.types(), vec![HEADING]);
    assert_eq!(harness.texts(), vec!["Title"]);

    harness.next_block(PARAGRAPH);
    harness.type_text("- item");
    assert_eq!(harness.types(), vec![HEADING, BULLET_LIST]);
    assert_eq!(harness.texts()[1], "item");

    harness.next_block(BULLET_LIST);
    harness.type_text("1. one");
    assert_eq!(harness.types()[2], ORDERED_LIST);

    harness.next_block(PARAGRAPH);
    harness.type_text("> quoted");
    assert_eq!(*harness.types().last().unwrap(), BLOCKQUOTE);
}

#[test]
fn inline_rules_apply_marks() {
    let mut harness = setup();
    harness.type_text("say **bold** now");

    assert_eq!(harness.texts(), vec!["say bold now"]);
    let block = &harness.editor.content()[0];
    assert!(block.marks.has(&MarkKind::Bold, 4, 8));
    assert!(!block.marks.has(&MarkKind::Bold, 9, 12));
}

#[test]
fn the_slash_menu_filters_and_runs_an_item() {
    let mut harness = setup();
    harness.type_text("/");
    assert!(harness.editor.slash_menu_is_open());

    harness.type_text("head");
    let titles: Vec<String> =
        harness.editor.slash_items().into_iter().map(|item| item.title()).collect();
    assert_eq!(titles, vec!["Heading 1", "Heading 2", "Heading 3"]);

    harness.editor.move_suggestion_selection(1);
    harness.confirm();

    assert_eq!(harness.types(), vec![HEADING]);
    assert_eq!(harness.texts(), vec![""]);
    assert!(!harness.editor.slash_menu_is_open());
    assert_eq!(harness.editor.content()[0].attrs.level, 2);
}

#[test]
fn escape_closes_the_slash_menu_and_keeps_the_text() {
    let mut harness = setup();
    harness.type_text("a /he");
    assert!(harness.editor.slash_menu_is_open());
    harness.editor.close_suggestion_menu();
    assert!(!harness.editor.slash_menu_is_open());
    assert_eq!(harness.texts(), vec!["a /he"]);
}

#[test]
fn typing_after_bold_text_continues_the_mark() {
    let mut harness = setup();
    harness.type_text("hi");
    let id = harness.id(0);
    harness.editor.block_mut(id).unwrap().marks.add(MarkKind::Bold, 0, 2);
    harness.type_text("!");

    let block = &harness.editor.content()[0];
    assert!(block.marks.has(&MarkKind::Bold, 0, 3));
}

#[test]
fn typing_after_an_inline_rule_is_plain() {
    let mut harness = setup();
    harness.type_text("*it* rest");
    let block = &harness.editor.content()[0];
    assert_eq!(block.text, "it rest");
    assert!(block.marks.has(&MarkKind::Italic, 0, 2));
    assert!(!block.marks.has(&MarkKind::Italic, 3, 7));
}

#[test]
fn a_document_loads_exactly_the_blocks_it_was_given() {
    let harness = load(vec![
        BlockContent::paragraph("one"),
        BlockContent::paragraph("two"),
        BlockContent::paragraph(""),
    ]);
    assert_eq!(harness.texts(), vec!["one", "two", ""]);
    assert!(!harness.editor.slash_menu_is_open());
}

#[test]
fn clicking_a_block_focuses_it() {
    let mut harness = setup();
    let focused = harness.editor.focused_id();
    assert_eq!(harness.has_keyboard(0), Some(true), "the input has keyboard focus");
    assert!(focused.is_some(), "the editor tracks the clicked block");
    assert!(harness.editor.refresh_focus(&vec![true]));
    assert_eq!(harness.editor.focused_id(), focused);
}

#[test]
fn clicking_another_block_moves_the_focus() {
    let mut harness = load(vec![BlockContent::paragraph("one"), BlockContent::paragraph("two")]);
    harness.click(1);
    assert_eq!(harness.editor.focused_id(), Some(harness.id(1)));
}

#[test]
fn the_toolbar_appears_over_a_selection() {
    let mut harness = setup();
    harness.type_text("select me");
    assert!(!harness.editor.selection_toolbar_visible());

    harness.select_to_start();
    assert!(harness.editor.selection_toolbar_visible());

    harness.click_mark("bold");
    assert!(harness.editor.content()[0].marks.has(&MarkKind::Bold, 0, 9));
}

#[test]
fn the_link_editor_sets_a_link_on_the_selection() {
    let mut harness = setup();
    harness.type_text("tiptap");
    harness.select_to_start();
    harness.editor.open_link_editor(None);
    assert!(harness.editor.link_editor_is_open());

    harness.editor.apply_link_editor("tiptap.dev");

    assert!(!harness.editor.link_editor_is_open());
    let block = &harness.editor.content()[0];
    let mark = block.marks.mark_at(&MarkKind::Link(String::new()), 0).expect("link mark");
    assert_eq!(mark.kind, MarkKind::Link("https://tiptap.dev".to_string()));
}

#[test]
fn pasted_lines_become_blocks() {
    let mut harness = setup();
    harness.input("# Title\n- one\n- two");

    assert_eq!(harness.texts(), vec!["Title", "one", "two"]);
    assert_eq!(harness.types(), vec![HEADING, BULLET_LIST, BULLET_LIST]);
}

#[test]
fn shift_enter_breaks_the_line_inside_a_block() {
    let mut harness = setup();
    harness.type_text("one");
    harness.input("\n");
    harness.type_text("two");

    assert_eq!(harness.texts(), vec!["one\ntwo"]);
}

#[test]
fn clicking_below_the_document_appends_a_paragraph() {
    let mut harness = setup();
    harness.type_text("only");

    harness.editor.focus_trailing_block();
    assert_eq!(harness.texts(), vec!["only", ""]);
    assert_eq!(harness.caret().map(|(ix, _)| ix), Some(1));

    harness.editor.focus_trailing_block();
    assert_eq!(harness.texts(), vec!["only", ""]);
}

#[test]
fn the_emoji_menu_replaces_the_shortcode() {
    let mut harness = setup();
    harness.type_text("ship it :rocket");
    assert!(harness.editor.suggestion_is_open());

    harness.confirm();
    assert_eq!(harness.texts(), vec!["ship it 🚀"]);
    assert!(!harness.editor.suggestion_is_open());
}

#[test]
fn the_mention_menu_inserts_a_marked_name() {
    let mut harness = setup();
    harness.type_text("ping @ada");
    assert!(harness.editor.suggestion_is_open());

    harness.confirm();
    assert_eq!(harness.texts(), vec!["ping @Ada Lovelace "]);
    let block = &harness.editor.content()[0];
    assert!(block.marks.has(&MarkKind::Mention(String::new()), 5, 18));
}

#[test]
fn a_colon_in_prose_does_not_hold_a_menu_open() {
    let mut harness = setup();
    harness.type_text("note: something");
    assert!(!harness.editor.suggestion_is_open());
    assert_eq!(harness.texts(), vec!["note: something"]);
}

#[test]
fn the_slash_menu_groups_items_in_template_order() {
    let mut harness = setup();
    harness.type_text("/");

    let mut groups: Vec<&str> = Vec::new();
    for item in harness.editor.suggestion_items() {
        if groups.last() != Some(&item.group()) {
            groups.push(item.group());
        }
    }
    assert_eq!(groups, vec!["Style", "Insert", "Upload"]);
}

#[test]
fn the_emoji_entry_of_the_slash_menu_opens_the_emoji_menu() {
    let mut harness = setup();
    harness.type_text("/emoji");
    harness.confirm();

    assert!(harness.editor.suggestion_is_open());
    harness.type_text("rocket");
    harness.confirm();
    assert_eq!(harness.texts(), vec!["🚀"]);
}

#[test]
fn the_toolbar_waits_for_the_button_to_come_up() {
    let mut harness = setup();
    harness.type_text("select me");
    harness.select_to_start();

    // Mid-drag the toolbar stays away, however much text is covered.
    let id = harness.id(0);
    harness.editor.set_mouse_anchor(Some(id));
    assert!(!harness.editor.selection_toolbar_visible());

    // Once the button comes up a selection shows it again.
    harness.editor.set_mouse_anchor(None);
    assert!(harness.editor.selection_toolbar_visible());
}

#[test]
fn the_comment_box_takes_the_toolbar_off_screen() {
    let mut harness = setup();
    harness.type_text("one line");
    harness.select_to_start();
    assert!(harness.editor.selection_toolbar_visible(), "a selection shows the toolbar");

    harness.editor.set_comment_draft(true);
    assert!(!harness.editor.selection_toolbar_visible(), "the comment box replaces it");

    harness.editor.set_comment_draft(false);
    assert!(
        harness.editor.selection_toolbar_visible(),
        "cancelling the comment gives the selection, and the toolbar, back"
    );
}

#[test]
fn focus_leaving_the_blocks_takes_the_toolbar_with_it() {
    let mut harness = setup();
    harness.type_text("some words");
    harness.select_to_start();
    assert!(harness.editor.selection_toolbar_visible());

    assert!(!harness.editor.refresh_focus(&vec![false]));
    assert!(harness.editor.focused_id().is_none());
    assert!(!harness.editor.selection_toolbar_visible());
}

#[test]
fn a_drag_let_go_away_from_the_blocks_clears_the_drop_line() {
    let mut harness = setup();
    harness.type_text("one");
    harness.select_to_start();
    harness.editor.set_drop_target(0);
    assert!(!harness.editor.selection_toolbar_visible());

    harness.editor.clear_drop_target();
    assert!(harness.editor.drop_target().is_none(), "the drop line outlived the drag");
    assert!(harness.editor.selection_toolbar_visible());
}

#[test]
fn deleting_a_table_takes_its_cells_with_it() {
    let mut harness = setup();
    harness.type_text("/table");
    harness.confirm();
    assert_eq!(harness.types(), vec![TABLE]);
    let id = harness.id(0);
    assert!(harness.editor.grid_blocks().contains(&id));
    assert!(harness.editor.focus_cell(id, CellPosition { row: 0, column: 0 }));

    harness.editor.remove_block(id);

    assert!(!harness.editor.grid_blocks().contains(&id), "the grid outlived its block");
    assert!(
        harness.editor.focused_cell().is_none(),
        "a cell of the deleted table still holds the caret"
    );
}

#[test]
fn guest_toolbar_dispatches_only_declared_actions_without_changing_document() {
    let mut harness = setup();
    let before = harness.editor.content();
    harness.editor.set_toolbar(Some(vec![ToolbarItem {
        tag: "custom-action".to_string(),
        label: "Review selection".to_string(),
    }]));
    harness.editor.take_effects();
    harness.editor.choose_toolbar_action("missing");
    harness.editor.choose_toolbar_action("custom-action");
    assert_eq!(harness.editor.content(), before);

    let mut tags: Vec<String> = Vec::new();
    for effect in harness.editor.take_effects() {
        match effect {
            Effect::Toolbar(action) => tags.push(action.tag),
            other => panic!("unexpected request {:?}", other),
        }
    }
    assert_eq!(tags, vec!["custom-action"]);
}

#[test]
fn application_suggestions_do_not_run_native_trigger_or_replacement_rules() {
    let mut harness = setup();
    harness.editor.set_application_menu(None);
    harness.type_text("@");
    assert!(!harness.editor.suggestion_is_open(), "the application owns trigger detection");

    harness.editor.take_effects();
    harness.editor.close_suggestion_menu();
    assert!(harness.editor.take_effects().is_empty(), "a closed menu has nothing to dismiss");

    harness.editor.set_application_menu(Some(ApplicationMenu {
        anchor: ApplicationMenuAnchor::Caret,
        items: vec![ToolbarItem {
            tag: "opaque-action".to_string(),
            label: "Application choice".to_string(),
        }],
        selected: 0,
    }));
    assert!(harness.editor.suggestion_is_open());
    harness.editor.take_effects();
    harness.editor.confirm_suggestion();
    assert_eq!(harness.texts(), vec!["@"], "a menu pick never replaces source text");
    let actions: Vec<MenuAction> = harness
        .editor
        .take_effects()
        .into_iter()
        .map(|effect| match effect {
            Effect::Menu(action) => action,
            other => panic!("unexpected request {:?}", other),
        })
        .collect();
    assert_eq!(actions, vec![MenuAction::Pick("opaque-action".to_string())]);
}

#[test]
fn caret_changes_are_observed_without_turning_repaints_into_edits() {
    let mut harness = setup();
    harness.type_text("hello");
    let id = harness.id(0);
    harness.editor.take_effects();

    let events = |editor: &NotionEditor<Kind>| -> Vec<&'static str> {
        editor
            .effects()
            .iter()
            .map(|effect| match effect {
                Effect::Selection(_) => "selection",
                Effect::Document(_) => "document",
                other => panic!("unexpected request {:?}", other),
            })
            .collect()
    };
    harness.editor.on_input_observed(id, Selection::caret(4), true, "hello", false);
    assert_eq!(events(&harness.editor), vec!["selection"]);
    harness.editor.on_input_observed(id, Selection::caret(4), true, "hello", false);
    assert_eq!(events(&harness.editor), vec!["selection"], "a repaint changes no selection");
    let shifted = Selection { cursor: 3, start: 3, end: 4 };
    harness.editor.on_input_observed(id, shifted, true, "hello", false);
    assert_eq!(events(&harness.editor), vec!["selection", "selection"]);
    assert_eq!(harness.texts(), vec!["hello"]);
}

#[test]
fn application_input_rules_leave_typed_and_pasted_source_unchanged() {
    for source in ["# Title", "**bold**", "(c)"] {
        let mut harness = setup();
        harness.editor.set_input_rule_mode(InputRuleMode::Application);
        harness.type_text(source);
        assert_eq!(harness.texts().join("\n"), source, "source belongs to the application");
        assert!(harness.types().iter().all(|kind| kind == "paragraph"));
        assert!(harness.editor.content().iter().all(|block| block.marks.is_empty()));
    }
    let mut harness = setup();
    harness.editor.set_input_rule_mode(InputRuleMode::Application);
    harness.input("first\n# second");
    assert_eq!(harness.texts(), vec!["first", "# second"]);
    assert_eq!(harness.types(), vec!["paragraph", "paragraph"]);
}

fn nested(ty: &str, text: &str, indent: usize) -> BlockContent {
    let mut content = BlockContent::new(ty, text);
    content.indent = indent;
    content
}

fn collapsed(ty: &str, text: &str, indent: usize) -> BlockContent {
    let mut content = nested(ty, text, indent);
    content.attrs.collapsed = true;
    content
}

/// The kinds of requests that were left, in order.
fn requests(harness: &mut Harness) -> Vec<&'static str> {
    names(&harness.editor.take_effects())
}

fn names(effects: &[Effect]) -> Vec<&'static str> {
    effects
        .iter()
        .map(|effect| match effect {
            Effect::Document(_) => "document",
            Effect::Selection(_) => "selection",
            Effect::Notify => "notify",
            Effect::Menu(_) => "menu",
            Effect::Toolbar(_) => "toolbar",
            Effect::RecordTyping(_) => "record",
            Effect::NewInput { .. } => "input",
            Effect::SetText { .. } => "text",
            Effect::SetPlaceholder { .. } => "placeholder",
            Effect::FocusInput { .. } => "focus",
            Effect::SelectInput { .. } => "select",
            Effect::FocusEditor => "focus-editor",
            Effect::Decorate { .. } => "decorate",
            Effect::ResetFit(_) => "fit",
            Effect::Remeasure(_) => "measure",
            Effect::RestoreGrid(_) => "grid",
            Effect::RunCommand(_) => "run",
            Effect::OpenLinkInput(_) => "link",
        })
        .collect()
}

#[test]
fn a_new_editor_holds_one_empty_paragraph() {
    let mut harness = Harness { editor: NotionEditor::new(registry()), keyboard: None };
    assert_eq!(harness.texts(), vec![""]);
    assert_eq!(harness.types(), vec![PARAGRAPH]);
    assert_eq!(harness.editor.block_count(), 1);
    assert_eq!(harness.id(0), BlockId(1));
    assert_eq!(harness.editor.focused_id(), None);
    assert_eq!(harness.editor.active_id(), Some(BlockId(1)));
    assert_eq!(requests(&mut harness), vec!["input", "measure", "decorate", "document", "notify"]);
}

#[test]
fn loading_nothing_leaves_an_empty_paragraph() {
    let harness = load(Vec::new());
    assert_eq!(harness.texts(), vec![""]);
    assert_eq!(harness.id(0), BlockId(1));
}

#[test]
fn inserting_gives_fresh_ids_and_clamps_the_place() {
    let mut harness = load(vec![BlockContent::paragraph("one"), BlockContent::paragraph("two")]);
    assert_eq!(harness.id(0), BlockId(2));
    assert_eq!(harness.id(1), BlockId(3));
    let last = harness.editor.insert_block(99, BlockContent::paragraph("last"));
    let first = harness.editor.insert_block(0, BlockContent::paragraph("first"));
    assert_eq!((last, first), (BlockId(4), BlockId(5)));
    assert_eq!(harness.texts(), vec!["first", "one", "two", "last"]);
    assert_eq!(harness.editor.index_of(last), Some(3));
    assert_eq!(harness.editor.block(first).unwrap().text, "first");
    assert_eq!(harness.editor.block_id_at(4), None);
    harness.editor.remove_block(first);
    assert_eq!(harness.texts(), vec!["one", "two", "last"]);
    assert_eq!(harness.editor.index_of(first), None);
    assert!(harness.editor.block(first).is_none());
}

#[test]
fn inserting_cuts_marks_to_the_text_and_asks_for_an_input() {
    let mut harness = setup();
    harness.editor.take_effects();
    let mut content = BlockContent::new(CODE_BLOCK, "let");
    content.marks.add(MarkKind::Bold, 1, 9);
    content.attrs.language = Some("rust".to_string());
    let id = harness.editor.insert_block(1, content);
    assert!(harness.editor.block(id).unwrap().marks.has(&MarkKind::Bold, 1, 3));
    assert_eq!(harness.editor.block(id).unwrap().marks.items[0].end, 3);
    let effects = harness.editor.take_effects();
    match &effects[0] {
        Effect::NewInput { block, multiline, language, placeholder, text } => {
            assert_eq!(*block, id);
            assert!(*multiline);
            assert_eq!(language, "rust");
            assert_eq!(placeholder, "");
            assert_eq!(text, "let");
        }
        other => panic!("unexpected request {:?}", other),
    }
    harness.editor.take_effects();
    harness.editor.insert_block(2, BlockContent::new(TABLE, ""));
    assert_eq!(
        requests(&mut harness),
        vec!["input", "grid", "measure", "decorate", "document", "notify"]
    );
}

#[test]
fn removing_an_unknown_block_does_nothing() {
    let mut harness = setup();
    harness.editor.take_effects();
    harness.editor.remove_block(BlockId(77));
    assert_eq!(harness.texts(), vec![""]);
    assert!(requests(&mut harness).is_empty());
}

#[test]
fn removing_the_focused_block_lets_go_of_focus_and_selection() {
    let mut harness = load(vec![BlockContent::paragraph("one"), BlockContent::paragraph("two")]);
    harness.click(1);
    let id = harness.id(1);
    let first = harness.id(0);
    assert!(harness.editor.select_blocks(vec![id, first, id]));
    harness.editor.remove_block(id);
    assert_eq!(harness.editor.focused_id(), None);
    assert_eq!(harness.editor.selected_blocks(), &vec![harness.id(0)]);
    assert_eq!(requests(&mut harness), vec!["document", "notify"]);
}

#[test]
fn changing_the_type_keeps_the_text_and_the_marks() {
    let mut content = nested(BULLET_LIST, "item", 2);
    content.marks.add(MarkKind::Bold, 0, 4);
    let mut harness = load(vec![content]);
    let id = harness.id(0);
    harness.editor.take_effects();

    harness.editor.set_block_type(id, BULLET_LIST.to_string(), BlockAttrs::new());
    assert!(requests(&mut harness).is_empty());

    harness.editor.set_block_type(id, ORDERED_LIST.to_string(), BlockAttrs::new());
    assert_eq!(harness.editor.block(id).unwrap().indent, 2);
    assert_eq!(
        requests(&mut harness),
        vec!["fit", "placeholder", "measure", "decorate", "document", "notify"]
    );

    harness.editor.set_block_type(id, PARAGRAPH.to_string(), BlockAttrs::new());
    let block = harness.editor.block(id).unwrap();
    assert_eq!((block.text.as_str(), block.indent), ("item", 0));
    assert!(block.marks.has(&MarkKind::Bold, 0, 4));
    requests(&mut harness);

    harness.editor.select_text_in_block(0, 0, 4);
    requests(&mut harness);
    harness.editor.set_block_type(id, CODE_BLOCK.to_string(), BlockAttrs::new());
    let block = harness.editor.block(id).unwrap();
    assert_eq!(block.text, "item");
    assert!(block.marks.has(&MarkKind::Bold, 0, 4));
    assert_eq!(block.input, Selection::caret(0));
    assert_eq!(
        requests(&mut harness),
        vec!["fit", "input", "measure", "decorate", "document", "notify"]
    );
}

#[test]
fn a_type_without_cells_drops_them() {
    let mut harness = load(vec![BlockContent::new(TABLE, "")]);
    let id = harness.id(0);
    assert_eq!(harness.editor.grid_blocks(), &vec![id]);
    assert!(harness.editor.focus_cell(id, CellPosition { row: 1, column: 2 }));
    harness.editor.set_block_type(id, PARAGRAPH.to_string(), BlockAttrs::new());
    assert!(harness.editor.grid_blocks().is_empty());
    assert!(harness.editor.focused_cell().is_none());
}

#[test]
fn every_typography_rule_fires() {
    let pairs = [
        ("(c)", "©"),
        ("(C)", "©"),
        ("(r)", "®"),
        ("(R)", "®"),
        ("(tm)", "™"),
        ("(TM)", "™"),
        ("...", "…"),
        ("<-", "←"),
        ("-->", "→"),
        ("–>", "→"),
        ("->", "→"),
        ("--", "–"),
        ("!=", "≠"),
        ("<=", "≤"),
        (">=", "≥"),
        ("+/-", "±"),
    ];
    for (from, to) in pairs {
        let mut harness = setup();
        harness.type_text("a ");
        harness.type_text(from);
        assert_eq!(harness.texts(), vec![format!("a {}", to)]);
        assert_eq!(harness.caret(), Some((0, 2 + to.len())));
        harness.type_text("b");
        assert_eq!(harness.texts(), vec![format!("a {}b", to)]);

        let mut harness = setup();
        harness.type_text("a ");
        harness.input(from);
        assert_eq!(harness.texts(), vec![format!("a {}", to)]);
        assert_eq!(harness.caret(), Some((0, 2 + to.len())));
    }
}

#[test]
fn every_inline_rule_fires() {
    let rules = [
        ("**b**", MarkKind::Bold),
        ("__b__", MarkKind::Bold),
        ("~~b~~", MarkKind::Strike),
        ("==b==", MarkKind::Highlight(None)),
        ("*b*", MarkKind::Italic),
        ("_b_", MarkKind::Italic),
        ("`b`", MarkKind::Code),
    ];
    for (typed, kind) in rules {
        let mut harness = setup();
        harness.type_text("ñ ");
        harness.type_text(typed);
        let block = &harness.editor.content()[0];
        assert_eq!(block.text, "ñ b");
        assert!(block.marks.has(&kind, 3, 4), "{}", typed);
        assert_eq!(block.marks.items.len(), 1);
        assert_eq!(harness.caret(), Some((0, 4)));
    }
}

#[test]
fn a_blank_body_is_no_mark() {
    let mut harness = setup();
    harness.type_text("~~ ~~");
    assert_eq!(harness.texts(), vec!["~~ ~~"]);
    assert!(harness.editor.content()[0].marks.is_empty());
}

#[test]
fn a_rule_never_fires_on_the_node_it_produces() {
    let mut harness = setup();
    harness.type_text("- ");
    assert_eq!(harness.types(), vec![BULLET_LIST]);
    harness.type_text("- ");
    assert_eq!(harness.types(), vec![BULLET_LIST]);
    assert_eq!(harness.texts(), vec!["- "]);
    harness.type_text("7. ");
    assert_eq!(harness.texts(), vec!["- 7. "]);
}

#[test]
fn a_rule_has_to_consume_everything_typed() {
    let mut harness = setup();
    harness.type_text("x # ");
    assert_eq!(harness.types(), vec![PARAGRAPH]);
    assert_eq!(harness.texts(), vec!["x # "]);
}

#[test]
fn a_rule_that_makes_no_text_goes_on_below() {
    let mut harness = setup();
    harness.input("--- ");
    assert_eq!(harness.types(), vec![DIVIDER, PARAGRAPH]);
    assert_eq!(harness.texts(), vec!["", ""]);
    assert_eq!(harness.caret(), Some((1, 0)));

    let mut harness = setup();
    harness.input("*** ");
    assert_eq!(harness.types(), vec![DIVIDER, PARAGRAPH]);

    // An empty paragraph that is there already is used.
    let mut harness = load(vec![BlockContent::paragraph(""), BlockContent::paragraph("")]);
    harness.click(0);
    harness.input("--- ");
    assert_eq!(harness.types(), vec![DIVIDER, PARAGRAPH]);
    assert_eq!(harness.caret(), Some((1, 0)));
}

#[test]
fn a_numbered_rule_starts_where_it_says() {
    let mut harness = setup();
    harness.type_text("7. ");
    assert_eq!(harness.types(), vec![ORDERED_LIST]);
    assert_eq!(harness.editor.content()[0].attrs.start, Some(7));
    assert_eq!(harness.editor.ordinal_at(0), 7);
}

#[test]
fn code_takes_everything_as_it_is() {
    let mut harness = setup();
    harness.type_text("``` ");
    assert_eq!(harness.types(), vec![CODE_BLOCK]);
    harness.input("# a\n**b**\n/x");
    harness.type_text("--");
    assert_eq!(harness.texts(), vec!["# a\n**b**\n/x--"]);
    assert!(!harness.editor.suggestion_is_open());
}

#[test]
fn a_paste_goes_on_in_blocks_like_the_first() {
    let mut harness = load(vec![nested(BULLET_LIST, "", 1), BlockContent::paragraph("end")]);
    harness.click(0);
    harness.input("a\nb\n\n> c");
    assert_eq!(harness.texts(), vec!["a", "b", "", "c", "end"]);
    assert_eq!(
        harness.types(),
        vec![BULLET_LIST, BULLET_LIST, BULLET_LIST, BLOCKQUOTE, PARAGRAPH]
    );
    assert_eq!(harness.editor.content()[1].indent, 1);
    assert_eq!(harness.caret(), Some((3, 1)));
}

#[test]
fn a_pattern_that_is_none_takes_no_change() {
    let mut broken = registry();
    broken.rules.push(InputRule { pattern: "(".to_string(), entry: 0, rule: 0 });
    let mut editor = NotionEditor::new(broken);
    let id = editor.block_id_at(0).unwrap();
    assert!(!editor.is_change_ready(id, "x", Selection::caret(1)));
    assert!(!editor.handle_change(id, "x".to_string(), Selection::caret(1)));
    assert_eq!(editor.content()[0].text, "");
    editor.set_input_rule_mode(InputRuleMode::Application);
    assert!(editor.handle_change(id, "x".to_string(), Selection::caret(1)));
    assert_eq!(editor.content()[0].text, "x");
}

#[test]
fn typing_is_recorded_with_the_document_before_it() {
    let mut harness = setup();
    harness.type_text("a");
    harness.editor.take_effects();
    let id = harness.id(0);
    harness.editor.handle_change(id, "ab".to_string(), Selection::caret(2));
    let effects = harness.editor.take_effects();
    match &effects[0] {
        Effect::RecordTyping(contents) => assert_eq!(contents[0].text, "a"),
        other => panic!("unexpected request {:?}", other),
    }
    assert_eq!(
        names(&effects),
        vec!["record", "measure", "decorate", "document", "notify"]
    );
    harness.editor.handle_change(id, "ab".to_string(), Selection::caret(0));
    assert!(requests(&mut harness).is_empty());
    assert_eq!(harness.editor.caret_offset(id), Some(0));
}

#[test]
fn armed_marks_are_put_on_what_is_typed() {
    let mut harness = setup();
    harness.type_text("a");
    let id = harness.id(0);
    harness.editor.block_mut(id).unwrap().stored_marks =
        Some(vec![MarkKind::Underline, MarkKind::Bold]);
    harness.type_text("b");
    harness.type_text("c");
    let block = harness.editor.block(id).unwrap();
    assert!(block.stored_marks.is_none());
    assert!(block.marks.has(&MarkKind::Underline, 1, 3));
    assert!(block.marks.has(&MarkKind::Bold, 1, 3));
    assert!(!block.marks.has(&MarkKind::Bold, 0, 1));
}

#[test]
fn what_is_typed_behind_a_link_does_not_join_it() {
    let mut harness = setup();
    harness.type_text("ab");
    let id = harness.id(0);
    harness.editor.block_mut(id).unwrap().marks.add(MarkKind::Link("x".to_string()), 0, 2);
    harness.type_text("c");
    let marks = &harness.editor.block(id).unwrap().marks;
    assert!(marks.has(&MarkKind::Link(String::new()), 0, 2));
    assert!(!marks.has(&MarkKind::Link(String::new()), 2, 3));
}

#[test]
fn only_what_a_toggle_encloses_is_hidden() {
    let mut harness = load(vec![
        collapsed(BULLET_LIST, "toggle", 0),
        nested(BULLET_LIST, "inside", 1),
        nested(BULLET_LIST, "deeper", 2),
        nested(BULLET_LIST, "next", 0),
        nested(BULLET_LIST, "under next", 1),
    ]);
    let shown: Vec<bool> = (0..5).map(|ix| harness.editor.is_visible(ix)).collect();
    assert_eq!(shown, vec![true, false, false, true, true]);
    assert_eq!(harness.editor.visible_blocks(), vec![0, 3, 4]);
    assert!(!harness.editor.block_is_on_screen(harness.id(2)));
    assert!(!harness.editor.block_is_on_screen(BlockId(99)));

    let id = harness.id(0);
    harness.editor.take_effects();
    harness.editor.toggle_collapsed(id);
    assert_eq!(harness.editor.visible_blocks(), vec![0, 1, 2, 3, 4]);
    harness.editor.toggle_collapsed(id);
    assert_eq!(harness.editor.visible_blocks(), vec![0, 3, 4]);
    assert_eq!(requests(&mut harness), vec!["document", "notify", "document", "notify"]);
    harness.editor.toggle_collapsed(BlockId(99));
    assert!(requests(&mut harness).is_empty());
}

#[test]
fn focus_moves_past_what_is_hidden_or_no_text() {
    let mut harness = load(vec![
        collapsed(BULLET_LIST, "toggle", 0),
        nested(BULLET_LIST, "inside", 1),
        BlockContent::new(DIVIDER, ""),
        BlockContent::paragraph("last"),
    ]);
    assert!(harness.editor.focus_sibling(0, 1, Caret::End));
    assert_eq!(harness.caret(), Some((3, 4)));
    assert!(harness.editor.focus_sibling(3, -1, Caret::At(3)));
    assert_eq!(harness.caret(), Some((0, 3)));
    assert!(!harness.editor.focus_sibling(0, -1, Caret::Start));
    assert!(!harness.editor.focus_sibling(3, 1, Caret::Start));
    assert_eq!(harness.caret(), Some((0, 3)));
}

#[test]
fn a_block_that_is_no_text_is_selected_as_a_node() {
    let mut harness = load(vec![BlockContent::paragraph("a"), BlockContent::new(DIVIDER, "")]);
    harness.editor.take_effects();
    harness.editor.focus_last_block();
    assert_eq!(harness.editor.focused_id(), None);
    assert_eq!(harness.editor.selected_blocks(), &vec![harness.id(1)]);
    assert_eq!(harness.editor.active_index(), Some(0));
    assert_eq!(requests(&mut harness), vec!["focus-editor", "notify"]);
    assert_eq!(harness.editor.toolbar_place(), Some(ToolbarPlace::Block(harness.id(1))));

    let first = harness.id(0);
    harness.editor.focus_block(first, Caret::At(50));
    assert_eq!(harness.editor.selected_blocks(), &Vec::<BlockId>::new());
    assert_eq!(harness.caret(), Some((0, 1)));
    assert_eq!(requests(&mut harness), vec!["focus", "notify"]);
}

#[test]
fn a_caret_inside_a_character_stands_before_it() {
    let mut harness = load(vec![BlockContent::paragraph("añb")]);
    let id = harness.id(0);
    harness.editor.focus_block(id, Caret::At(2));
    assert_eq!(harness.caret(), Some((0, 1)));
    harness.editor.select_text_in_block(0, 2, 99);
    assert_eq!(harness.editor.selection(), Some((id, 1, 4)));
}

#[test]
fn list_items_count_up() {
    let mut start = nested(ORDERED_LIST, "five", 0);
    start.attrs.start = Some(5);
    let harness = load(vec![
        nested(ORDERED_LIST, "one", 0),
        nested(ORDERED_LIST, "two", 0),
        nested(BULLET_LIST, "nested", 1),
        nested(ORDERED_LIST, "three", 0),
        nested(BULLET_LIST, "break", 0),
        nested(ORDERED_LIST, "one again", 0),
        nested(PARAGRAPH, "break", 0),
        start,
        nested(ORDERED_LIST, "six", 0),
    ]);
    let ordinals: Vec<usize> =
        [0, 1, 3, 5, 7, 8].iter().map(|ix| harness.editor.ordinal_at(*ix)).collect();
    assert_eq!(ordinals, vec![1, 2, 3, 1, 5, 6]);
}

#[test]
fn the_keyboard_says_which_block_is_focused() {
    let mut harness = load(vec![
        BlockContent::new(HEADING, ""),
        BlockContent::paragraph(""),
        BlockContent::paragraph(""),
    ]);
    harness.editor.take_effects();
    assert!(harness.editor.refresh_focus(&vec![false, true, false]));
    assert_eq!(harness.editor.focused_id(), Some(harness.id(1)));
    let hints: Vec<String> = harness.editor.take_effects()
        .into_iter()
        .map(|effect| match effect {
            Effect::SetPlaceholder { text, .. } => text,
            other => panic!("unexpected request {:?}", other),
        })
        .collect();
    assert_eq!(hints, vec!["Heading 0", "Write, type '/' for commands…", ""]);

    assert!(harness.editor.refresh_focus(&vec![false, true, false]));
    assert!(requests(&mut harness).is_empty());

    harness.editor.set_comment_draft(true);
    assert!(!harness.editor.refresh_focus(&vec![false, false, false]));
    assert_eq!(harness.editor.focused_id(), Some(harness.id(1)));
    harness.editor.set_comment_draft(false);
    assert!(!harness.editor.refresh_focus(&vec![false, false, false]));
    assert_eq!(harness.editor.focused_id(), None);
    assert_eq!(
        requests(&mut harness),
        vec!["placeholder", "placeholder", "placeholder", "notify"]
    );
}

#[test]
fn a_caret_is_heard_of_only_where_it_is_news() {
    let mut harness = setup();
    harness.type_text("hello");
    let id = harness.id(0);
    harness.editor.take_effects();
    harness.editor.on_input_observed(id, Selection::caret(1), false, "hello", false);
    harness.editor.on_input_observed(id, Selection::caret(2), true, "hello!", false);
    harness.editor.on_input_observed(id, Selection::caret(3), true, "hello", true);
    harness.editor.on_input_observed(BlockId(99), Selection::caret(0), true, "", false);
    assert!(requests(&mut harness).is_empty());
    assert_eq!(harness.editor.caret_offset(id), Some(3));
}

#[test]
fn marks_are_painted_run_by_run_or_struck_out_whole() {
    let mut content = BlockContent::paragraph("abc");
    content.marks.add(MarkKind::Bold, 1, 3);
    let mut done = BlockContent::new(TASK, "done");
    done.attrs.level = 1;
    let mut harness = load(vec![content, done]);
    harness.editor.take_effects();
    harness.editor.reapply_decorations();
    let painted: Vec<Vec<Decoration>> = harness.editor.take_effects()
        .into_iter()
        .filter_map(|effect| match effect {
            Effect::Decorate { runs, .. } => Some(runs),
            _ => None,
        })
        .collect();
    let bold = highlight_style(&vec![MarkKind::Bold]);
    let struck = highlight_style(&vec![MarkKind::Strike]);
    assert_eq!(
        painted,
        vec![
            vec![Decoration { start: 1, end: 3, style: bold }],
            vec![Decoration { start: 0, end: 4, style: struck }],
        ]
    );
    harness.editor.remeasure_all();
    assert_eq!(requests(&mut harness), vec!["measure", "measure"]);
    let id = harness.id(0);
    harness.editor.remeasure(id, &Some(vec![2]));
    assert_eq!(harness.editor.block(id).unwrap().rows, 3);
}

#[test]
fn the_selection_goes_round_the_menu() {
    let mut harness = setup();
    harness.type_text("/head");
    harness.editor.move_suggestion_selection(-1);
    assert_eq!(harness.editor.suggestion().unwrap().selected, 2);
    harness.editor.move_suggestion_selection(1);
    assert_eq!(harness.editor.suggestion().unwrap().selected, 0);
    harness.editor.move_suggestion_selection(-7);
    assert_eq!(harness.editor.suggestion().unwrap().selected, 2);
    harness.type_text("i");
    assert_eq!(harness.editor.suggestion().unwrap().selected, 0);
}

#[test]
fn the_selection_stays_within_an_application_menu() {
    let mut harness = setup();
    let item = |tag: &str| ToolbarItem { tag: tag.to_string(), label: tag.to_string() };
    let menu = || ApplicationMenu {
        anchor: ApplicationMenuAnchor::Block(0),
        items: vec![item("a"), item("b")],
        selected: 0,
    };
    harness.editor.set_application_menu(Some(menu()));
    let (place, rows) = harness.editor.application_menu_rows().unwrap();
    assert_eq!(place, MenuPlace::Block(harness.id(0)));
    let rows: Vec<(usize, bool, &str)> =
        rows.iter().map(|row| (row.index, row.selected, row.label.as_str())).collect();
    assert_eq!(rows, vec![(0, true, "a"), (1, false, "b")]);
    harness.editor.set_application_menu(Some(ApplicationMenu {
        anchor: ApplicationMenuAnchor::Block(5),
        ..menu()
    }));
    assert!(harness.editor.application_menu_rows().is_none());
    harness.editor.set_application_menu(Some(ApplicationMenu {
        anchor: ApplicationMenuAnchor::Caret,
        ..menu()
    }));
    assert_eq!(harness.editor.application_menu_place(), Some(MenuPlace::Caret(0)));
    harness.editor.set_application_menu(Some(menu()));
    harness.editor.take_effects();
    harness.editor.set_application_menu(Some(menu()));
    assert!(requests(&mut harness).is_empty());

    harness.editor.move_suggestion_selection(9);
    harness.editor.move_suggestion_selection(-9);
    harness.editor.run_suggestion_item(1);
    harness.editor.run_suggestion_item(5);
    harness.editor.close_suggestion_menu();
    harness.editor.open_slash_menu();
    let actions: Vec<MenuAction> = harness.editor.take_effects()
        .into_iter()
        .filter_map(|effect| match effect {
            Effect::Menu(action) => Some(action),
            _ => None,
        })
        .collect();
    assert_eq!(
        actions,
        vec![
            MenuAction::Select(1),
            MenuAction::Select(0),
            MenuAction::Pick("b".to_string()),
            MenuAction::Dismiss,
            MenuAction::Open('/'),
        ]
    );
    assert_eq!(harness.texts(), vec![""]);
}

#[test]
fn opening_a_menu_types_its_trigger() {
    let mut harness = setup();
    harness.type_text("word");
    harness.editor.open_suggestion(Trigger::Mention);
    assert_eq!(harness.texts(), vec!["word @"]);
    assert_eq!(harness.editor.suggestion().unwrap().start, 5);
    harness.editor.open_suggestion(Trigger::Mention);
    assert_eq!(harness.texts(), vec!["word @"]);
    harness.type_text("zzz");
    assert!(!harness.editor.suggestion_is_open());
    assert_eq!(harness.texts(), vec!["word @zzz"]);
}

#[test]
fn a_trigger_needs_a_word_boundary() {
    let mut harness = setup();
    harness.type_text("a/");
    assert!(!harness.editor.suggestion_is_open());
    harness.type_text(" /");
    assert!(harness.editor.suggestion_is_open());
    let id = harness.id(0);
    harness.editor.handle_change(id, "a/ ".to_string(), Selection::caret(3));
    assert!(!harness.editor.suggestion_is_open());
}

#[test]
fn the_menu_shows_groups_with_lines_between() {
    let mut harness = setup();
    harness.type_text("/t");
    let rows = harness.editor.suggestion_rows().unwrap();
    let shown: Vec<String> = rows
        .iter()
        .map(|row| match row {
            MenuRow::Separator => "-".to_string(),
            MenuRow::Heading(group) => group.to_uppercase(),
            MenuRow::Entry { index, selected, title, leading } => {
                assert!(matches!(leading, Leading::Icon(_)));
                format!("{}{}{}", index, if *selected { "*" } else { " " }, title)
            }
        })
        .collect();
    assert_eq!(
        shown,
        vec!["STYLE", "0*Text", "-", "INSERT", "1 Table", "2 Mention", "3 Emoji", "-", "UPLOAD", "4 Image"]
    );
    harness.editor.close_suggestion_menu();
    assert!(harness.editor.suggestion_rows().is_none());

    let mut harness = setup();
    harness.editor.set_mentions(vec![Mention { id: "g".to_string(), name: "Grace".to_string() }]);
    harness.type_text("@");
    match &harness.editor.suggestion_rows().unwrap()[1] {
        MenuRow::Entry { leading: Leading::Text(initial), title, .. } => {
            assert_eq!((initial.as_str(), title.as_str()), ("G", "Grace"));
        }
        other => panic!("unexpected row {:?}", other),
    }
    harness.editor.run_suggestion_item(0);
    assert_eq!(harness.texts(), vec!["@Grace "]);
}

#[test]
fn choosing_past_the_end_closes_the_menu() {
    let mut harness = setup();
    harness.type_text("/head");
    harness.editor.run_suggestion_item(9);
    assert!(!harness.editor.suggestion_is_open());
    assert_eq!(harness.texts(), vec!["/head"]);
}

#[test]
fn the_standard_toolbar_hides_the_rarer_marks_in_code() {
    let mut harness = setup();
    harness.type_text("# hi");
    harness.select_to_start();
    assert_eq!(harness.editor.active_block_label(), "Heading 1");
    let off = ActiveMarks {
        bold: false,
        italic: true,
        underline: false,
        strike: false,
        code: false,
        link: false,
    };
    let parts = harness.editor.toolbar_parts(off).unwrap();
    assert_eq!(parts.len(), 13);
    assert!(matches!(&parts[0], ToolbarPart::TurnInto(label) if label == "Heading 1"));
    assert!(matches!(&parts[3], ToolbarPart::Mark { icon: "italic", active: true, .. }));
    assert!(matches!(&parts[12], ToolbarPart::More));
    let code = harness.editor.toolbar_parts(ActiveMarks { code: true, ..off }).unwrap();
    assert_eq!(code.len(), 11);
    assert!(matches!(&code[10], ToolbarPart::Color));
    assert_eq!(
        harness.editor.toolbar_place(),
        Some(ToolbarPlace::Range { ix: 0, start: 0, end: 2 })
    );

    harness.editor.set_toolbar(Some(Vec::new()));
    assert!(harness.editor.toolbar_parts(off).is_none());
    harness.editor.set_toolbar(None);
    assert!(harness.editor.selection_toolbar_visible());
}

#[test]
fn the_link_editor_takes_a_link_off() {
    let mut harness = setup();
    harness.type_text("tiptap");
    harness.select_to_start();
    harness.editor.open_link_editor(None);
    harness.editor.apply_link_editor("#top");
    let link = MarkKind::Link(String::new());
    assert!(harness.editor.content()[0].marks.has(&link, 0, 6));
    assert_eq!(harness.caret(), Some((0, 6)));

    // Nothing is selected any more, so only the link itself can be opened.
    harness.editor.open_link_editor(None);
    assert!(!harness.editor.link_editor_is_open());
    let existing = || Some(ExistingLink { start: 0, end: 6, href: "#top".to_string() });
    harness.editor.take_effects();
    harness.editor.open_link_editor(existing());
    let effects = harness.editor.take_effects();
    match &effects[0] {
        Effect::OpenLinkInput(href) => assert_eq!(href, "#top"),
        other => panic!("unexpected request {:?}", other),
    }
    let card = harness.editor.link_card("").unwrap();
    assert_eq!((card.ix, card.start, card.end, card.can_apply), (0, 0, 6, false));
    assert!(harness.editor.link_card("x").unwrap().can_apply);
    harness.editor.apply_link_editor("  ");
    assert!(harness.editor.link_card("x").is_none());
    assert!(harness.editor.content()[0].marks.is_empty());

    harness.select_to_start();
    harness.editor.open_link_editor(None);
    harness.editor.apply_link_editor("a.b");
    harness.editor.open_link_editor(existing());
    harness.editor.remove_link();
    assert!(!harness.editor.link_editor_is_open());
    assert!(harness.editor.content()[0].marks.is_empty());
    harness.editor.open_link_editor(existing());
    harness.editor.close_link_editor();
    assert!(!harness.editor.link_editor_is_open());
    assert!(harness.editor.content()[0].marks.is_empty());
}

#[test]
fn blocks_are_told_where_they_stand() {
    let mut harness = load(vec![
        BlockContent::paragraph("a"),
        BlockContent::paragraph("b"),
        nested(BULLET_LIST, "c", 0),
        nested(BULLET_LIST, "d", 0),
    ]);
    harness.click(2);
    harness.editor.show_gutter_always();
    let margins: Vec<MarginTop> = (0..4).map(|ix| harness.editor.margin_top(ix)).collect();
    assert_eq!(
        margins,
        vec![MarginTop::Flush, MarginTop::Full, MarginTop::Full, MarginTop::Tight]
    );
    let context = harness.editor.block_context(2);
    assert!(context.focused && context.reveal_controls);
    assert!(!context.selected && !context.grid);
    assert_eq!((context.ix, context.ordinal, context.indent), (2, 1, 0));
    assert_eq!(harness.editor.block_context(3).ordinal, 2);
    assert_eq!(harness.editor.block_type(3), BULLET_LIST);
    assert_eq!(harness.editor.block_type(9), PARAGRAPH);
}

#[test]
fn a_frame_lays_out_what_is_shown() {
    let mut harness = load(vec![
        collapsed(BULLET_LIST, "toggle", 0),
        nested(BULLET_LIST, "inside", 1),
        BlockContent::paragraph("next"),
    ]);
    let (held, rows) = harness.editor.begin_frame(&vec![false, false, true]);
    assert!(held);
    let rows = rows.unwrap();
    assert_eq!(rows.len(), 2);
    assert_eq!((rows[0].context.ix, rows[0].margin), (0, MarginTop::Flush));
    assert_eq!((rows[1].context.ix, rows[1].margin), (2, MarginTop::Full));
    assert!(!rows[0].context.focused && rows[1].context.focused);
}

#[test]
fn a_number_that_cannot_be_shown_is_told() {
    let mut huge = nested(ORDERED_LIST, "huge", 0);
    huge.attrs.start = Some(usize::MAX);
    let mut harness = load(vec![huge, nested(ORDERED_LIST, "more", 0)]);
    assert!(harness.editor.ordinal_fits(0));
    assert_eq!(harness.editor.ordinal_at(0), usize::MAX);
    assert!(!harness.editor.ordinal_fits(1));
    let (held, rows) = harness.editor.begin_frame(&vec![false, false]);
    assert!(!held && rows.is_none());
}

#[test]
fn a_menu_that_lost_its_place_is_told() {
    let mut harness = setup();
    harness.type_text("a /");
    assert!(harness.editor.menu_fits());
    harness.editor.set_block_text(0, "añ".to_string(), 3);
    assert!(!harness.editor.menu_fits());
    harness.type_text("x");
    assert!(!harness.editor.suggestion_is_open());
    assert!(harness.editor.menu_fits());
}

#[test]
fn editing_moves_marks_and_the_caret() {
    let mut content = BlockContent::paragraph("one two");
    content.marks.add(MarkKind::Bold, 4, 7);
    let mut harness = load(vec![content]);
    harness.editor.take_effects();
    let caret = harness.editor.edit_block_text(0, 0, 3, "three");
    assert_eq!(caret, 5);
    assert_eq!(harness.texts(), vec!["three two"]);
    assert!(harness.editor.content()[0].marks.has(&MarkKind::Bold, 6, 9));
    assert_eq!(requests(&mut harness), vec!["text", "measure", "decorate", "document"]);
    harness.editor.set_block_text(0, "three".to_string(), 2);
    assert!(harness.editor.content()[0].marks.is_empty());
    let id = harness.editor.ensure_paragraph_after(0);
    assert_eq!(harness.editor.ensure_paragraph_after(0), id);
    assert_eq!(harness.texts(), vec!["three", ""]);
}

#[test]
fn a_link_is_a_change_of_the_document() {
    let mut harness = setup();
    harness.type_text("tiptap");
    harness.select_to_start();
    harness.editor.open_link_editor(None);
    assert_eq!(
        harness.editor.link_editor(),
        Some(LinkEditor { block: harness.id(0), start: 0, end: 6 })
    );
    assert!(harness.editor.link_fits());
    harness.editor.take_effects();
    harness.editor.apply_link_editor("#top");
    assert_eq!(
        requests(&mut harness),
        vec!["decorate", "document", "focus", "notify", "notify"]
    );

    // The same link over the same text changes nothing.
    let existing = || Some(ExistingLink { start: 0, end: 6, href: "#top".to_string() });
    harness.editor.open_link_editor(existing());
    harness.editor.take_effects();
    harness.editor.apply_link_editor("#top");
    assert_eq!(requests(&mut harness), vec!["decorate", "focus", "notify", "notify"]);

    harness.editor.open_link_editor(existing());
    harness.editor.take_effects();
    harness.editor.remove_link();
    assert_eq!(
        requests(&mut harness),
        vec!["decorate", "document", "focus", "notify", "notify"]
    );
    harness.editor.open_link_editor(existing());
    harness.editor.take_effects();
    harness.editor.remove_link();
    assert_eq!(requests(&mut harness), vec!["decorate", "focus", "notify", "notify"]);
}

#[test]
fn the_link_editor_keeps_the_block_focused() {
    let mut harness = setup();
    harness.type_text("tiptap");
    harness.select_to_start();
    harness.editor.open_link_editor(None);
    assert!(!harness.editor.refresh_focus(&vec![false]));
    assert_eq!(harness.editor.focused_id(), Some(harness.id(0)));
    harness.editor.set_block_text(0, "tip".to_string(), 0);
    assert!(!harness.editor.link_fits());
    harness.editor.close_link_editor();
    assert!(harness.editor.link_fits());
    assert!(!harness.editor.refresh_focus(&vec![false]));
    assert_eq!(harness.editor.focused_id(), None);
}

#[test]
fn a_pattern_is_asked_for_only_where_it_is_matched() {
    // Without the `$` at their end these end in a lone backslash.
    let mut half = registry();
    half.rules.push(InputRule { pattern: r"^\$".to_string(), entry: 0, rule: 0 });
    half.rules.push(InputRule { pattern: r"^\$$".to_string(), entry: 0, rule: 0 });
    let mut editor = NotionEditor::new(half);
    let id = editor.block_id_at(0).unwrap();
    assert!(editor.is_change_ready(id, "x", Selection::caret(1)));
    assert!(editor.handle_change(id, "x".to_string(), Selection::caret(1)));
    assert!(!editor.is_change_ready(id, "x\ny", Selection::caret(3)));
    assert!(!editor.handle_change(id, "x\ny".to_string(), Selection::caret(3)));
    assert_eq!(editor.content()[0].text, "x");
    // A lone line break is no paste.
    assert!(editor.handle_change(id, "x\n".to_string(), Selection::caret(2)));
    assert_eq!(editor.content()[0].text, "x\n");
    // A block that is not there changes nothing.
    assert!(editor.is_change_ready(BlockId(99), "x\ny", Selection::caret(3)));
    editor.set_input_rule_mode(InputRuleMode::Application);
    assert!(editor.handle_change(id, "a\nb".to_string(), Selection::caret(3)));
    assert_eq!(editor.content().len(), 2);
}

#[test]
fn code_asks_for_no_pattern() {
    let mut broken = registry();
    broken.rules.push(InputRule { pattern: "(".to_string(), entry: 0, rule: 0 });
    let mut editor = NotionEditor::with_content(
        broken,
        vec![BlockContent::new(CODE_BLOCK, ""), BlockContent::paragraph("same")],
    );
    let code = editor.block_id_at(0).unwrap();
    assert!(editor.handle_change(code, "a\nb".to_string(), Selection::caret(3)));
    assert_eq!(editor.content()[0].text, "a\nb");
    let text = editor.block_id_at(1).unwrap();
    assert!(editor.handle_change(text, "same".to_string(), Selection::caret(4)));
    assert_eq!(editor.caret_offset(text), Some(4));
    assert!(!editor.handle_change(text, "other".to_string(), Selection::caret(5)));
}

#[test]
fn a_registry_knows_whose_its_rules_are() {
    let mut types = registry();
    assert!(types.is_valid());
    types.rules.push(InputRule { pattern: "x".to_string(), entry: 9, rule: 0 });
    assert!(!types.is_valid());
}

#[test]
fn an_editor_knows_whether_it_is_in_order() {
    let mut harness = load(vec![BlockContent::paragraph("añ"), BlockContent::new(TABLE, "")]);
    harness.click(0);
    assert!(harness.editor.is_valid());
    let id = harness.id(0);
    let table = harness.id(1);

    harness.editor.block_mut(id).unwrap().input = Selection::caret(2);
    assert!(!harness.editor.is_valid());
    harness.editor.block_mut(id).unwrap().input = Selection::caret(3);
    assert!(harness.editor.is_valid());

    harness.editor.block_mut(id).unwrap().marks.add(MarkKind::Bold, 0, 4);
    assert!(!harness.editor.is_valid());
    harness.editor.block_mut(id).unwrap().marks.clamp(3);
    assert!(harness.editor.is_valid());

    harness.editor.block_mut(id).unwrap().id = table;
    assert!(!harness.editor.is_valid());
    harness.editor.block_mut(table).unwrap().id = id;
    assert!(harness.editor.is_valid());

    harness.editor.block_mut(table).unwrap().ty = PARAGRAPH.to_string();
    assert!(!harness.editor.is_valid(), "its cells are left over");
    harness.editor.block_mut(table).unwrap().ty = TABLE.to_string();
    assert!(harness.editor.is_valid());
    harness.editor.block_mut(id).unwrap().id = BlockId(harness.editor.next_id());
    assert!(!harness.editor.is_valid());
}

#[test]
fn only_blocks_of_the_document_are_selected() {
    let mut harness = load(vec![BlockContent::paragraph("one"), BlockContent::new(TABLE, "")]);
    let (text, table) = (harness.id(0), harness.id(1));
    assert!(harness.editor.select_blocks(vec![table]));
    assert!(!harness.editor.select_blocks(vec![text, BlockId(99)]));
    assert_eq!(harness.editor.selected_blocks(), &vec![table]);
    let cell = CellPosition { row: 0, column: 1 };
    assert!(!harness.editor.focus_cell(BlockId(99), cell));
    assert!(harness.editor.focused_cell().is_none());
    assert!(harness.editor.focus_cell(table, cell));
    assert_eq!(harness.editor.focused_cell(), Some((table, cell)));
    assert_eq!(harness.editor.next_id(), 4);
}

#[test]
fn the_color_menu_lists_both_palettes() {
    let texts = vec![
        (TextColor(0), "Default".to_string()),
        (TextColor(3), "Brown".to_string()),
    ];
    let highlights = vec![(HighlightColor(2), "Green".to_string())];
    let rows = color_menu(&texts, &highlights);
    assert_eq!(rows.len(), 6);
    assert!(matches!(&rows[0], ColorRow::Label("Text color")));
    assert!(matches!(&rows[1], ColorRow::Swatch { label, .. } if label == "Default"));
    match &rows[2] {
        ColorRow::Swatch { action, label, fill } => {
            assert_eq!(*action, ApplyColor::Text(TextColor(3)));
            assert_eq!(label, "Brown");
            assert_eq!(*fill, Tint::Text(TextColor(3)));
        }
        other => panic!("unexpected row {:?}", other),
    }
    assert!(matches!(&rows[3], ColorRow::Separator));
    assert!(matches!(&rows[4], ColorRow::Label("Highlight color")));
    match &rows[5] {
        ColorRow::Swatch { action, label, fill } => {
            assert_eq!(*action, ApplyColor::Highlight(HighlightColor(2)));
            assert_eq!(label, "Green");
            assert_eq!(*fill, Tint::Highlight(Some(HighlightColor(2))));
        }
        other => panic!("unexpected row {:?}", other),
    }
    assert_eq!(color_menu(&Vec::new(), &Vec::new()).len(), 3);
}

#[test]
fn an_application_menu_stands_in_for_the_editors_own() {
    let mut harness = setup();
    harness.type_text("/");
    assert!(harness.editor.slash_menu_is_open());
    let menu = || ApplicationMenu {
        anchor: ApplicationMenuAnchor::Caret,
        items: vec![ToolbarItem { tag: "a".to_string(), label: "A".to_string() }],
        selected: 0,
    };
    harness.editor.take_effects();
    harness.editor.set_application_menu(Some(menu()));
    assert_eq!(requests(&mut harness), vec!["notify"]);
    assert!(harness.editor.suggestion_is_open());
    assert!(!harness.editor.slash_menu_is_open());
    assert_eq!(harness.texts(), vec!["/"]);
    harness.editor.set_application_menu(Some(menu()));
    assert!(requests(&mut harness).is_empty());

    harness.editor.set_application_menu(None);
    assert!(!harness.editor.suggestion_is_open());
    harness.type_text(" /");
    assert!(!harness.editor.suggestion_is_open());
    assert!(harness.editor.suggestion().is_none());
    assert_eq!(harness.texts(), vec!["/ /"]);
    assert!(harness.editor.is_valid());
}

#[test]
fn a_frame_forgets_where_hidden_blocks_were() {
    let mut harness = load(vec![
        nested(BULLET_LIST, "toggle", 0),
        nested(BULLET_LIST, "inside", 1),
        BlockContent::paragraph("gone"),
        BlockContent::paragraph("stays"),
    ]);
    let ids: Vec<BlockId> = (0..4).map(|ix| harness.id(ix)).collect();
    for id in &ids {
        assert!(!harness.editor.is_placed(*id));
        harness.editor.on_block_placed(*id);
        harness.editor.on_block_placed(*id);
        assert!(harness.editor.is_placed(*id));
    }
    harness.editor.toggle_collapsed(ids[0]);
    harness.editor.remove_block(ids[2]);
    let before = harness.texts();
    let (_, rows) = harness.editor.begin_frame(&vec![false, false, false]);
    let drawn: Vec<BlockId> = rows.unwrap().iter().map(|row| row.context.id).collect();
    assert_eq!(drawn, vec![ids[0], ids[3]]);
    let placed: Vec<bool> = ids.iter().map(|id| harness.editor.is_placed(*id)).collect();
    assert_eq!(placed, vec![true, false, false, true]);
    assert_eq!(harness.texts(), before);
}

#[test]
fn a_hidden_number_too_large_stops_no_frame() {
    let mut toggle = nested(BULLET_LIST, "toggle", 0);
    toggle.attrs.collapsed = true;
    let mut huge = nested(ORDERED_LIST, "huge", 1);
    huge.attrs.start = Some(usize::MAX);
    let mut harness = load(vec![toggle, huge, nested(ORDERED_LIST, "more", 1)]);
    assert!(!harness.editor.ordinal_fits(2));
    let (_, rows) = harness.editor.begin_frame(&vec![false, false, false]);
    assert_eq!(rows.unwrap().len(), 1);
}

#[test]
fn a_click_on_a_toolbar_item_tells_its_tag() {
    let mut harness = setup();
    harness.type_text("text");
    harness.select_to_start();
    let item = |tag: &str, label: &str| ToolbarItem {
        tag: tag.to_string(),
        label: label.to_string(),
    };
    harness.editor.choose_toolbar_item(0);
    harness.editor.set_toolbar(Some(vec![item("one", "First"), item("two", "Second")]));
    let off = ActiveMarks {
        bold: false,
        italic: false,
        underline: false,
        strike: false,
        code: false,
        link: false,
    };
    let parts: Vec<(usize, String, String)> = harness
        .editor
        .toolbar_parts(off)
        .unwrap()
        .into_iter()
        .map(|part| match part {
            ToolbarPart::Item { index, tag, label } => (index, tag, label),
            other => panic!("unexpected part {:?}", other),
        })
        .collect();
    assert_eq!(
        parts,
        vec![
            (0, "one".to_string(), "First".to_string()),
            (1, "two".to_string(), "Second".to_string()),
        ]
    );
    let before = harness.editor.content();
    harness.editor.take_effects();
    harness.editor.choose_toolbar_item(1);
    harness.editor.choose_toolbar_item(2);
    harness.editor.choose_toolbar_item(0);
    let tags: Vec<String> = harness
        .editor
        .take_effects()
        .into_iter()
        .map(|effect| match effect {
            Effect::Toolbar(action) => action.tag,
            other => panic!("unexpected request {:?}", other),
        })
        .collect();
    assert_eq!(tags, vec!["two", "one"]);
    assert_eq!(harness.editor.content(), before);
}

#[test]
fn the_toolbars_menus_list_their_commands() {
    let named = |rows: Vec<CommandRow>| -> Vec<(&'static str, Option<ToolbarCommand>)> {
        rows.into_iter()
            .map(|row| match row {
                CommandRow::Separator => ("-", None),
                CommandRow::Entry { label, command } => (label, Some(command)),
            })
            .collect()
    };
    assert_eq!(
        named(turn_into_items()),
        vec![
            ("Text", Some(ToolbarCommand::SetParagraph)),
            ("Heading 1", Some(ToolbarCommand::SetHeading1)),
            ("Heading 2", Some(ToolbarCommand::SetHeading2)),
            ("Heading 3", Some(ToolbarCommand::SetHeading3)),
            ("Bulleted list", Some(ToolbarCommand::ToggleBulletList)),
            ("Numbered list", Some(ToolbarCommand::ToggleOrderedList)),
            ("To-do list", Some(ToolbarCommand::ToggleTaskList)),
            ("Blockquote", Some(ToolbarCommand::ToggleBlockquote)),
            ("Code block", Some(ToolbarCommand::ToggleCodeBlock)),
        ]
    );
    assert_eq!(
        named(more_items()),
        vec![
            ("Superscript", Some(ToolbarCommand::ToggleSuperscript)),
            ("Subscript", Some(ToolbarCommand::ToggleSubscript)),
            ("-", None),
            ("Reset formatting", Some(ToolbarCommand::ClearMarks)),
        ]
    );
}

#[test]
fn an_application_sets_its_own_emoji() {
    let mut harness = setup();
    harness.editor.take_effects();
    harness.editor.set_emoji(vec![
        Emoji { character: "🌊", name: "wave", keywords: vec!["sea"] },
        Emoji { character: "🌵", name: "cactus", keywords: Vec::new() },
    ]);
    assert_eq!(requests(&mut harness), vec!["notify"]);
    harness.type_text(":sea");
    harness.confirm();
    assert_eq!(harness.texts(), vec!["🌊"]);
    harness.type_text(" :rocket");
    assert!(!harness.editor.suggestion_is_open());
}

#[test]
fn a_pattern_behind_the_rule_that_fires_is_not_asked_for() {
    let mut broken = registry();
    broken.rules.push(InputRule { pattern: "(".to_string(), entry: 0, rule: 0 });
    let mut editor = NotionEditor::new(broken);
    let id = editor.block_id_at(0).unwrap();
    // A heading rule fires before the broken pattern is reached.
    assert!(editor.is_change_ready(id, "# ", Selection::caret(2)));
    assert!(!editor.is_change_ready(id, "# ", Selection::caret(1)));
    assert!(editor.handle_change(id, "# ".to_string(), Selection::caret(2)));
    assert_eq!(editor.block_type(0), HEADING);
    assert_eq!(editor.content()[0].text, "");

    // Every line of a paste has to meet a rule before it.
    assert!(editor.is_change_ready(id, "- a\n> b", Selection::caret(7)));
    assert!(!editor.is_change_ready(id, "- a\nb", Selection::caret(5)));
    assert!(!editor.is_change_ready(id, "a\n> b", Selection::caret(5)));
    // Lines like the first are already what its rule makes of them.
    assert!(!editor.is_change_ready(id, "- a\n- b", Selection::caret(7)));
    assert!(editor.handle_change(id, "- a\n> b".to_string(), Selection::caret(7)));
    let texts: Vec<String> = editor.content().into_iter().map(|block| block.text).collect();
    assert_eq!(texts, vec!["a", "b"]);
    assert_eq!((editor.block_type(0), editor.block_type(1)), (BULLET_LIST, BLOCKQUOTE));
}

#[test]
fn a_pasted_line_keeps_all_but_its_prefix() {
    let mut harness = load(vec![
        BlockContent::paragraph("above"),
        BlockContent::paragraph(""),
        BlockContent::paragraph("below"),
    ]);
    harness.click(1);
    harness.input("# one\n- two ñ\n\n3. three\nplain");
    assert_eq!(
        harness.texts(),
        vec!["above", "one", "two ñ", "", "three", "plain", "below"]
    );
    assert_eq!(
        harness.types(),
        vec![PARAGRAPH, HEADING, BULLET_LIST, HEADING, ORDERED_LIST, HEADING, PARAGRAPH]
    );
    assert_eq!(harness.editor.content()[4].attrs.start, Some(3));
}
