# gpui_notion

The document model of a block editor: blocks of text with inline marks, markdown
shortcuts, suggestion menus, a selection toolbar and a link editor. What each
operation does is stated as a contract and proved with Verus.

- `src/view.rs`, `src/focus.rs`, `src/edit.rs`: the editor, its document, where
  the caret is, and how text is changed.
- `src/input_rules.rs`: markdown shortcuts. Matching is the `regex` crate's,
  behind `src/pattern.rs`.
- `src/ready.rs`: which patterns a change has the shortcuts match with, asked
  ahead of it.
- `src/slash.rs`, `src/suggestion.rs`: the `/`, `:` and `@` menus.
- `src/toolbar.rs`: the toolbar over a selection, its menus, and the link
  editor.
- `src/render.rs`: what is drawn.
- `src/block.rs`, `src/mark.rs`, `src/style.rs`, `src/text.rs`: blocks, marks,
  styles, and texts measured in bytes.
- `src/effect.rs`: what the editor asks of the interface around it.
- `src/state.rs`: what the interface reads of the editor and tells it, and the
  test whether an editor is in order.
- `src/laws.rs`: what holds of the editor as a whole.

The editor works on an `EditorView`: every operation is a function from one to
the next, and the executable method is proved to compute it. Requests to the
interface are left in an outbox. `app/` is that interface, over any widget
toolkit.
