use rune_core::buffer::Buffer;
use rune_core::editor::ClipboardKind;
use rune_core::editor::Editor;
use rune_core::keymap::Action;
use rune_core::keymap::Mode;
use rune_core::keymap::apply_config_text;
use rune_core::keymap::default_keymap;
use rune_core::keymap::parse_action;
use rune_core::ui::Ui;

#[test]
fn dw_captures_deleted_word_in_clipboard() {
    let mut ed = Editor::new();
    ed.mode = Mode::Normal;
    ed.buf = Buffer::from_lines(vec!["hello world".into()]);
    ed.cy = 0;
    ed.cx = 0;
    for ch in "dw".chars() {
        let _ = ed.process_normal_char(ch);
    }
    assert_eq!(ed.buf.to_lines(), vec![String::from("world")]);
    assert_eq!(ed.clipboard, "hello ");
    assert_eq!(ed.clipboard_kind, ClipboardKind::Charwise);
}

#[test]
fn paste_with_empty_clipboard_is_a_no_op() {
    let mut ed = Editor::new();
    ed.mode = Mode::Normal;
    ed.buf = Buffer::from_lines(vec!["abc".into()]);
    ed.paste_after();
    ed.paste_before();
    assert_eq!(ed.buf.to_lines(), vec![String::from("abc")]);
    assert!(!ed.dirty);
}

#[test]
fn unknown_ex_command_is_reported_unhandled() {
    let mut ed = Editor::new();
    ed.buf = Buffer::from_lines(vec!["abc".into()]);
    assert!(!ed.execute_ex_command("wibble"));
    assert!(!ed.execute_ex_command(""));
    assert!(ed.execute_ex_command(" 1 "));
    assert_eq!(ed.cy, 0);
}

#[test]
fn clamp_cursor_is_idempotent() {
    let mut ed = Editor::new();
    ed.buf = Buffer::from_lines(vec!["short".into(), "longer line".into()]);
    ed.cy = 99;
    ed.cx = 99;
    ed.clamp_cursor();
    let once = (ed.cy, ed.cx);
    ed.clamp_cursor();
    assert_eq!((ed.cy, ed.cx), once);
}

#[test]
fn cursor_stays_in_bounds_after_mixed_operations() {
    let mut ed = Editor::new();
    ed.mode = Mode::Normal;
    ed.buf = Buffer::from_lines(vec!["aaa bbb".into(), "c".into(), "dd ee".into()]);
    for ch in "Gwdxj$kbdd2wup".chars() {
        let _ = ed.process_normal_char(ch);
    }
    let lc = ed.buf.line_count();
    assert!(ed.cy < lc);
    assert!(ed.cx <= ed.buf.line_width(ed.cy));
}

#[test]
fn parse_action_accepts_long_and_short_names() {
    assert_eq!(parse_action("move_left"), Some(Action::MoveLeft));
    assert_eq!(parse_action("h"), Some(Action::MoveLeft));
    assert_eq!(parse_action("redo"), Some(Action::Redo));
    assert_eq!(parse_action("paste_before"), Some(Action::PasteBefore));
    assert_eq!(parse_action("nonsense"), None);
}

#[test]
fn default_keymap_binds_the_standard_keys() {
    let m = default_keymap();
    assert_eq!(m.get("h"), Some(Action::MoveLeft));
    assert_eq!(m.get("dd"), Some(Action::DeleteLine));
    assert_eq!(m.get("gg"), Some(Action::GotoTop));
    assert_eq!(m.get("q"), None);
    assert!(m.has_prefix("g"));
    assert!(!m.has_prefix("z"));
}

#[test]
fn config_text_overrides_and_start_mode() {
    let base = default_keymap();
    let cfg = apply_config_text(
        base,
        "# comment\n[normal]\nH = move_left\n\"Z\" = delete_line\n[general]\nstart_in_insert = \"yes\"\n",
    );
    assert!(cfg.start_in_insert);
    assert_eq!(cfg.keymap.get("H"), Some(Action::MoveLeft));
    assert_eq!(cfg.keymap.get("Z"), Some(Action::DeleteLine));
    assert_eq!(cfg.keymap.get("h"), Some(Action::MoveLeft));
}

#[test]
fn visual_block_delete_removes_rectangle() {
    let mut ed = Editor::new();
    ed.buf = Buffer::from_lines(vec!["abcd".into(), "efgh".into()]);
    ed.mode = Mode::Normal;
    ed.cy = 0;
    ed.cx = 1;
    ed.apply_action(Action::EnterVisualBlock);
    ed.cy = 1;
    ed.cx = 3;
    ed.visual_delete();
    assert_eq!(
        ed.buf.to_lines(),
        vec![String::from("ad"), String::from("eh")]
    );
    assert_eq!(ed.clipboard, "bc\nfg");
    assert_eq!(ed.clipboard_kind, ClipboardKind::Blockwise);
    assert!(matches!(ed.mode, Mode::Normal));
}

#[test]
fn entering_same_visual_mode_twice_leaves_it() {
    let mut ed = Editor::new();
    ed.buf = Buffer::from_lines(vec!["abc".into()]);
    ed.mode = Mode::Normal;
    ed.apply_action(Action::EnterVisual);
    assert!(matches!(ed.mode, Mode::Visual));
    assert!(ed.visual_anchor.is_some());
    ed.apply_action(Action::EnterVisual);
    assert!(matches!(ed.mode, Mode::Normal));
    assert!(ed.visual_anchor.is_none());
    ed.apply_action(Action::EnterVisual);
    ed.apply_action(Action::EnterVisualLine);
    assert!(matches!(ed.mode, Mode::VisualLine));
    assert!(ed.visual_anchor.is_some());
}

#[test]
fn open_below_and_above_insert_lines() {
    let mut ed = Editor::new();
    ed.mode = Mode::Normal;
    ed.buf = Buffer::from_lines(vec!["top".into(), "bottom".into()]);
    ed.cy = 0;
    ed.apply_action(Action::OpenBelow);
    assert_eq!(
        ed.buf.to_lines(),
        vec![String::from("top"), String::from(""), String::from("bottom")]
    );
    assert_eq!(ed.cy, 1);
    assert!(matches!(ed.mode, Mode::Insert));
    ed.mode = Mode::Normal;
    ed.apply_action(Action::OpenAbove);
    assert_eq!(ed.buf.line_string(1), "");
    assert!(matches!(ed.mode, Mode::Insert));
}

#[test]
fn delete_char_at_line_start_merges_lines() {
    let mut ed = Editor::new();
    ed.mode = Mode::Insert;
    ed.buf = Buffer::from_lines(vec!["ab".into(), "cd".into()]);
    ed.cy = 1;
    ed.cx = 0;
    ed.delete_char();
    assert_eq!(ed.buf.to_lines(), vec![String::from("abcd")]);
    assert_eq!(ed.cy, 0);
    assert_eq!(ed.cx, 2);
}

#[test]
fn timeout_resolves_longest_prefix_and_keeps_operator() {
    let mut ed = Editor::new();
    ed.mode = Mode::Normal;
    ed.buf = Buffer::from_lines(vec!["one two".into()]);
    let _ = ed.process_normal_char('d');
    assert!(ed.op_pending.is_some());
    let _ = ed.process_normal_char('w');
    assert_eq!(ed.buf.line_string(0), "two");
}

#[test]
fn ui_resize_and_clear_cache() {
    let mut ui = Ui::new_sized(80, 24);
    assert_eq!(ui.screen_rows, 23);
    assert_eq!(ui.prev_lines.len(), 23);
    ui.resize(40, 11);
    assert_eq!(ui.screen_cols, 40);
    assert_eq!(ui.screen_rows, 10);
    assert_eq!(ui.prev_lines.len(), 10);
    ui.prev_status = "x".to_string();
    ui.clear_cache();
    assert_eq!(ui.prev_status, "");
    assert!(ui.prev_lines.iter().all(|l| l.is_empty()));
}

#[test]
fn ui_scroll_follows_cursor() {
    let mut ui = Ui::new_sized(10, 5);
    let mut ed = Editor::new();
    ed.buf = Buffer::from_lines((0..40).map(|i| format!("line {}", i)).collect());
    ed.cy = 20;
    ed.cx = 3;
    ui.scroll(&ed);
    assert!(ui.off_y <= 20 && 20 < ui.off_y + ui.screen_rows as usize);
    assert!(ui.off_x <= 3 && 3 < ui.off_x + ui.screen_cols as usize);
}

#[test]
fn ui_truncate_to_width_cuts_at_grapheme() {
    let t = Ui::truncate_to_width("hello", 3);
    assert_eq!(t, "hel");
    let t2 = Ui::truncate_to_width("a\u{1F604}b", 2);
    assert_eq!(t2, "a");
    let t3 = Ui::truncate_to_width("abc", 0);
    assert_eq!(t3, "");
}

#[test]
fn charwise_paste_after_inserts_at_cursor() {
    let mut ed = Editor::new();
    ed.mode = Mode::Normal;
    ed.buf = Buffer::from_lines(vec!["abcd".into()]);
    ed.clipboard = "XY".to_string();
    ed.clipboard_kind = ClipboardKind::Charwise;
    ed.cx = 2;
    ed.paste_after();
    assert_eq!(ed.buf.line_string(0), "abXYcd");
    assert_eq!(ed.cx, 2);
}

#[test]
fn goto_line_clamps_to_document() {
    let mut ed = Editor::new();
    ed.buf = Buffer::from_lines((1..=5).map(|i| format!("{}", i)).collect());
    ed.goto_line(3);
    assert_eq!(ed.cy, 2);
    ed.goto_line(0);
    assert_eq!(ed.cy, 0);
    ed.goto_line(999);
    assert_eq!(ed.cy, 4);
}

#[test]
fn typing_a_wide_character_advances_two_columns() {
    let mut ed = Editor::new();
    ed.mode = Mode::Insert;
    ed.buf = Buffer::from_lines(vec![String::new()]);
    ed.insert_char('\u{1F604}');
    assert_eq!(ed.cx, 2);
    ed.insert_char('a');
    assert_eq!(ed.cx, 3);
    assert_eq!(ed.buf.line_string(0), "\u{1F604}a");
}

#[test]
fn timeout_with_empty_pending_changes_nothing() {
    let mut ed = Editor::new();
    ed.buf = Buffer::from_lines(vec!["abc".into()]);
    let before = ed.buf.text_string();
    let _ = ed.process_pending_timeout();
    assert_eq!(ed.buf.text_string(), before);
    assert_eq!(ed.pending, "");
}

#[test]
fn empty_config_leaves_bindings_and_start_mode_alone() {
    let cfg = apply_config_text(default_keymap(), "");
    assert!(!cfg.start_in_insert);
    assert_eq!(cfg.keymap.len(), default_keymap().len());
    assert_eq!(cfg.keymap.get("h"), Some(Action::MoveLeft));
}

#[test]
fn config_ignores_unparseable_actions_and_lets_later_lines_win() {
    let cfg = apply_config_text(
        default_keymap(),
        "[normal]\nQ = no_such_action\nZ = move_left\nZ = move_right\n",
    );
    assert_eq!(cfg.keymap.get("Q"), None);
    assert_eq!(cfg.keymap.get("Z"), Some(Action::MoveRight));
    assert!(!cfg.start_in_insert);
}

#[test]
fn config_start_flag_is_case_insensitive_and_last_value_counts() {
    let cfg = apply_config_text(
        default_keymap(),
        "[general]\nstart_in_insert = TRUE\nstart_in_insert = off\n",
    );
    assert!(!cfg.start_in_insert);
    let cfg2 = apply_config_text(default_keymap(), "[general]\nSTART_IN_INSERT = On\n");
    assert!(cfg2.start_in_insert);
}

#[test]
fn config_bindings_outside_a_section_are_ignored() {
    let cfg = apply_config_text(default_keymap(), "Z = move_left\n# note\n\n");
    assert_eq!(cfg.keymap.get("Z"), None);
}
