use rune_core::buffer::Buffer;
use rune_core::editor::ClipboardKind;
use rune_core::editor::Editor;
use rune_core::editor::NormalInputResult;
use rune_core::keymap::Action;
use rune_core::keymap::Mode;

#[test]
fn normal_mode_3dd_deletes_three_lines() {
    let mut ed = Editor::new();
    ed.mode = Mode::Normal;
    ed.buf = Buffer::from_lines(vec![
        "l1".to_string(),
        "l2".to_string(),
        "l3".to_string(),
        "l4".to_string(),
        "l5".to_string(),
    ]);
    ed.cy = 1;
    for ch in "3dd".chars() {
        let _ = ed.process_normal_char(ch);
    }
    assert_eq!(ed.buf.to_lines(), vec!["l1".to_string(), "l5".to_string()]);
    for ch in "P".chars() {
        let _ = ed.process_normal_char(ch);
    }
    assert_eq!(
        ed.buf.to_lines(),
        vec![
            String::from("l1"),
            String::from("l2"),
            String::from("l3"),
            String::from("l4"),
            String::from("l5")
        ]
    );
    assert_eq!(ed.cy, 1);
}

#[test]
fn normal_mode_10j_moves_down_multiple_lines() {
    let mut ed = Editor::new();
    ed.mode = Mode::Normal;
    ed.buf = Buffer::from_lines((0..15).map(|i| format!("{}", i)).collect());
    ed.cy = 0;
    for ch in "10j".chars() {
        let _ = ed.process_normal_char(ch);
    }
    assert_eq!(ed.cy, 10);
    for ch in "5k".chars() {
        let _ = ed.process_normal_char(ch);
    }
    assert_eq!(ed.cy, 5);
}

#[test]
fn normal_mode_count_gg_and_g_go_to_line() {
    let mut ed = Editor::new();
    ed.mode = Mode::Normal;
    ed.buf = Buffer::from_lines((1..=20).map(|i| format!("{}", i)).collect());
    ed.cy = 10;
    for ch in "5gg".chars() {
        let _ = ed.process_normal_char(ch);
    }
    assert_eq!(ed.cy, 4);
    for ch in "10G".chars() {
        let _ = ed.process_normal_char(ch);
    }
    assert_eq!(ed.cy, 9);
    for ch in "G".chars() {
        let _ = ed.process_normal_char(ch);
    }
    assert_eq!(ed.cy, 19);
    for ch in "99gg".chars() {
        let _ = ed.process_normal_char(ch);
    }
    assert_eq!(ed.cy, 19);
}

#[test]
fn ex_command_number_moves_to_line() {
    let mut ed = Editor::new();
    ed.mode = Mode::Normal;
    ed.buf = Buffer::from_lines((1..=15).map(|i| format!("{}", i)).collect());
    ed.cy = 5;
    let res = ed.process_normal_char(':');
    assert_eq!(res, NormalInputResult::CommandPrompt);
    assert!(ed.execute_ex_command("10"));
    assert_eq!(ed.cy, 9);
    assert!(ed.execute_ex_command("999"));
    assert_eq!(ed.cy, 14);
    assert!(ed.execute_ex_command("0"));
    assert_eq!(ed.cy, 0);
}

#[test]
fn pending_timeout_clears_incomplete_sequence() {
    let mut ed = Editor::new();
    ed.mode = Mode::Normal;
    ed.buf = Buffer::from_lines((0..=5).map(|i| format!("{}", i)).collect());
    let _ = ed.process_normal_char('g');
    let _ = ed.process_pending_timeout();
    assert_eq!(ed.pending, "");
    let _ = ed.process_normal_char('3');
    let _ = ed.process_pending_timeout();
    assert_eq!(ed.pending, "");
}

#[test]
fn operator_dw_and_d_dollar() {
    let mut ed = Editor::new();
    ed.mode = Mode::Normal;
    ed.buf = Buffer::from_lines(vec!["hello world".into(), "second".into()]);
    ed.cy = 0;
    ed.cx = 0;
    for ch in "dw".chars() {
        let _ = ed.process_normal_char(ch);
    }
    assert_eq!(ed.buf.line_string(0), "world");
    ed.buf = Buffer::from_lines(vec!["hello world".into(), "second".into()]);
    ed.cx = 6;
    for ch in "d$".chars() {
        let _ = ed.process_normal_char(ch);
    }
    assert_eq!(ed.buf.line_string(0), "hello ");
    ed.buf = Buffer::from_lines(vec!["one two three four".into()]);
    ed.cy = 0;
    ed.cx = 0;
    for ch in "3w".chars() {
        let _ = ed.process_normal_char(ch);
    }
    assert!(ed.cx > 0);
    for ch in "0".chars() {
        let _ = ed.process_normal_char(ch);
    }
    let start_text = ed.buf.line_string(0);
    for ch in "2dw".chars() {
        let _ = ed.process_normal_char(ch);
    }
    assert!(ed.buf.line_string(0).len() < start_text.len());
    for ch in "p".chars() {
        let _ = ed.process_normal_char(ch);
    }
}

#[test]
fn undo_redo_insert_and_delete() {
    let mut ed = Editor::new();
    ed.mode = Mode::Insert;
    ed.buf = Buffer::from_lines(vec![String::new()]);
    ed.insert_char('a');
    ed.insert_char('b');
    ed.insert_char('c');
    assert_eq!(ed.buf.line_string(0), "abc");
    assert!(ed.undo());
    assert_eq!(ed.buf.line_string(0), "");
    assert!(ed.redo());
    assert_eq!(ed.buf.line_string(0), "abc");

    ed.mode = Mode::Normal;
    for ch in "dd".chars() {
        let _ = ed.process_normal_char(ch);
    }
    assert_eq!(ed.buf.line_string(0), "");
    assert!(ed.undo());
    assert_eq!(ed.buf.line_count(), 1);
    assert_eq!(ed.buf.line_string(0), "abc");
    assert!(ed.redo());
    assert_eq!(ed.buf.line_string(0), "");
}

#[test]
fn undo_redo_for_3dd() {
    let mut ed = Editor::new();
    ed.mode = Mode::Normal;
    ed.buf = Buffer::from_lines(vec![
        "l1".into(),
        "l2".into(),
        "l3".into(),
        "l4".into(),
        "l5".into(),
    ]);
    ed.cy = 1;
    for ch in "3dd".chars() {
        let _ = ed.process_normal_char(ch);
    }
    assert_eq!(
        ed.buf.to_lines(),
        vec![String::from("l1"), String::from("l5")]
    );
    assert!(ed.undo());
    assert_eq!(
        ed.buf.to_lines(),
        vec![
            String::from("l1"),
            String::from("l2"),
            String::from("l3"),
            String::from("l4"),
            String::from("l5"),
        ]
    );
    assert!(ed.redo());
    assert_eq!(
        ed.buf.to_lines(),
        vec![String::from("l1"), String::from("l5")]
    );
}

#[test]
fn undo_redo_dw_and_dollar() {
    let mut ed = Editor::new();
    ed.mode = Mode::Normal;
    ed.buf = Buffer::from_lines(vec!["hello world".into()]);
    ed.cy = 0;
    ed.cx = 0;
    for ch in "dw".chars() {
        let _ = ed.process_normal_char(ch);
    }
    assert_eq!(ed.buf.line_string(0), "world");
    assert!(ed.undo());
    assert_eq!(ed.buf.line_string(0), "hello world");
    assert!(ed.redo());
    assert_eq!(ed.buf.line_string(0), "world");

    ed.buf = Buffer::from_lines(vec!["hello world".into()]);
    ed.cx = 6;
    for ch in "d$".chars() {
        let _ = ed.process_normal_char(ch);
    }
    assert_eq!(ed.buf.line_string(0), "hello ");
    assert!(ed.undo());
    assert_eq!(ed.buf.line_string(0), "hello world");
    assert!(ed.redo());
    assert_eq!(ed.buf.line_string(0), "hello ");
}

#[test]
fn counted_motion_does_not_create_undo_step() {
    let mut ed = Editor::new();
    ed.mode = Mode::Normal;
    ed.buf = Buffer::from_lines((0..30).map(|i| format!("line{}", i)).collect());
    let before = ed.undo_stack_len();
    for ch in "10j".chars() {
        let _ = ed.process_normal_char(ch);
    }
    assert_eq!(ed.undo_stack_len(), before);
    assert!(!ed.undo());
}

#[test]
fn undo_redo_cw() {
    let mut ed = Editor::new();
    ed.mode = Mode::Normal;
    ed.buf = Buffer::from_lines(vec!["hello world".into()]);
    ed.cy = 0;
    ed.cx = 0;
    for ch in "cw".chars() {
        let _ = ed.process_normal_char(ch);
    }
    assert_eq!(ed.buf.line_string(0), "world");
    assert!(ed.undo());
    assert_eq!(ed.buf.line_string(0), "hello world");
    assert!(ed.redo());
    assert_eq!(ed.buf.line_string(0), "world");
}

#[test]
fn insert_undo_break_ctrl_g_u_behaviour() {
    let mut ed = Editor::new();
    ed.mode = Mode::Insert;
    ed.buf = Buffer::from_lines(vec![String::new()]);
    ed.insert_char('a');
    ed.insert_char('b');
    ed.insert_char('c');
    ed.end_undo_group();
    ed.insert_char('d');
    ed.insert_char('e');
    ed.insert_char('f');
    assert_eq!(ed.buf.line_string(0), "abcdef");
    assert!(ed.undo());
    assert_eq!(ed.buf.line_string(0), "abc");
    assert!(ed.undo());
    assert_eq!(ed.buf.line_string(0), "");
    assert!(ed.redo());
    assert_eq!(ed.buf.line_string(0), "abc");
    assert!(ed.redo());
    assert_eq!(ed.buf.line_string(0), "abcdef");
}

#[test]
fn dw_at_eol_joins_next_line() {
    let mut ed = Editor::new();
    ed.mode = Mode::Normal;
    ed.buf = Buffer::from_lines(vec!["foo".into(), "  bar baz".into()]);
    ed.cy = 0;
    ed.cx = ed.buf.line_width(0);
    for ch in "dw".chars() {
        let _ = ed.process_normal_char(ch);
    }
    assert_eq!(ed.buf.to_lines(), vec![String::from("foo  bar baz")]);
    assert_eq!(ed.cy, 0);
}

#[test]
fn cw_changes_word_and_enters_insert() {
    let mut ed = Editor::new();
    ed.mode = Mode::Normal;
    ed.buf = Buffer::from_lines(vec!["hello world".into()]);
    ed.cy = 0;
    ed.cx = 0;
    for ch in "cw".chars() {
        let _ = ed.process_normal_char(ch);
    }
    assert_eq!(ed.buf.line_string(0), "world");
    assert!(matches!(ed.mode, Mode::Insert));
}

#[test]
fn y_dollar_yanks_to_clipboard() {
    let mut ed = Editor::new();
    ed.mode = Mode::Normal;
    ed.buf = Buffer::from_lines(vec!["hello world".into()]);
    ed.cy = 0;
    ed.cx = 6;
    for ch in "y$".chars() {
        let _ = ed.process_normal_char(ch);
    }
    assert_eq!(ed.clipboard, "world");
    for ch in "p".chars() {
        let _ = ed.process_normal_char(ch);
    }
    assert_eq!(ed.buf.line_string(0), "hello worldworld");
}

#[test]
fn operator_3dw_across_lines() {
    let mut ed = Editor::new();
    ed.mode = Mode::Normal;
    ed.buf = Buffer::from_lines(vec!["one two".into(), "three four".into()]);
    ed.cy = 0;
    ed.cx = 0;
    for ch in "3dw".chars() {
        let _ = ed.process_normal_char(ch);
    }
    assert_eq!(ed.buf.to_lines(), vec![String::from("four")]);
    assert!(ed.undo());
    assert_eq!(
        ed.buf.to_lines(),
        vec![String::from("one two"), String::from("three four")]
    );
}

#[test]
fn operator_2cw_across_lines_enters_insert() {
    let mut ed = Editor::new();
    ed.mode = Mode::Normal;
    ed.buf = Buffer::from_lines(vec!["one two".into(), "three four".into()]);
    ed.cy = 0;
    ed.cx = 0;
    for ch in "2cw".chars() {
        let _ = ed.process_normal_char(ch);
    }
    assert_eq!(ed.buf.to_lines(), vec![String::from("three four")]);
    assert!(matches!(ed.mode, Mode::Insert));
    assert!(ed.undo());
    assert_eq!(
        ed.buf.to_lines(),
        vec![String::from("one two"), String::from("three four")]
    );
    assert!(ed.redo());
    assert_eq!(ed.buf.to_lines(), vec![String::from("three four")]);
    assert!(matches!(ed.mode, Mode::Insert));
}

#[test]
fn ex_commands_dollar_plus_minus() {
    let mut ed = Editor::new();
    ed.mode = Mode::Normal;
    ed.buf = Buffer::from_lines((1..=10).map(|i| format!("{}", i)).collect());
    ed.cy = 5;
    assert!(ed.execute_ex_command("$"));
    assert_eq!(ed.cy, 9);
    assert!(ed.execute_ex_command("+2"));
    assert_eq!(ed.cy, 9);
    assert!(ed.execute_ex_command("-3"));
    assert_eq!(ed.cy, 6);
    assert!(ed.execute_ex_command("-100"));
    assert_eq!(ed.cy, 0);
}

#[test]
fn visual_mode_basic_delete_yank_change() {
    let mut ed = Editor::new();
    ed.buf = Buffer::from_lines(vec!["one two three".into(), "four five".into()]);
    ed.mode = Mode::Normal;
    ed.cy = 0;
    ed.cx = 0;
    ed.apply_action(Action::EnterVisual);
    ed.apply_action(Action::MoveWordForward);
    let end = ed.buf.end_of_word(ed.cx, ed.cy);
    ed.cx = end;
    ed.visual_delete();
    assert_eq!(ed.buf.line_string(0), " three");
    assert!(matches!(ed.mode, Mode::Normal));

    ed.cx = 0;
    ed.apply_action(Action::EnterVisual);
    ed.cy = 1;
    ed.cx = 4;
    ed.visual_yank();
    assert_eq!(ed.clipboard, " three\nfour");
    ed.clipboard_kind = ClipboardKind::Linewise;
    let cy_before = ed.cy;
    for ch in "p".chars() {
        let _ = ed.process_normal_char(ch);
    }
    assert_eq!(ed.cy, cy_before + 1);

    ed.cy = 1;
    ed.cx = 0;
    ed.apply_action(Action::EnterVisual);
    ed.apply_action(Action::MoveWordForward);
    ed.visual_change();
    assert!(matches!(ed.mode, Mode::Insert));
    assert_eq!(ed.buf.line_string(1), "five");
}

#[test]
fn visual_line_yank_and_paste() {
    let mut ed = Editor::new();
    ed.buf = Buffer::from_lines(vec!["aa".into(), "bb".into(), "cc".into()]);
    ed.mode = Mode::Normal;
    ed.cy = 0;
    ed.apply_action(Action::EnterVisualLine);
    ed.apply_action(Action::MoveDown);
    ed.visual_yank();
    assert_eq!(ed.clipboard, "aa\nbb");
    ed.cy = 2;
    for ch in "p".chars() {
        let _ = ed.process_normal_char(ch);
    }
    assert_eq!(
        ed.buf.to_lines(),
        vec![
            String::from("aa"),
            String::from("bb"),
            String::from("cc"),
            String::from("aa"),
            String::from("bb")
        ]
    );
}

#[test]
fn visual_block_yank_and_paste() {
    let mut ed = Editor::new();
    ed.buf = Buffer::from_lines(vec!["abcd".into(), "abcd".into()]);
    ed.mode = Mode::Normal;
    ed.cy = 0;
    ed.cx = 1;
    ed.apply_action(Action::EnterVisualBlock);
    ed.cy = 1;
    ed.cx = 3;
    ed.visual_yank();
    assert_eq!(ed.clipboard, "bc\nbc");
    ed.cy = 1;
    ed.cx = 0;
    ed.paste_before();
    assert_eq!(
        ed.buf.to_lines(),
        vec![String::from("abcd"), String::from("bcabcd")]
    );
}
