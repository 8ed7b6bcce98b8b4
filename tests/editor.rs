use virt_manager::editor::{read_line, Editor, KeyEvent, TermOp};
use virt_manager::history::HistoryStore;

fn history_of(lines: &[&str]) -> HistoryStore {
    let mut h = HistoryStore::new();
    for l in lines {
        h.append(l);
    }
    h
}

fn type_text(ed: &mut Editor, h: &HistoryStore, text: &str) {
    for c in text.chars() {
        ed.handle_key(h, KeyEvent::Char(c));
    }
}

#[test]
fn backspace_inside_word() {
    let h = HistoryStore::new();
    let mut ed = Editor::new(&h);
    type_text(&mut ed, &h, "list");
    ed.handle_key(&h, KeyEvent::ArrowLeft);
    ed.handle_key(&h, KeyEvent::ArrowLeft);
    assert_eq!(ed.cursor(), 2);
    let r = ed.handle_key(&h, KeyEvent::Backspace);
    assert_eq!(ed.text(), "lst");
    assert_eq!(ed.cursor(), 1);
    assert_eq!(r.ops.len(), 4);
    assert!(matches!(r.ops[0], TermOp::Left(1)));
    assert!(matches!(r.ops[1], TermOp::ClearAfter));
    assert!(matches!(&r.ops[2], TermOp::Print(s) if s == "st"));
    assert!(matches!(r.ops[3], TermOp::ToOffset(1)));
}

#[test]
fn up_with_empty_history_is_noop() {
    let h = HistoryStore::new();
    let mut ed = Editor::new(&h);
    let r = ed.handle_key(&h, KeyEvent::ArrowUp);
    assert_eq!(ed.text(), "");
    assert_eq!(ed.cursor(), 0);
    assert!(r.ops.is_empty());
    assert!(r.line.is_none());
}

#[test]
fn history_up_up_down_down() {
    let h = history_of(&["help", "list", "version"]);
    let mut ed = Editor::new(&h);
    ed.handle_key(&h, KeyEvent::ArrowUp);
    ed.handle_key(&h, KeyEvent::ArrowUp);
    assert_eq!(ed.text(), "list");
    ed.handle_key(&h, KeyEvent::ArrowDown);
    assert_eq!(ed.text(), "version");
    let r = ed.handle_key(&h, KeyEvent::ArrowDown);
    assert_eq!(ed.text(), "");
    assert_eq!(ed.history_cursor(), 3);
    assert_eq!(r.ops.len(), 4);
    assert!(matches!(r.ops[0], TermOp::ToOffset(0)));
    assert!(matches!(&r.ops[2], TermOp::Print(s) if s.is_empty()));
}

#[test]
fn typed_characters_come_back_trimmed() {
    let h = HistoryStore::new();
    let mut keys: Vec<KeyEvent> = "  start vm1 ".chars().map(KeyEvent::Char).collect();
    keys.push(KeyEvent::Enter);
    assert_eq!(read_line(&h, &keys), Some("start vm1".to_string()));
}

#[test]
fn read_line_without_enter_gives_nothing() {
    let h = HistoryStore::new();
    let keys: Vec<KeyEvent> = "help".chars().map(KeyEvent::Char).collect();
    assert_eq!(read_line(&h, &keys), None);
}

#[test]
fn read_line_stops_at_first_enter() {
    let h = HistoryStore::new();
    let keys = vec![
        KeyEvent::Char('a'),
        KeyEvent::Enter,
        KeyEvent::Char('b'),
        KeyEvent::Enter,
    ];
    assert_eq!(read_line(&h, &keys), Some("a".to_string()));
}

#[test]
fn cursor_stays_in_buffer() {
    let h = HistoryStore::new();
    let mut ed = Editor::new(&h);
    let keys = [
        KeyEvent::ArrowLeft,
        KeyEvent::Backspace,
        KeyEvent::Char('a'),
        KeyEvent::Char('b'),
        KeyEvent::ArrowRight,
        KeyEvent::ArrowLeft,
        KeyEvent::ArrowLeft,
        KeyEvent::ArrowLeft,
        KeyEvent::Backspace,
        KeyEvent::Char('c'),
        KeyEvent::ArrowRight,
        KeyEvent::ArrowRight,
        KeyEvent::ArrowRight,
        KeyEvent::Backspace,
        KeyEvent::Backspace,
        KeyEvent::Backspace,
        KeyEvent::Backspace,
    ];
    for k in keys {
        ed.handle_key(&h, k);
        assert!(ed.cursor() <= ed.text().chars().count());
    }
    assert_eq!(ed.text(), "");
}

#[test]
fn moves_at_edges_change_nothing() {
    let h = HistoryStore::new();
    let mut ed = Editor::new(&h);
    type_text(&mut ed, &h, "ab");
    let r = ed.handle_key(&h, KeyEvent::ArrowRight);
    assert!(r.ops.is_empty());
    assert_eq!(ed.text(), "ab");
    assert_eq!(ed.cursor(), 2);
    ed.handle_key(&h, KeyEvent::ArrowLeft);
    ed.handle_key(&h, KeyEvent::ArrowLeft);
    let r = ed.handle_key(&h, KeyEvent::ArrowLeft);
    assert!(r.ops.is_empty());
    assert_eq!(ed.text(), "ab");
    assert_eq!(ed.cursor(), 0);
}

#[test]
fn up_replays_newest_first_and_clamps() {
    let h = history_of(&["one", "two", "three"]);
    let mut ed = Editor::new(&h);
    let mut seen = Vec::new();
    for _ in 0..3 {
        ed.handle_key(&h, KeyEvent::ArrowUp);
        seen.push(ed.text());
    }
    assert_eq!(seen, vec!["three", "two", "one"]);
    ed.handle_key(&h, KeyEvent::ArrowUp);
    assert_eq!(ed.text(), "one");
    assert_eq!(ed.history_cursor(), 0);
}

#[test]
fn down_from_oldest_ends_empty() {
    let h = history_of(&["one", "two"]);
    let mut ed = Editor::new(&h);
    ed.handle_key(&h, KeyEvent::ArrowUp);
    ed.handle_key(&h, KeyEvent::ArrowUp);
    assert_eq!(ed.text(), "one");
    ed.handle_key(&h, KeyEvent::ArrowDown);
    assert_eq!(ed.text(), "two");
    for _ in 0..3 {
        ed.handle_key(&h, KeyEvent::ArrowDown);
        assert_eq!(ed.text(), "");
        assert_eq!(ed.history_cursor(), 2);
    }
}

#[test]
fn insert_in_middle_redraws_suffix() {
    let h = HistoryStore::new();
    let mut ed = Editor::new(&h);
    type_text(&mut ed, &h, "hlp");
    ed.handle_key(&h, KeyEvent::ArrowLeft);
    ed.handle_key(&h, KeyEvent::ArrowLeft);
    let r = ed.handle_key(&h, KeyEvent::Char('e'));
    assert_eq!(ed.text(), "help");
    assert_eq!(ed.cursor(), 2);
    assert_eq!(r.ops.len(), 3);
    assert!(matches!(&r.ops[0], TermOp::Print(s) if s == "e"));
    assert!(matches!(&r.ops[1], TermOp::Print(s) if s == "lp"));
    assert!(matches!(r.ops[2], TermOp::Left(2)));
}

#[test]
fn append_at_end_prints_one_char() {
    let h = HistoryStore::new();
    let mut ed = Editor::new(&h);
    let r = ed.handle_key(&h, KeyEvent::Char('x'));
    assert_eq!(r.ops.len(), 1);
    assert!(matches!(&r.ops[0], TermOp::Print(s) if s == "x"));
}

#[test]
fn enter_hands_back_line_and_ends_row() {
    let h = HistoryStore::new();
    let mut ed = Editor::new(&h);
    type_text(&mut ed, &h, " list ");
    let r = ed.handle_key(&h, KeyEvent::Enter);
    assert_eq!(r.line, Some("list".to_string()));
    assert_eq!(r.ops.len(), 1);
    assert!(matches!(r.ops[0], TermOp::NewLine));
}

#[test]
fn recall_discards_custom_text() {
    let h = history_of(&["help"]);
    let mut ed = Editor::new(&h);
    type_text(&mut ed, &h, "draft");
    ed.handle_key(&h, KeyEvent::ArrowUp);
    assert_eq!(ed.text(), "help");
    assert_eq!(ed.cursor(), 4);
}

#[test]
fn other_keys_are_ignored() {
    let h = HistoryStore::new();
    let mut ed = Editor::new(&h);
    type_text(&mut ed, &h, "ab");
    let r = ed.handle_key(&h, KeyEvent::Other);
    assert!(r.ops.is_empty());
    assert_eq!(ed.text(), "ab");
    assert_eq!(ed.cursor(), 2);
}
