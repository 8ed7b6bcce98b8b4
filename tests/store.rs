use virt_manager::history::HistoryStore;
use virt_manager::shell::{init_program_directory, start_interactive_mode};
use virt_manager::command::Dispatch;

fn entries(h: &HistoryStore) -> Vec<String> {
    (0..h.len()).map(|i| h.entry(i)).collect()
}

#[test]
fn load_splits_and_trims_lines() {
    let h = HistoryStore::load("help\n  list \nstart vm1\n");
    assert_eq!(entries(&h), vec!["help", "list", "start vm1"]);
}

#[test]
fn load_of_empty_text_is_empty() {
    assert_eq!(HistoryStore::load("").len(), 0);
    assert_eq!(HistoryStore::load(" \n \n").len(), 0);
}

#[test]
fn load_keeps_inner_empty_lines() {
    let h = HistoryStore::load("a\n\nb");
    assert_eq!(entries(&h), vec!["a", "", "b"]);
}

#[test]
fn record_ends_with_line_feed() {
    assert_eq!(HistoryStore::record("list"), "list\n");
}

#[test]
fn records_load_back() {
    let mut text = String::new();
    for l in ["help", "list", "version"] {
        text.push_str(&HistoryStore::record(l));
    }
    let h = HistoryStore::load(&text);
    assert_eq!(entries(&h), vec!["help", "list", "version"]);
}

#[test]
fn append_adds_newest_last() {
    let mut h = HistoryStore::new();
    h.append("a");
    h.append("b");
    assert_eq!(entries(&h), vec!["a", "b"]);
}

#[test]
fn program_paths_under_home() {
    let p = init_program_directory("/home/user");
    assert_eq!(p.directory, "/home/user/.virt-manager");
    assert_eq!(p.history, "/home/user/.virt-manager/.history");
    let p = init_program_directory("/home/user/");
    assert_eq!(p.directory, "/home/user/.virt-manager");
    let p = init_program_directory("");
    assert_eq!(p.directory, ".virt-manager");
}

#[test]
fn shell_keeps_accepted_lines_only() {
    let mut shell = start_interactive_mode("help\n");
    assert!(matches!(shell.submit("list"), Dispatch::Accepted(_)));
    assert!(matches!(shell.submit("frobnicate"), Dispatch::Unsupported));
    assert!(matches!(shell.submit("   "), Dispatch::Blank));
    assert_eq!(entries(shell.history()), vec!["help", "list"]);
}
