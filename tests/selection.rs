use launcher::{
    cursor_left, first_or_query, rank_by_length, row_capacity, Arguments, Color, Config, Event,
    Key, Matcher, Outcome, QueryBuffer, Session,
};

fn strings(v: &[&str]) -> Vec<String> {
    v.iter().map(|s| s.to_string()).collect()
}

fn session_with(candidates: &[&str], query: &str) -> Session {
    let mut s = Session::new(strings(candidates));
    assert!(s.process_batch(&vec![Event::TextInput(query.to_string())]).is_none());
    s
}

fn confirmed(o: Option<Outcome>) -> String {
    match o {
        Some(Outcome::Confirmed(s)) => s,
        other => panic!("expected a confirmation, got {:?}", other),
    }
}

#[test]
fn scenario_empty_query_sorted_by_length() {
    let s = session_with(&["ls", "cat", "cargo"], "");
    assert_eq!(s.filtered_view(), strings(&["ls", "cat", "cargo"]));
}

#[test]
fn empty_query_sorts_whole_store() {
    let s = session_with(&["cargo", "ls", "vim", "cat", "a"], "");
    assert_eq!(s.filtered_view(), strings(&["a", "ls", "vim", "cat", "cargo"]));
}

#[test]
fn scenario_fuzzy_query_ca() {
    let s = session_with(&["ls", "cat", "cargo"], "ca");
    assert_eq!(s.filtered_view(), strings(&["cat", "cargo"]));
}

#[test]
fn scenario_confirm_on_empty_store_returns_query() {
    let mut s = Session::new(Vec::new());
    let out = s.process_batch(&vec![
        Event::TextInput("firefox".to_string()),
        Event::KeyDown(Key::Return),
    ]);
    assert_eq!(confirmed(out), "firefox");
}

#[test]
fn scenario_backspace() {
    let mut s = session_with(&[], "abc");
    assert!(s.handle_event(&Event::KeyDown(Key::Backspace)).is_none());
    assert_eq!(s.query(), "ab");
    let mut e = Session::new(Vec::new());
    assert!(e.handle_event(&Event::KeyDown(Key::Backspace)).is_none());
    assert_eq!(e.query(), "");
}

#[test]
fn scenario_escape_cancels() {
    let mut a = session_with(&["ls"], "");
    assert!(matches!(a.handle_event(&Event::KeyDown(Key::Escape)), Some(Outcome::Cancelled)));
    let mut b = session_with(&["ls"], "l");
    assert!(matches!(b.handle_event(&Event::KeyDown(Key::Escape)), Some(Outcome::Cancelled)));
    assert_eq!(b.query(), "l");
}

#[test]
fn quit_cancels() {
    let mut s = session_with(&["ls"], "xyz");
    assert!(matches!(s.handle_event(&Event::Quit), Some(Outcome::Cancelled)));
}

#[test]
fn cancel_stops_batch() {
    let mut s = Session::new(strings(&["ls"]));
    let out = s.process_batch(&vec![
        Event::TextInput("l".to_string()),
        Event::Quit,
        Event::TextInput("s".to_string()),
        Event::KeyDown(Key::Return),
    ]);
    assert!(matches!(out, Some(Outcome::Cancelled)));
    assert_eq!(s.query(), "l");
}

#[test]
fn confirm_picks_first_of_view() {
    let mut s = Session::new(strings(&["cargo", "cat", "ls"]));
    let out = s.process_batch(&vec![
        Event::TextInput("c".to_string()),
        Event::TextInput("a".to_string()),
        Event::KeyDown(Key::Return),
        Event::KeyDown(Key::Escape),
    ]);
    assert_eq!(confirmed(out), "cat");
}

#[test]
fn confirm_with_no_match_returns_query() {
    let mut s = Session::new(strings(&["ls", "cat"]));
    let out = s.process_batch(&vec![Event::TextInput("zz".to_string()), Event::KeyDown(Key::Return)]);
    assert_eq!(confirmed(out), "zz");
}

#[test]
fn confirm_empty_everything_gives_empty() {
    let mut s = Session::new(Vec::new());
    assert_eq!(confirmed(s.handle_event(&Event::KeyDown(Key::Return))), "");
}

#[test]
fn other_events_ignored() {
    let mut s = session_with(&["ls"], "l");
    assert!(s.handle_event(&Event::Other).is_none());
    assert!(s.handle_event(&Event::KeyDown(Key::Other)).is_none());
    assert_eq!(s.query(), "l");
}

#[test]
fn batch_without_terminal_event_continues() {
    let mut s = Session::new(strings(&["ls"]));
    let out = s.process_batch(&vec![
        Event::TextInput("ab".to_string()),
        Event::KeyDown(Key::Backspace),
        Event::TextInput("cd".to_string()),
    ]);
    assert!(out.is_none());
    assert_eq!(s.query(), "acd");
}

#[test]
fn stable_order_for_equal_lengths() {
    let v = strings(&["bb", "a", "aa", "c", "bb", "ab"]);
    assert_eq!(rank_by_length(&v), strings(&["a", "c", "bb", "aa", "bb", "ab"]));
}

#[test]
fn rank_uses_byte_length() {
    let v = strings(&["éé", "abc"]);
    assert_eq!(rank_by_length(&v), strings(&["abc", "éé"]));
}

#[test]
fn filtered_view_keeps_duplicates() {
    let s = session_with(&["vim", "ls", "vim"], "v");
    assert_eq!(s.filtered_view(), strings(&["vim", "vim"]));
}

#[test]
fn matcher_subsequence() {
    let m = Matcher::new();
    assert!(m.matches("cargo", "cgo"));
    assert!(m.matches("anything", ""));
    assert!(!m.matches("cat", "tac"));
    assert!(!m.matches("", "a"));
}

#[test]
fn matcher_smart_case() {
    let m = Matcher::new();
    assert!(m.matches("Cargo", "ca"));
    assert!(m.matches("Cargo", "Ca"));
    assert!(!m.matches("cargo", "Ca"));
}

#[test]
fn query_buffer_edits() {
    let mut q = QueryBuffer::new();
    assert!(q.is_empty());
    q.append("");
    assert_eq!(q.text(), "");
    q.delete_last();
    assert_eq!(q.text(), "");
    q.append("héllo");
    q.append("");
    assert_eq!(q.text(), "héllo");
    q.delete_last();
    q.delete_last();
    q.delete_last();
    q.delete_last();
    assert_eq!(q.text(), "h");
    assert!(!q.is_empty());
}

#[test]
fn first_or_query_both_ways() {
    assert_eq!(first_or_query(&strings(&["a", "b"]), &"q".to_string()), "a");
    assert_eq!(first_or_query(&Vec::new(), &"q".to_string()), "q");
}

#[test]
fn row_capacity_values() {
    assert_eq!(row_capacity(700, 12, 16, 6), 29);
    assert_eq!(row_capacity(44, 0, 16, 6), 1);
    assert_eq!(row_capacity(43, 0, 16, 6), 0);
    assert_eq!(row_capacity(10, 12, 16, 6), 0);
    assert_eq!(row_capacity(-100, 0, 1, 1), 0);
}

#[test]
fn snapshot_truncates_view() {
    let s = session_with(&["cargo", "ls", "cat", "vim"], "");
    let snap = s.snapshot(2);
    assert_eq!(snap.query, "");
    assert_eq!(snap.rows, strings(&["ls", "cat"]));
    let all = s.snapshot(10);
    assert_eq!(all.rows, strings(&["ls", "cat", "vim", "cargo"]));
    assert!(s.snapshot(0).rows.is_empty());
}

#[test]
fn cursor_left_values() {
    assert_eq!(cursor_left(12, 40, true), 12);
    assert_eq!(cursor_left(12, 40, false), 52);
}

#[test]
fn config_defaults() {
    let c = Config::default();
    assert_eq!(c.background, Color::RGB(0, 0, 0));
    assert_eq!(c.input, Color::RGB(0, 255, 255));
    assert_eq!(c.cursor, Color::RGB(255, 255, 255));
    assert_eq!(c.suggestion, Color::RGB(128, 128, 128));
    assert!(c.font.is_none());
    assert_eq!(c.font_size, 16);
    assert_eq!(c.line_spacing, 6);
    assert_eq!(c.padding, 12);
    assert_eq!(c.width, 1000);
    assert_eq!(c.height, 700);
}

#[test]
fn arguments_hold_path() {
    let a = Arguments { config: Some("launcher.ron".to_string()) };
    assert_eq!(a.config.as_deref(), Some("launcher.ron"));
}
