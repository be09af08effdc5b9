use snowfall::console::{ConsoleKeys, ConsoleState, MAX_HISTORY_LINES};
use snowfall::cvars::{CVarRegistry, CVarValue};

fn no_keys() -> ConsoleKeys {
    ConsoleKeys {
        up: false,
        down: false,
        left: false,
        right: false,
        home: false,
        end: false,
        tab: false,
        enter: false,
        backspace: false,
        delete: false,
        space: false,
    }
}

fn typed(state: &mut ConsoleState, texts: &[&str]) {
    let v: Vec<String> = texts.iter().map(|s| s.to_string()).collect();
    state.handle_edit_keys(&no_keys(), &v);
}

#[test]
fn typing_inserts_at_cursor() {
    let mut s = ConsoleState::default();
    typed(&mut s, &["a", "c"]);
    assert_eq!(s.input_text, "ac");
    assert_eq!(s.cursor_position, 2);
    let mut k = no_keys();
    k.left = true;
    s.handle_navigation_keys(&k, &CVarRegistry::new());
    assert_eq!(s.cursor_position, 1);
    typed(&mut s, &["b"]);
    assert_eq!(s.input_text, "abc");
    assert_eq!(s.cursor_position, 2);
}

#[test]
fn typing_ignores_console_key_and_space_text() {
    let mut s = ConsoleState::default();
    typed(&mut s, &["`", "x", "~", " ", "y"]);
    assert_eq!(s.input_text, "xy");
}

#[test]
fn space_key_inserts_space() {
    let mut s = ConsoleState::default();
    typed(&mut s, &["ab"]);
    let mut k = no_keys();
    k.home = true;
    s.handle_navigation_keys(&k, &CVarRegistry::new());
    let mut e = no_keys();
    e.space = true;
    s.handle_edit_keys(&e, &Vec::new());
    assert_eq!(s.input_text, " ab");
    assert_eq!(s.cursor_position, 1);
}

#[test]
fn backspace_and_delete() {
    let mut s = ConsoleState::default();
    typed(&mut s, &["héllo"]);
    assert_eq!(s.cursor_position, 5);
    let mut k = no_keys();
    k.backspace = true;
    s.handle_edit_keys(&k, &Vec::new());
    assert_eq!(s.input_text, "héll");
    let mut home = no_keys();
    home.home = true;
    s.handle_navigation_keys(&home, &CVarRegistry::new());
    let mut d = no_keys();
    d.delete = true;
    s.handle_edit_keys(&d, &Vec::new());
    assert_eq!(s.input_text, "éll");
    assert_eq!(s.cursor_position, 0);
    s.handle_edit_keys(&k, &Vec::new());
    assert_eq!(s.input_text, "éll");
}

#[test]
fn backspace_undoes_typing() {
    let mut s = ConsoleState::default();
    typed(&mut s, &["abc"]);
    let mut k = no_keys();
    k.left = true;
    s.handle_navigation_keys(&k, &CVarRegistry::new());
    typed(&mut s, &["x"]);
    assert_eq!(s.input_text, "abxc");
    let mut b = no_keys();
    b.backspace = true;
    s.handle_edit_keys(&b, &Vec::new());
    assert_eq!(s.input_text, "abc");
    assert_eq!(s.cursor_position, 2);
}

#[test]
fn cursor_stays_inside_line() {
    let mut s = ConsoleState::default();
    typed(&mut s, &["ab"]);
    let mut r = no_keys();
    r.right = true;
    s.handle_navigation_keys(&r, &CVarRegistry::new());
    assert_eq!(s.cursor_position, 2);
    let mut l = no_keys();
    l.left = true;
    for _ in 0..5 {
        s.handle_navigation_keys(&l, &CVarRegistry::new());
    }
    assert_eq!(s.cursor_position, 0);
    let mut e = no_keys();
    e.end = true;
    s.handle_navigation_keys(&e, &CVarRegistry::new());
    assert_eq!(s.cursor_position, 2);
}

#[test]
fn submit_records_command_and_history() {
    let mut s = ConsoleState::default();
    assert_eq!(s.submit(true), None);
    typed(&mut s, &["help"]);
    assert_eq!(s.submit(false), None);
    assert_eq!(s.submit(true), Some("help".to_string()));
    assert_eq!(s.log, vec![": help".to_string()]);
    assert_eq!(s.command_history, vec!["help".to_string()]);
    s.record_output(&vec!["line one".to_string(), "line two".to_string()]);
    assert_eq!(s.log, vec![": help", "  line one", "  line two"]);
    assert_eq!(s.input_text, "");
    assert_eq!(s.cursor_position, 0);
    assert_eq!(s.log_text(), ": help\n  line one\n  line two");
}

#[test]
fn log_keeps_last_lines() {
    let mut s = ConsoleState::default();
    let out: Vec<String> = (0..250).map(|i| format!("{}", i)).collect();
    typed(&mut s, &["run"]);
    s.submit(true);
    s.record_output(&out);
    assert_eq!(s.log.len(), MAX_HISTORY_LINES);
    assert_eq!(s.log[0], "  50");
    assert_eq!(s.log[199], "  249");
}

#[test]
fn history_browsing() {
    let mut s = ConsoleState::default();
    for cmd in ["first", "second"] {
        typed(&mut s, &[cmd]);
        s.submit(true);
        s.record_output(&Vec::new());
    }
    let cv = CVarRegistry::new();
    let mut up = no_keys();
    up.up = true;
    let mut down = no_keys();
    down.down = true;
    s.handle_navigation_keys(&up, &cv);
    assert_eq!(s.input_text, "second");
    assert_eq!(s.cursor_position, 6);
    s.handle_navigation_keys(&up, &cv);
    assert_eq!(s.input_text, "first");
    s.handle_navigation_keys(&up, &cv);
    assert_eq!(s.input_text, "first");
    assert_eq!(s.history_index, Some(0));
    s.handle_navigation_keys(&down, &cv);
    assert_eq!(s.input_text, "second");
    s.handle_navigation_keys(&down, &cv);
    assert_eq!(s.input_text, "");
    assert_eq!(s.history_index, None);
    s.handle_navigation_keys(&down, &cv);
    assert_eq!(s.input_text, "");
}

#[test]
fn tab_key_completes() {
    let mut cv = CVarRegistry::new();
    cv.init("volume", CVarValue::Int32(3)).unwrap();
    let mut s = ConsoleState::default();
    typed(&mut s, &["getvar vol"]);
    let mut t = no_keys();
    t.tab = true;
    s.handle_navigation_keys(&t, &cv);
    assert_eq!(s.input_text, "getvar volume");
}

#[test]
fn display_text_shows_cursor() {
    let mut s = ConsoleState::default();
    assert_eq!(s.display_text(), "|");
    typed(&mut s, &["abc"]);
    assert_eq!(s.display_text(), "abc|");
    let mut l = no_keys();
    l.left = true;
    s.handle_navigation_keys(&l, &CVarRegistry::new());
    assert_eq!(s.display_text(), "ab|c");
}

#[test]
fn toggle_flips_visibility() {
    let mut s = ConsoleState::default();
    assert!(!s.visible);
    s.toggle();
    assert!(s.visible);
    s.toggle();
    assert!(!s.visible);
}

#[test]
fn hidden_console_ignores_frames() {
    let cv = CVarRegistry::new();
    let mut s = ConsoleState::default();
    let mut k = no_keys();
    k.enter = true;
    k.backspace = true;
    assert_eq!(s.frame_before_submit(&k, &cv), None);
    s.frame_after_output(None, &k, &vec!["abc".to_string()]);
    assert_eq!(s.input_text, "");
    assert!(s.log.is_empty());
}

#[test]
fn visible_console_runs_a_frame() {
    let cv = CVarRegistry::new();
    let mut s = ConsoleState::default();
    s.toggle();
    s.frame_after_output(None, &no_keys(), &vec!["hi".to_string()]);
    assert_eq!(s.input_text, "hi");
    let mut k = no_keys();
    k.enter = true;
    let cmd = s.frame_before_submit(&k, &cv);
    assert_eq!(cmd, Some("hi".to_string()));
    let out = vec!["done".to_string()];
    s.frame_after_output(Some(&out), &no_keys(), &vec!["x".to_string()]);
    assert_eq!(s.log, vec![": hi", "  done"]);
    assert_eq!(s.command_history, vec!["hi"]);
    assert_eq!(s.input_text, "x");
}
