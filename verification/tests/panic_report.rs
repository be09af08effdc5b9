use snowfall::panic_report::{backtrace_frames, frame_name_of};

#[test]
fn frames_after_panic_machinery() {
    let display = "Backtrace [{ fn: \"std::backtrace::Backtrace::create\" }, { fn: \"core::panicking::panic_fmt\", file: \"x.rs\", line: 1 }, { fn: \"game::update\", file: \"src/game.rs\", line: 10 }, { fn: \"main\" }]";
    assert_eq!(backtrace_frames(display), vec!["game::update", "main"]);
}

#[test]
fn frames_without_panic_machinery_are_all_kept() {
    let display = "Backtrace [{ fn: \"a\" }, { fn: \"b\" }]";
    assert_eq!(backtrace_frames(display), vec!["a", "b"]);
}

#[test]
fn frames_skip_pieces_without_names() {
    let display = "[{ fn: \"a\", file: \"f.rs\" }, file: \"g.rs\", { fn: \"unterminated }]";
    assert_eq!(backtrace_frames(display), vec!["a"]);
    assert!(backtrace_frames("no frames here").is_empty());
}

#[test]
fn frame_name_of_piece() {
    let piece: Vec<char> = "{ fn: \"x::y\", line: 3".chars().collect();
    let name = frame_name_of(&piece).unwrap();
    assert_eq!(name.iter().collect::<String>(), "x::y");
    let bad: Vec<char> = "fn: \"x\"".chars().collect();
    assert!(frame_name_of(&bad).is_none());
}
