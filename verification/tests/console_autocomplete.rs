use snowfall::console::{handle_autocomplete, ConsoleState};
use snowfall::cvars::{CVarRegistry, CVarValue};

fn f32_value(v: f32) -> CVarValue {
    CVarValue::F32(v.to_bits())
}

#[test]
fn test_autocomplete_partial_match() {
    let mut console_state = ConsoleState::default();
    let mut cvars = CVarRegistry::default();

    cvars.init("player_speed", f32_value(1.0)).unwrap();
    cvars.init("player_health", CVarValue::Int32(100)).unwrap();
    cvars.init("enemy_speed", f32_value(0.5)).unwrap();

    console_state.input_text = "setvar player".to_string();
    console_state.cursor_position = console_state.input_text.len();

    handle_autocomplete(&mut console_state, &cvars);

    assert_eq!(console_state.input_text, "setvar player_health");
    assert_eq!(console_state.cursor_position, console_state.input_text.len());
}

#[test]
fn test_autocomplete_exact_match_cycles() {
    let mut console_state = ConsoleState::default();
    let mut cvars = CVarRegistry::default();

    cvars.init("player_speed", f32_value(1.0)).unwrap();
    cvars.init("player_health", CVarValue::Int32(100)).unwrap();
    cvars.init("enemy_speed", f32_value(0.5)).unwrap();

    console_state.input_text = "getvar player_health".to_string();
    console_state.cursor_position = console_state.input_text.len();

    handle_autocomplete(&mut console_state, &cvars);

    assert_eq!(console_state.input_text, "getvar player_speed");
}

#[test]
fn test_autocomplete_wraps_to_first() {
    let mut console_state = ConsoleState::default();
    let mut cvars = CVarRegistry::default();

    cvars.init("aaa", CVarValue::Int32(1)).unwrap();
    cvars.init("bbb", CVarValue::Int32(2)).unwrap();
    cvars.init("ccc", CVarValue::Int32(3)).unwrap();

    console_state.input_text = "setvar ccc".to_string();
    console_state.cursor_position = console_state.input_text.len();

    handle_autocomplete(&mut console_state, &cvars);

    assert_eq!(console_state.input_text, "setvar aaa");
}

#[test]
fn test_autocomplete_preserves_value() {
    let mut console_state = ConsoleState::default();
    let mut cvars = CVarRegistry::default();

    cvars.init("player_speed", f32_value(1.0)).unwrap();
    cvars.init("player_health", CVarValue::Int32(100)).unwrap();

    console_state.input_text = "setvar player 5.0".to_string();
    console_state.cursor_position = console_state.input_text.len();

    handle_autocomplete(&mut console_state, &cvars);

    assert_eq!(console_state.input_text, "setvar player_health 5.0");
}

#[test]
fn test_autocomplete_no_match() {
    let mut console_state = ConsoleState::default();
    let mut cvars = CVarRegistry::default();

    cvars.init("player_speed", f32_value(1.0)).unwrap();

    console_state.input_text = "setvar enemy".to_string();
    let original_text = console_state.input_text.clone();
    console_state.cursor_position = console_state.input_text.len();

    handle_autocomplete(&mut console_state, &cvars);

    assert_eq!(console_state.input_text, original_text);
}

#[test]
fn test_autocomplete_ignores_non_setvar_getvar() {
    let mut console_state = ConsoleState::default();
    let mut cvars = CVarRegistry::default();

    cvars.init("test_var", CVarValue::Int32(1)).unwrap();

    console_state.input_text = "listvars test".to_string();
    let original_text = console_state.input_text.clone();
    console_state.cursor_position = console_state.input_text.len();

    handle_autocomplete(&mut console_state, &cvars);

    assert_eq!(console_state.input_text, original_text);
}

#[test]
fn test_autocomplete_empty_input() {
    let mut console_state = ConsoleState::default();
    let cvars = CVarRegistry::default();

    console_state.input_text = "".to_string();
    console_state.cursor_position = 0;

    handle_autocomplete(&mut console_state, &cvars);

    assert_eq!(console_state.input_text, "");
}

#[test]
fn autocomplete_collapses_extra_spaces_and_stops_browsing() {
    let mut console_state = ConsoleState::default();
    let mut cvars = CVarRegistry::default();
    cvars.init("gravity", CVarValue::Int32(10)).unwrap();
    console_state.input_text = "  getvar   gra  ".to_string();
    console_state.history_index = Some(0);
    console_state.command_history.push("x".to_string());
    handle_autocomplete(&mut console_state, &cvars);
    assert_eq!(console_state.input_text, "getvar gravity");
    assert_eq!(console_state.cursor_position, 14);
    assert_eq!(console_state.history_index, None);
}

#[test]
fn autocomplete_cycles_through_every_variable() {
    let mut cvars = CVarRegistry::default();
    cvars.init("b", CVarValue::Int32(1)).unwrap();
    cvars.init("a", CVarValue::Int32(2)).unwrap();
    cvars.init("c", CVarValue::Int32(3)).unwrap();
    let mut console_state = ConsoleState::default();
    console_state.input_text = "setvar a".to_string();
    let mut seen = Vec::new();
    for _ in 0..4 {
        handle_autocomplete(&mut console_state, &cvars);
        seen.push(console_state.input_text.clone());
    }
    assert_eq!(seen, vec!["setvar b", "setvar c", "setvar a", "setvar b"]);
}

#[test]
fn autocomplete_needs_a_partial_name() {
    let mut console_state = ConsoleState::default();
    let mut cvars = CVarRegistry::default();
    cvars.init("speed", CVarValue::Int32(1)).unwrap();
    console_state.input_text = "setvar".to_string();
    handle_autocomplete(&mut console_state, &cvars);
    assert_eq!(console_state.input_text, "setvar");
}
