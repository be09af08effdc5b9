use snowfall::engine::{next_tasks, EngineError, EngineInternalState};
use snowfall::game::{behavior_kind, editor_item_for_click, editor_spawn, toolbar_slot_label, ActorBehaviorKind, menu_action, DamageResult, DamageType, GameState, MenuAction, Toolbar};
use snowfall::window_state::WindowState;
use snowfall::world_map::WorldMap;

#[test]
fn frames_count_up() {
    let mut s = EngineInternalState::new();
    assert_eq!(s.next_frame(), 1);
    assert_eq!(s.next_frame(), 2);
}

#[test]
fn next_tasks_keeps_repeating_then_queued() {
    let r = next_tasks(vec!["a", "b", "c"], &vec![true, false, true], vec!["d"]);
    assert_eq!(r, vec!["a", "c", "d"]);
    let none = next_tasks(vec![1, 2], &vec![false, false], vec![]);
    assert!(none.is_empty());
    let all = next_tasks(vec![1, 2], &vec![true, true], vec![3]);
    assert_eq!(all, vec![1, 2, 3]);
}

#[test]
fn engine_error_carries_message() {
    let e = EngineError::Generic("boom".to_string());
    match e {
        EngineError::Generic(m) => assert_eq!(m, "boom"),
    }
}

#[test]
fn menu_transitions() {
    assert_eq!(menu_action(true, false, false, GameState::MainMenu), MenuAction::Enter(GameState::Playing));
    assert_eq!(menu_action(false, true, true, GameState::GameOver), MenuAction::Enter(GameState::Playing));
    assert_eq!(menu_action(false, false, true, GameState::MainMenu), MenuAction::Exit);
    assert_eq!(menu_action(false, false, true, GameState::GameOver), MenuAction::Enter(GameState::MainMenu));
    assert_eq!(menu_action(false, false, false, GameState::Playing), MenuAction::Stay);
}

#[test]
fn toolbar_digit_keys() {
    let mut t = Toolbar::default();
    assert_eq!(t.active_slot, 0);
    let mut d = [false; 10];
    d[3] = true;
    t.select_by_digits(&d);
    assert_eq!(t.active_slot, 2);
    d[5] = true;
    t.select_by_digits(&d);
    assert_eq!(t.active_slot, 4);
    d[0] = true;
    t.select_by_digits(&d);
    assert_eq!(t.active_slot, 9);
    t.select_by_digits(&[false; 10]);
    assert_eq!(t.active_slot, 9);
}

#[test]
fn toolbar_click_selects_last_pressed_slot() {
    let mut t = Toolbar::default();
    t.select_by_click(true, &vec![4, 6]);
    assert_eq!(t.active_slot, 6);
    t.select_by_click(false, &vec![1]);
    assert_eq!(t.active_slot, 6);
    t.select_by_click(true, &vec![]);
    assert_eq!(t.active_slot, 6);
}

#[test]
fn editor_items_by_slot() {
    assert_eq!(editor_item_for_click(false, true, 2), Some("apple"));
    assert_eq!(editor_item_for_click(false, true, 3), Some("coin-gold"));
    assert_eq!(editor_item_for_click(false, true, 1), None);
    assert_eq!(editor_item_for_click(true, true, 2), None);
    assert_eq!(editor_item_for_click(false, false, 3), None);
}

#[test]
fn damage_result_fields() {
    let r = DamageResult { amount: 12, critical: true, damage_type: DamageType::Physical };
    assert_eq!(r.amount, 12);
    assert!(r.critical);
    assert_eq!(r.damage_type, DamageType::Physical);
}

#[test]
fn window_state_restore_and_move() {
    let w = WindowState::restore(None);
    assert_eq!((w.position, w.size), ((0, 0), (800, 600)));
    let stored = WindowState { position: (10, -4), size: (1024, 768) };
    let w = WindowState::restore(Some(stored));
    assert_eq!((w.position, w.size), ((10, -4), (1024, 768)));
    let m = WindowState::moved_to(5, 6);
    assert_eq!((m.position, m.size), ((5, 6), (800, 600)));
}

#[test]
fn editor_spawn_refuses_occupied_cells_and_busy_ui() {
    let mut map = WorldMap::new(8, 8);
    assert_eq!(editor_spawn(false, true, 2, false, &map, 3, -2), Some((7, -3, "apple")));
    assert_eq!(editor_spawn(false, true, 3, false, &map, 0, 0), Some((1, 1, "coin-gold")));
    assert_eq!(editor_spawn(false, true, 3, true, &map, 0, 0), None);
    assert_eq!(editor_spawn(true, true, 3, false, &map, 0, 0), None);
    assert_eq!(editor_spawn(false, true, 4, false, &map, 0, 0), None);
    map.register_item(0, 0, 5);
    assert_eq!(editor_spawn(false, true, 3, false, &map, 0, 0), None);
    assert_eq!(editor_spawn(false, true, 3, false, &map, 1, 0), Some((3, 1, "coin-gold")));
}

#[test]
fn toolbar_labels_and_highlight() {
    let labels: Vec<&str> = (0..10).map(toolbar_slot_label).collect();
    assert_eq!(labels, vec!["1", "2", "3", "4", "5", "6", "7", "8", "9", "0"]);
    let mut t = Toolbar::default();
    assert!(t.is_highlighted(0));
    assert!(!t.is_highlighted(1));
    t.select_by_click(true, &vec![7]);
    assert!(t.is_highlighted(7));
    assert!(!t.is_highlighted(0));
}

#[test]
fn actor_behaviors_by_name() {
    assert_eq!(behavior_kind("wander"), (ActorBehaviorKind::Wander, true));
    assert_eq!(behavior_kind("stand"), (ActorBehaviorKind::Stand, true));
    assert_eq!(behavior_kind("aggressive"), (ActorBehaviorKind::Aggressive, true));
    assert_eq!(behavior_kind("fly"), (ActorBehaviorKind::Wander, false));
    assert_eq!(behavior_kind(""), (ActorBehaviorKind::Wander, false));
}

#[test]
fn current_frame_counts() {
    let mut s = EngineInternalState::new();
    assert_eq!(s.current_frame(), 0);
    s.next_frame();
    assert_eq!(s.current_frame(), 1);
}
