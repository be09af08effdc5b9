//! Game-level rules: menu transitions, toolbar slot selection, and the
//! types that describe damage.
use vstd::prelude::*;
use crate::world_map::WorldMap;
use crate::text::{chars_eq, chars_of};

verus! {

/// The screens of the game.
#[derive(Debug, Clone, Copy, PartialEq, Eq, Structural)]
pub enum GameState {
    MainMenu,
    Playing,
    GameOver,
}

/// What the menu buttons ask for in a frame.
#[derive(Debug, Clone, Copy, PartialEq, Eq, Structural)]
pub enum MenuAction {
    /// Nothing was pressed.
    Stay,
    /// Go to another screen.
    Enter(GameState),
    /// Quit the game.
    Exit,
}

/// The menu's decision.  New Game and Restart start play; Quit exits from
/// the main menu and returns to the main menu from anywhere else.  The
/// buttons are looked at in that order and the first pressed one wins.
pub fn menu_action(new_game_pressed: bool, restart_pressed: bool, quit_pressed: bool, current: GameState) -> (a: MenuAction)
    ensures
        a == if new_game_pressed || restart_pressed {
            MenuAction::Enter(GameState::Playing)
        } else if quit_pressed {
            if current == GameState::MainMenu { MenuAction::Exit } else { MenuAction::Enter(GameState::MainMenu) }
        } else {
            MenuAction::Stay
        },
{
    if new_game_pressed {
        return MenuAction::Enter(GameState::Playing);
    }
    if restart_pressed {
        return MenuAction::Enter(GameState::Playing);
    }
    if quit_pressed {
        if current == GameState::MainMenu {
            return MenuAction::Exit;
        } else {
            return MenuAction::Enter(GameState::MainMenu);
        }
    }
    MenuAction::Stay
}

/// The toolbar: which of its ten slots is active.
pub struct Toolbar {
    pub active_slot: usize,
}

impl Default for Toolbar {
    fn default() -> (t: Self)
        ensures
            t.active_slot == 0,
    {
        Toolbar { active_slot: 0 }
    }
}

/// The active slot after the digit keys of a frame; `digits[d]` tells
/// whether key `d` was pressed.  Keys are looked at in the order 1 to 9,
/// then 0, and the last pressed one wins.
pub open spec fn slot_after_digits(current: usize, digits: Seq<bool>) -> usize {
    if digits[0] {
        9
    } else if exists|d: int| 1 <= d <= 9 && digits[d] {
        let d = choose|d: int| 1 <= d <= 9 && digits[d] && forall|e: int| d < e <= 9 ==> !digits[e];
        (d - 1) as usize
    } else {
        current
    }
}

impl Toolbar {
    /// Applies the digit keys of a frame (see [`slot_after_digits`]).
    pub fn select_by_digits(&mut self, digits: &[bool; 10])
        ensures
            final(self).active_slot == slot_after_digits(old(self).active_slot, digits@),
    {
        let ghost cur = self.active_slot;
        let mut d: usize = 1;
        while d <= 9
            invariant
                1 <= d <= 10,
                digits@.len() == 10,
                (exists|e: int| 1 <= e < d && digits@[e]) ==> {
                    &&& digits@[self.active_slot + 1]
                    &&& 1 <= self.active_slot + 1 < d
                    &&& forall|e: int| self.active_slot + 1 < e < d ==> !digits@[e]
                },
                !(exists|e: int| 1 <= e < d && digits@[e]) ==> self.active_slot == cur,
            decreases 10 - d,
        {
            if digits[d] {
                self.active_slot = d - 1;
            }
            d += 1;
        }
        if digits[0] {
            self.active_slot = 9;
        }
        proof {
            if !digits@[0] && exists|e: int| 1 <= e <= 9 && digits@[e] {
                let c = choose|c: int| 1 <= c <= 9 && digits@[c] && forall|e: int| c < e <= 9 ==> !digits@[e];
                let a = self.active_slot + 1;
                assert(1 <= a <= 9 && digits@[a] && forall|e: int| a < e <= 9 ==> !digits@[e]);
                if c < a {
                    assert(!digits@[a]);
                } else if c > a {
                    assert(!digits@[c]);
                }
            }
        }
    }
}

/// The item that the map editor places for a click (or Space): an apple
/// from toolbar slot 2, a gold coin from slot 3, and nothing while the
/// console is open, without a click, or from any other slot.
pub fn editor_item_for_click(console_visible: bool, clicked: bool, active_slot: usize) -> (key: Option<&'static str>)
    ensures
        key is Some <==> !console_visible && clicked && (active_slot == 2 || active_slot == 3),
        key matches Some(k) ==> k@ == if active_slot == 2 { "apple"@ } else { "coin-gold"@ },
{
    if console_visible || !clicked {
        return None;
    }
    if active_slot == 2 {
        Some("apple")
    } else if active_slot == 3 {
        Some("coin-gold")
    } else {
        None
    }
}

/// The map editor's decision for a click (or Space) that hit the ground in
/// item cell `(gx, gy)` (cells are 2 by 2 world units): an item is placed
/// only when `editor_item_for_click` chooses one, no UI element is in use,
/// and the cell holds no item yet.  The result is the world position of the
/// cell's centre and the item to place there.
pub fn editor_spawn(
    console_visible: bool,
    clicked: bool,
    active_slot: usize,
    ui_busy: bool,
    map: &WorldMap,
    gx: i32,
    gy: i32,
) -> (r: Option<(i64, i64, &'static str)>)
    ensures
        r is Some <==> !console_visible && clicked && (active_slot == 2 || active_slot == 3) && !ui_busy
            && !map.item_entities().contains_key((gx, gy)),
        r matches Some(t) ==> t.0 == 2 * gx + 1 && t.1 == 2 * gy + 1
            && t.2@ == if active_slot == 2 { "apple"@ } else { "coin-gold"@ },
{
    let key = match editor_item_for_click(console_visible, clicked, active_slot) {
        Some(k) => k,
        None => return None,
    };
    if ui_busy {
        return None;
    }
    if map.get_item_at(gx, gy).is_some() {
        return None;
    }
    let wx: i64 = 2 * (gx as i64) + 1;
    let wy: i64 = 2 * (gy as i64) + 1;
    Some((wx, wy, key))
}

/// The active toolbar slot stays one of the ten slots whatever digit keys
/// are pressed.
pub proof fn law_toolbar_slot_in_range(current: usize, digits: Seq<bool>)
    requires
        current < 10,
        digits.len() == 10,
    ensures
        slot_after_digits(current, digits) < 10,
{
}

impl Toolbar {
    /// A left click selects the slot whose button reports being pressed;
    /// when several do, the last of them wins.  Without a click, or with no
    /// pressed button, the active slot stays.
    pub fn select_by_click(&mut self, clicked: bool, pressed_slots: &Vec<usize>)
        ensures
            final(self).active_slot == if clicked && pressed_slots@.len() > 0 {
                pressed_slots@.last()
            } else {
                old(self).active_slot
            },
    {
        if !clicked {
            return;
        }
        let mut i: usize = 0;
        while i < pressed_slots.len()
            invariant
                i <= pressed_slots@.len(),
                i > 0 ==> self.active_slot == pressed_slots@[i - 1],
                i == 0 ==> self.active_slot == old(self).active_slot,
            decreases pressed_slots.len() - i,
        {
            self.active_slot = pressed_slots[i];
            i += 1;
        }
    }
}

impl Toolbar {
    /// Whether slot `slot` is drawn highlighted: exactly the active slot is
    /// (slot 0 when the toolbar is new).
    pub fn is_highlighted(&self, slot: usize) -> (b: bool)
        ensures
            b == (slot == self.active_slot),
    {
        slot == self.active_slot
    }
}

/// The key label of toolbar slot `slot`: the digit key that selects it,
/// `1` to `9` for slots 0 to 8 and `0` for slot 9.
pub fn toolbar_slot_label(slot: usize) -> (label: &'static str)
    requires
        slot < 10,
    ensures
        label@.len() == 1,
        label@[0] as int == if slot == 9 { '0' as int } else { '1' as int + slot },
{
    proof {
        reveal_strlit("1");
        reveal_strlit("2");
        reveal_strlit("3");
        reveal_strlit("4");
        reveal_strlit("5");
        reveal_strlit("6");
        reveal_strlit("7");
        reveal_strlit("8");
        reveal_strlit("9");
        reveal_strlit("0");
    }
    if slot == 0 {
        "1"
    } else if slot == 1 {
        "2"
    } else if slot == 2 {
        "3"
    } else if slot == 3 {
        "4"
    } else if slot == 4 {
        "5"
    } else if slot == 5 {
        "6"
    } else if slot == 6 {
        "7"
    } else if slot == 7 {
        "8"
    } else if slot == 8 {
        "9"
    } else {
        "0"
    }
}

/// How an actor moves.
#[derive(Debug, Clone, Copy, PartialEq, Eq, Structural)]
pub enum ActorBehaviorKind {
    Wander,
    Stand,
    Aggressive,
}

/// The behaviour an actor definition names: `wander`, `stand` or
/// `aggressive`.  Any other name means wandering; the second part of the
/// result tells whether the name was known, so that the caller can warn.
pub fn behavior_kind(name: &str) -> (r: (ActorBehaviorKind, bool))
    ensures
        r == if name@ == "wander"@ {
            (ActorBehaviorKind::Wander, true)
        } else if name@ == "stand"@ {
            (ActorBehaviorKind::Stand, true)
        } else if name@ == "aggressive"@ {
            (ActorBehaviorKind::Aggressive, true)
        } else {
            (ActorBehaviorKind::Wander, false)
        },
{
    let cs = chars_of(name);
    if chars_eq(&cs, &chars_of("wander")) {
        (ActorBehaviorKind::Wander, true)
    } else if chars_eq(&cs, &chars_of("stand")) {
        (ActorBehaviorKind::Stand, true)
    } else if chars_eq(&cs, &chars_of("aggressive")) {
        (ActorBehaviorKind::Aggressive, true)
    } else {
        (ActorBehaviorKind::Wander, false)
    }
}

/// Kinds of damage.
#[derive(Debug, Clone, Copy, PartialEq, Eq, Structural, Hash)]
pub enum DamageType {
    Physical,
}

/// The outcome of a damage calculation.
#[derive(Debug, Clone)]
pub struct DamageResult {
    /// Damage to apply.
    pub amount: i32,
    /// Whether the hit was critical.
    pub critical: bool,
    pub damage_type: DamageType,
}

} // verus!
