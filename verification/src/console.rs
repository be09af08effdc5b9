//! The in-game console: its state, the editing of the input line, the
//! command history, and tab completion of console-variable names.
//!
//! Reading the keyboard, drawing the text and running a submitted command
//! happen outside the library; the functions here decide what the console
//! does with a frame's key presses.
use vstd::prelude::*;
use crate::cvars::{CVarRegistry, pair_models};
use crate::text::{
    chars_eq, chars_of, has_prefix, join, join_chars, remove_char, splice_chars, split_whitespace,
    split_ws, starts_with, string_from_chars, string_views, views,
};

verus! {

broadcast use vstd::string::group_string_axioms;

/// Console state kept between frames.
pub struct ConsoleState {
    pub visible: bool,
    /// The line being typed.
    pub input_text: String,
    /// Cursor position in the input line, in characters.
    pub cursor_position: usize,
    /// Lines shown in the console's history area.
    pub log: Vec<String>,
    /// Submitted commands, oldest first.
    pub command_history: Vec<String>,
    /// Position in `command_history` while browsing it with the arrow keys.
    pub history_index: Option<usize>,
}

impl Default for ConsoleState {
    fn default() -> (s: Self)
        ensures
            !s.visible,
            s.input_text@ == Seq::<char>::empty(),
            s.cursor_position == 0,
            s.log@ == Seq::<String>::empty(),
            s.command_history@ == Seq::<String>::empty(),
            s.history_index is None,
    {
        ConsoleState {
            visible: false,
            input_text: String::new(),
            cursor_position: 0,
            log: Vec::new(),
            command_history: Vec::new(),
            history_index: None,
        }
    }
}

//=========================================================================
// Tab completion
//=========================================================================

/// The commands whose argument is a console-variable name.
pub open spec fn is_var_command(w: Seq<char>) -> bool {
    w == "setvar"@ || w == "getvar"@
}

/// `names[i]` is the first occurrence of `w`.
pub open spec fn first_index_of(names: Seq<Seq<char>>, w: Seq<char>, i: int) -> bool {
    0 <= i < names.len() && names[i] == w && forall|k: int| 0 <= k < i ==> names[k] != w
}

/// `names[i]` is the first name that begins with `w`.
pub open spec fn first_prefixed(names: Seq<Seq<char>>, w: Seq<char>, i: int) -> bool {
    0 <= i < names.len() && has_prefix(names[i], w) && forall|k: int|
        0 <= k < i ==> !has_prefix(#[trigger] names[k], w)
}

/// The name that Tab puts in place of the partial name `w`: the name after
/// `w` (cycling to the first) when `w` is a full name, else the first name
/// that begins with `w`.
pub open spec fn completion(names: Seq<Seq<char>>, w: Seq<char>) -> Option<Seq<char>> {
    if exists|i: int| first_index_of(names, w, i) {
        let i = choose|i: int| first_index_of(names, w, i);
        Some(names[(i + 1) % (names.len() as int)])
    } else if exists|i: int| first_prefixed(names, w, i) {
        let i = choose|i: int| first_prefixed(names, w, i);
        Some(names[i])
    } else {
        None
    }
}

/// The line that Tab produces from `text`, or `None` when Tab leaves it alone.
pub open spec fn autocompleted(text: Seq<char>, names: Seq<Seq<char>>) -> Option<Seq<char>> {
    let words = split_ws(text);
    if words.len() < 2 || !is_var_command(words[0]) {
        None
    } else {
        match completion(names, words[1]) {
            Some(full) => Some(join(words.update(1, full), " "@)),
            None => None,
        }
    }
}

/// The names of the registry's variables, in sorted order.
pub open spec fn registry_names(cvars: &CVarRegistry) -> Seq<Seq<char>> {
    cvars.entries().map_values(|e: (Seq<char>, crate::cvars::CVarModel)| e.0)
}

/// The completion of `w` among `names`.
fn complete_name(names: &Vec<Vec<char>>, w: &Vec<char>) -> (r: Option<Vec<char>>)
    ensures
        match completion(views(names@), w@) {
            Some(full) => r matches Some(v) && v@ == full,
            None => r is None,
        },
{
    let ghost ns = views(names@);
    let mut i: usize = 0;
    while i < names.len()
        invariant
            i <= names@.len(),
            ns == views(names@),
            forall|k: int| 0 <= k < i ==> ns[k] != w@,
        decreases names.len() - i,
    {
        if chars_eq(&names[i], w) {
            assert(first_index_of(ns, w@, i as int));
            let ghost c = choose|j: int| first_index_of(ns, w@, j);
            assert(c == i) by {
                if c < i {
                    assert(ns[c] != w@);
                } else if c > i {
                    assert(ns[i as int] != w@);
                }
            }
            let next = if i + 1 < names.len() { i + 1 } else { 0 };
            proof {
                assert(ns.len() == names@.len());
                if i + 1 < names.len() {
                    vstd::arithmetic::div_mod::lemma_small_mod((i + 1) as nat, ns.len());
                } else {
                    vstd::arithmetic::div_mod::lemma_mod_self_0(ns.len() as int);
                }
            }
            assert(next as int == (i + 1) % (ns.len() as int));
            return Some(names[next].clone());
        }
        i += 1;
    }
    assert(!exists|j: int| first_index_of(ns, w@, j));
    let mut j: usize = 0;
    while j < names.len()
        invariant
            j <= names@.len(),
            ns == views(names@),
            !exists|q: int| first_index_of(ns, w@, q),
            forall|k: int| 0 <= k < j ==> !has_prefix(#[trigger] ns[k], w@),
        decreases names.len() - j,
    {
        if starts_with(&names[j], w) {
            assert(first_prefixed(ns, w@, j as int));
            let ghost c = choose|q: int| first_prefixed(ns, w@, q);
            assert(c == j) by {
                if c < j {
                    assert(!has_prefix(ns[c], w@));
                } else if c > j {
                    assert(!has_prefix(ns[j as int], w@));
                }
            }
            return Some(names[j].clone());
        }
        j += 1;
    }
    assert(!exists|q: int| first_prefixed(ns, w@, q));
    None
}

/// Tab completion of a console-variable name after `setvar` or `getvar`.
///
/// The partial name is replaced by its completion (see [`completion`]); the
/// words are then rejoined with single spaces, the cursor moves to the end
/// and history browsing stops.  Otherwise nothing changes.
pub fn handle_autocomplete(console_state: &mut ConsoleState, cvars: &CVarRegistry)
    ensures
        match autocompleted(old(console_state).input_text@, registry_names(cvars)) {
            None => *final(console_state) == *old(console_state),
            Some(line) => {
                &&& final(console_state).input_text@ == line
                &&& final(console_state).cursor_position == line.len()
                &&& final(console_state).history_index is None
                &&& final(console_state).visible == old(console_state).visible
                &&& final(console_state).log == old(console_state).log
                &&& final(console_state).command_history == old(console_state).command_history
            },
        },
{
    let text = chars_of(console_state.input_text.as_str());
    let mut words = split_whitespace(&text);
    if words.len() < 2 {
        return;
    }
    let setvar = chars_of("setvar");
    let getvar = chars_of("getvar");
    if !chars_eq(&words[0], &setvar) && !chars_eq(&words[0], &getvar) {
        return;
    }
    let all_cvars = cvars.list();
    let mut names: Vec<Vec<char>> = Vec::new();
    let mut i: usize = 0;
    while i < all_cvars.len()
        invariant
            i <= all_cvars@.len(),
            pair_models(all_cvars@) == cvars.entries(),
            names@.len() == i,
            views(names@) == registry_names(cvars).take(i as int),
        decreases all_cvars.len() - i,
    {
        let n = chars_of(all_cvars[i].0.as_str());
        assert(pair_models(all_cvars@)[i as int].0 == all_cvars@[i as int].0@);
        names.push(n);
        assert(views(names@) =~= registry_names(cvars).take(i + 1));
        i += 1;
    }
    assert(registry_names(cvars).take(i as int) =~= registry_names(cvars));
    let full = complete_name(&names, &words[1]);
    match full {
        None => {},
        Some(full) => {
            let ghost ws = views(words@);
            words.set(1, full);
            assert(views(words@) =~= ws.update(1, full@));
            let space = chars_of(" ");
            let line = join_chars(&words, &space);
            console_state.input_text = string_from_chars(&line);
            console_state.cursor_position = line.len();
            console_state.history_index = None;
        },
    }
}


//=========================================================================
// Key handling
//=========================================================================

/// The most lines the history area keeps.
pub const MAX_HISTORY_LINES: usize = 200;

/// The keys pressed in a frame, as far as the console cares.  `left`,
/// `right`, `backspace` and `delete` are also set when a held key repeats.
pub struct ConsoleKeys {
    pub up: bool,
    pub down: bool,
    pub left: bool,
    pub right: bool,
    pub home: bool,
    pub end: bool,
    pub tab: bool,
    pub enter: bool,
    pub backspace: bool,
    pub delete: bool,
    pub space: bool,
}

/// The mathematical state of the console.
pub struct ConsoleModel {
    pub visible: bool,
    pub input: Seq<char>,
    pub cursor: int,
    pub log: Seq<Seq<char>>,
    pub history: Seq<Seq<char>>,
    pub history_index: Option<int>,
}

impl ConsoleState {
    pub open spec fn model(&self) -> ConsoleModel {
        ConsoleModel {
            visible: self.visible,
            input: self.input_text@,
            cursor: self.cursor_position as int,
            log: string_views(self.log@),
            history: string_views(self.command_history@),
            history_index: match self.history_index {
                Some(i) => Some(i as int),
                None => None,
            },
        }
    }

    /// The history position is inside the history and the cursor inside the line.
    pub open spec fn wf(&self) -> bool {
        &&& self.history_index matches Some(i) ==> i < self.command_history@.len()
        &&& self.cursor_position <= self.input_text@.len()
    }
}

/// Arrow up: step back through the command history.
pub open spec fn history_up(m: ConsoleModel) -> ConsoleModel {
    if m.history.len() == 0 {
        m
    } else {
        let ni = match m.history_index {
            None => m.history.len() - 1,
            Some(i) => if i > 0 { i - 1 } else { i },
        };
        ConsoleModel { input: m.history[ni], cursor: m.history[ni].len() as int, history_index: Some(ni), ..m }
    }
}

/// Arrow down: step forward through the history, or leave it with an empty line.
pub open spec fn history_down(m: ConsoleModel) -> ConsoleModel {
    match m.history_index {
        None => m,
        Some(i) => if i < m.history.len() - 1 {
            ConsoleModel {
                input: m.history[i + 1],
                cursor: m.history[i + 1].len() as int,
                history_index: Some(i + 1),
                ..m
            }
        } else {
            ConsoleModel { input: Seq::empty(), cursor: 0, history_index: None, ..m }
        },
    }
}

pub open spec fn cursor_left(m: ConsoleModel) -> ConsoleModel {
    if m.cursor > 0 { ConsoleModel { cursor: m.cursor - 1, ..m } } else { m }
}

pub open spec fn cursor_right(m: ConsoleModel) -> ConsoleModel {
    if m.cursor < m.input.len() { ConsoleModel { cursor: m.cursor + 1, ..m } } else { m }
}

pub open spec fn tab_completed(m: ConsoleModel, names: Seq<Seq<char>>) -> ConsoleModel {
    match autocompleted(m.input, names) {
        Some(line) => ConsoleModel { input: line, cursor: line.len() as int, history_index: None, ..m },
        None => m,
    }
}

/// The state after the navigation keys of a frame, taken in the order
/// up, down, left, right, home, end, tab.
pub open spec fn navigated(m: ConsoleModel, k: ConsoleKeys, names: Seq<Seq<char>>) -> ConsoleModel {
    let m1 = if k.up { history_up(m) } else { m };
    let m2 = if k.down { history_down(m1) } else { m1 };
    let m3 = if k.left { cursor_left(m2) } else { m2 };
    let m4 = if k.right { cursor_right(m3) } else { m3 };
    let m5 = if k.home { ConsoleModel { cursor: 0, ..m4 } } else { m4 };
    let m6 = if k.end { ConsoleModel { cursor: m5.input.len() as int, ..m5 } } else { m5 };
    if k.tab { tab_completed(m6, names) } else { m6 }
}


/// Backspace: remove the character before the cursor.
pub open spec fn backspaced(m: ConsoleModel) -> ConsoleModel {
    if m.cursor > 0 && m.cursor <= m.input.len() {
        ConsoleModel { input: m.input.remove(m.cursor - 1), cursor: m.cursor - 1, history_index: None, ..m }
    } else {
        m
    }
}

/// Delete: remove the character at the cursor.
pub open spec fn deleted(m: ConsoleModel) -> ConsoleModel {
    if m.cursor < m.input.len() {
        ConsoleModel { input: m.input.remove(m.cursor), history_index: None, ..m }
    } else {
        m
    }
}

/// Insert `t` at the cursor (at the end when the cursor is past it).
pub open spec fn inserted(m: ConsoleModel, t: Seq<char>) -> ConsoleModel {
    let p = if m.cursor < m.input.len() { m.cursor } else { m.input.len() as int };
    ConsoleModel {
        input: m.input.take(p) + t + m.input.skip(p),
        cursor: m.cursor + t.len(),
        history_index: None,
        ..m
    }
}

/// Typed text, except the console key and a space (handled on its own).
pub open spec fn typed(m: ConsoleModel, t: Seq<char>) -> ConsoleModel {
    if t == "`"@ || t == "~"@ || t == " "@ { m } else { inserted(m, t) }
}

pub open spec fn typed_all(m: ConsoleModel, ts: Seq<Seq<char>>) -> ConsoleModel
    decreases ts.len(),
{
    if ts.len() == 0 { m } else { typed(typed_all(m, ts.drop_last()), ts.last()) }
}

/// Total length of the typed texts.
pub open spec fn total_len(ts: Seq<Seq<char>>) -> int
    decreases ts.len(),
{
    if ts.len() == 0 { 0 } else { total_len(ts.drop_last()) + ts.last().len() }
}

/// The state after the editing keys of a frame: backspace, delete, space,
/// then the typed texts in order.
pub open spec fn edited(m: ConsoleModel, k: ConsoleKeys, ts: Seq<Seq<char>>) -> ConsoleModel {
    let m1 = if k.backspace { backspaced(m) } else { m };
    let m2 = if k.delete { deleted(m1) } else { m1 };
    let m3 = if k.space { inserted(m2, " "@) } else { m2 };
    typed_all(m3, ts)
}

/// The log after a command and its output lines were added, keeping the
/// last [`MAX_HISTORY_LINES`] lines.
pub open spec fn trimmed_log(log: Seq<Seq<char>>) -> Seq<Seq<char>> {
    if log.len() > MAX_HISTORY_LINES { log.skip(log.len() - MAX_HISTORY_LINES) } else { log }
}

/// The state after a non-empty line was submitted.
pub open spec fn submitted(m: ConsoleModel) -> ConsoleModel {
    ConsoleModel {
        log: m.log.push(": "@ + m.input),
        history: m.history.push(m.input),
        history_index: None,
        ..m
    }
}

/// Output lines as the log shows them, indented by two spaces.
pub open spec fn indented(lines: Seq<Seq<char>>) -> Seq<Seq<char>> {
    lines.map_values(|l: Seq<char>| "  "@ + l)
}

/// The state after the output of a submitted command was logged.
pub open spec fn output_recorded(m: ConsoleModel, output: Seq<Seq<char>>) -> ConsoleModel {
    ConsoleModel { log: trimmed_log(m.log + indented(output)), input: Seq::empty(), cursor: 0, ..m }
}

pub open spec fn toggled(m: ConsoleModel) -> ConsoleModel {
    ConsoleModel { visible: !m.visible, ..m }
}

/// The input line with the cursor drawn as `|`.
pub open spec fn with_cursor(input: Seq<char>, cursor: int) -> Seq<char> {
    if input.len() == 0 {
        "|"@
    } else if cursor >= input.len() {
        input + "|"@
    } else {
        input.take(cursor) + "|"@ + input.skip(cursor)
    }
}

proof fn lemma_string_views_push(v: Seq<String>, x: String)
    ensures
        string_views(v.push(x)) == string_views(v).push(x@),
{
    assert(string_views(v.push(x)) =~= string_views(v).push(x@));
}

impl ConsoleState {
    fn char_len(&self) -> (n: usize)
        ensures
            n == self.input_text@.len(),
    {
        chars_of(self.input_text.as_str()).len()
    }

    fn up(&mut self)
        requires
            old(self).wf(),
        ensures
            final(self).wf(),
            final(self).model() == history_up(old(self).model()),
    {
        let len = self.command_history.len();
        if len > 0 {
            let ni = match self.history_index {
                None => len - 1,
                Some(i) => if i > 0 { i - 1 } else { i },
            };
            self.history_index = Some(ni);
            self.input_text = self.command_history[ni].clone();
            self.cursor_position = self.char_len();
        }
    }

    fn down(&mut self)
        requires
            old(self).wf(),
        ensures
            final(self).wf(),
            final(self).model() == history_down(old(self).model()),
    {
        if let Some(i) = self.history_index {
            if i < self.command_history.len() - 1 {
                self.history_index = Some(i + 1);
                self.input_text = self.command_history[i + 1].clone();
                self.cursor_position = self.char_len();
            } else {
                self.history_index = None;
                self.input_text = String::new();
                self.cursor_position = 0;
            }
        }
    }

    fn left(&mut self)
        requires
            old(self).wf(),
        ensures
            final(self).wf(),
            final(self).model() == cursor_left(old(self).model()),
    {
        if self.cursor_position > 0 {
            self.cursor_position = self.cursor_position - 1;
        }
    }

    fn right(&mut self)
        requires
            old(self).wf(),
        ensures
            final(self).wf(),
            final(self).model() == cursor_right(old(self).model()),
    {
        let text_len = self.char_len();
        if self.cursor_position < text_len {
            self.cursor_position = self.cursor_position + 1;
        }
    }

    fn tab(&mut self, cvars: &CVarRegistry)
        requires
            old(self).wf(),
        ensures
            final(self).wf(),
            final(self).model() == tab_completed(old(self).model(), registry_names(cvars)),
    {
        handle_autocomplete(self, cvars);
    }

    /// Handles the navigation keys of a frame: history browsing with up and
    /// down, cursor moves with left, right, home and end, and Tab completion.
    pub fn handle_navigation_keys(&mut self, keys: &ConsoleKeys, cvars: &CVarRegistry)
        requires
            old(self).wf(),
        ensures
            final(self).wf(),
            final(self).model() == navigated(old(self).model(), *keys, registry_names(cvars)),
    {
        let ghost m0 = self.model();
        if keys.up {
            self.up();
        }
        let ghost m1 = self.model();
        assert(m1 == if keys.up { history_up(m0) } else { m0 });
        if keys.down {
            self.down();
        }
        let ghost m2 = self.model();
        assert(m2 == if keys.down { history_down(m1) } else { m1 });
        if keys.left {
            self.left();
        }
        let ghost m3 = self.model();
        assert(m3 == if keys.left { cursor_left(m2) } else { m2 });
        if keys.right {
            self.right();
        }
        let ghost m4 = self.model();
        assert(m4 == if keys.right { cursor_right(m3) } else { m3 });
        if keys.home {
            self.cursor_position = 0;
        }
        let ghost m5 = self.model();
        assert(m5 == if keys.home { ConsoleModel { cursor: 0, ..m4 } } else { m4 });
        if keys.end {
            self.cursor_position = self.char_len();
        }
        let ghost m6 = self.model();
        assert(m6 == if keys.end { ConsoleModel { cursor: m5.input.len() as int, ..m5 } } else { m5 });
        if keys.tab {
            self.tab(cvars);
        }
    }

    /// Enter: when the line is not empty, echo it to the log, add it to the
    /// command history and hand it back to be run.
    pub fn submit(&mut self, enter: bool) -> (cmd: Option<String>)
        requires
            old(self).wf(),
        ensures
            final(self).wf(),
            enter && old(self).input_text@.len() > 0 ==> {
                &&& cmd matches Some(c) && c@ == old(self).input_text@
                &&& final(self).model() == submitted(old(self).model())
            },
            !(enter && old(self).input_text@.len() > 0) ==> cmd is None && *final(self) == *old(self),
    {
        if enter && self.char_len() > 0 {
            let command = self.input_text.clone();
            let mut line = ": ".to_owned();
            vstd::string::StringExecFns::append(&mut line, command.as_str());
            proof {
                lemma_string_views_push(self.log@, line);
                lemma_string_views_push(self.command_history@, command);
            }
            self.log.push(line);
            self.command_history.push(command.clone());
            self.history_index = None;
            Some(command)
        } else {
            None
        }
    }

    /// Adds the output lines of a submitted command to the log (indented by
    /// two spaces), keeps the last [`MAX_HISTORY_LINES`] lines and clears
    /// the input line.
    pub fn record_output(&mut self, output: &Vec<String>)
        requires
            old(self).wf(),
        ensures
            final(self).wf(),
            final(self).model() == output_recorded(old(self).model(), string_views(output@)),
    {
        let mut i: usize = 0;
        while i < output.len()
            invariant
                i <= output@.len(),
                self.wf(),
                self.model() == (ConsoleModel {
                    log: old(self).model().log + indented(string_views(output@)).take(i as int),
                    ..old(self).model()
                }),
            decreases output.len() - i,
        {
            let mut line = "  ".to_owned();
            vstd::string::StringExecFns::append(&mut line, output[i].as_str());
            proof { lemma_string_views_push(self.log@, line); }
            self.log.push(line);
            assert(indented(string_views(output@)).take(i + 1)
                =~= indented(string_views(output@)).take(i as int).push("  "@ + output@[i as int]@));
            i += 1;
        }
        assert(indented(string_views(output@)).take(i as int) =~= indented(string_views(output@)));
        let history_len = self.log.len();
        if history_len > MAX_HISTORY_LINES {
            let mut kept: Vec<String> = Vec::new();
            let mut j: usize = history_len - MAX_HISTORY_LINES;
            while j < history_len
                invariant
                    history_len == self.log@.len(),
                    history_len > MAX_HISTORY_LINES,
                    history_len - MAX_HISTORY_LINES <= j <= history_len,
                    kept@.len() == j - (history_len - MAX_HISTORY_LINES),
                    string_views(kept@) == string_views(self.log@).subrange(history_len - MAX_HISTORY_LINES, j as int),
                decreases history_len - j,
            {
                let l = self.log[j].clone();
                let ghost sv = string_views(self.log@);
                assert(sv.len() == history_len);
                assert(sv[j as int] == self.log@[j as int]@);
                proof { lemma_string_views_push(kept@, l); }
                kept.push(l);
                assert(sv.subrange(history_len - MAX_HISTORY_LINES, j + 1)
                    =~= sv.subrange(history_len - MAX_HISTORY_LINES, j as int).push(sv[j as int]));
                j += 1;
            }
            assert(string_views(self.log@).subrange(history_len - MAX_HISTORY_LINES, history_len as int)
                =~= string_views(self.log@).skip(history_len - MAX_HISTORY_LINES));
            self.log = kept;
        }
        self.input_text = String::new();
        self.cursor_position = 0;
    }

    /// Handles the editing keys of a frame: backspace, delete, space, then
    /// the typed texts in order.
    pub fn handle_edit_keys(&mut self, keys: &ConsoleKeys, typed_texts: &Vec<String>)
        requires
            old(self).wf(),
            old(self).input_text@.len() + 1 + total_len(string_views(typed_texts@)) <= usize::MAX,
        ensures
            final(self).wf(),
            final(self).model() == edited(old(self).model(), *keys, string_views(typed_texts@)),
    {
        proof {
            reveal_strlit(" ");
            lemma_total_len_nonneg(string_views(typed_texts@));
        }
        let ghost m0 = self.model();
        if keys.backspace {
            self.backspace();
        }
        let ghost m1 = self.model();
        assert(m1 == if keys.backspace { backspaced(m0) } else { m0 });
        if keys.delete {
            self.delete();
        }
        let ghost m2 = self.model();
        assert(m2 == if keys.delete { deleted(m1) } else { m1 });
        if keys.space {
            let sp = chars_of(" ");
            self.insert_text(&sp);
        }
        let ghost m3 = self.model();
        assert(m3 == if keys.space { inserted(m2, " "@) } else { m2 });
        proof {
            lemma_total_len_nonneg(string_views(typed_texts@));
            assert(string_views(typed_texts@).skip(0) =~= string_views(typed_texts@));
            assert(string_views(typed_texts@).take(0) =~= Seq::<Seq<char>>::empty());
        }
        let backtick = chars_of("`");
        let tilde = chars_of("~");
        let space = chars_of(" ");
        let mut i: usize = 0;
        while i < typed_texts.len()
            invariant
                i <= typed_texts@.len(),
                self.wf(),
                backtick@ == "`"@,
                tilde@ == "~"@,
                space@ == " "@,
                self.model() == typed_all(m3, string_views(typed_texts@).take(i as int)),
                self.input_text@.len() + total_len(string_views(typed_texts@).skip(i as int)) <= usize::MAX,
            decreases typed_texts.len() - i,
        {
            let t = chars_of(typed_texts[i].as_str());
            let ghost ts = string_views(typed_texts@);
            assert(ts.take(i + 1).drop_last() =~= ts.take(i as int));
            proof { lemma_total_len_skip(ts, i as int); }
            if !chars_eq(&t, &backtick) && !chars_eq(&t, &tilde) && !chars_eq(&t, &space) {
                self.insert_text(&t);
            }
            i += 1;
        }
        assert(string_views(typed_texts@).take(i as int) =~= string_views(typed_texts@));
    }

    fn backspace(&mut self)
        requires
            old(self).wf(),
        ensures
            final(self).wf(),
            final(self).model() == backspaced(old(self).model()),
            final(self).input_text@.len() <= old(self).input_text@.len(),
    {
        if self.cursor_position > 0 {
            let cs = chars_of(self.input_text.as_str());
            if self.cursor_position <= cs.len() {
                let r = remove_char(&cs, self.cursor_position - 1);
                self.input_text = string_from_chars(&r);
                self.cursor_position = self.cursor_position - 1;
                self.history_index = None;
            }
        }
    }

    fn delete(&mut self)
        requires
            old(self).wf(),
        ensures
            final(self).wf(),
            final(self).model() == deleted(old(self).model()),
            final(self).input_text@.len() <= old(self).input_text@.len(),
    {
        let cs = chars_of(self.input_text.as_str());
        if self.cursor_position < cs.len() {
            let r = remove_char(&cs, self.cursor_position);
            self.input_text = string_from_chars(&r);
            self.history_index = None;
        }
    }

    fn insert_text(&mut self, t: &Vec<char>)
        requires
            old(self).wf(),
            old(self).input_text@.len() + t@.len() <= usize::MAX,
        ensures
            final(self).wf(),
            final(self).model() == inserted(old(self).model(), t@),
            final(self).input_text@.len() == old(self).input_text@.len() + t@.len(),
    {
        let cs = chars_of(self.input_text.as_str());
        let p = if self.cursor_position < cs.len() { self.cursor_position } else { cs.len() };
        let r = splice_chars(&cs, p, t);
        self.input_text = string_from_chars(&r);
        self.cursor_position = self.cursor_position + t.len();
        self.history_index = None;
    }

    /// The input line as drawn, with the cursor shown as `|`.
    pub fn display_text(&self) -> (s: String)
        ensures
            s@ == with_cursor(self.input_text@, self.cursor_position as int),
    {
        let cs = chars_of(self.input_text.as_str());
        let bar = chars_of("|");
        if cs.len() == 0 {
            string_from_chars(&bar)
        } else if self.cursor_position >= cs.len() {
            let r = splice_chars(&cs, cs.len(), &bar);
            assert(cs@.skip(cs@.len() as int) =~= Seq::<char>::empty());
            assert(cs@.take(cs@.len() as int) =~= cs@);
            string_from_chars(&r)
        } else {
            let r = splice_chars(&cs, self.cursor_position, &bar);
            string_from_chars(&r)
        }
    }

    /// The log lines joined with newlines, as the history area shows them.
    pub fn log_text(&self) -> (s: String)
        ensures
            s@ == join(string_views(self.log@), "\n"@),
    {
        let mut lines: Vec<Vec<char>> = Vec::new();
        let mut i: usize = 0;
        while i < self.log.len()
            invariant
                i <= self.log@.len(),
                lines@.len() == i,
                views(lines@) == string_views(self.log@).take(i as int),
            decreases self.log.len() - i,
        {
            lines.push(chars_of(self.log[i].as_str()));
            assert(views(lines@) =~= string_views(self.log@).take(i + 1));
            i += 1;
        }
        assert(string_views(self.log@).take(i as int) =~= string_views(self.log@));
        let nl = chars_of("\n");
        string_from_chars(&join_chars(&lines, &nl))
    }

    /// The first part of a frame's console input: the navigation keys, then
    /// Enter.  Returns the submitted command, which the caller runs.  While
    /// the console is hidden the frame is ignored: nothing changes and
    /// nothing is submitted.
    pub fn frame_before_submit(&mut self, keys: &ConsoleKeys, cvars: &CVarRegistry) -> (cmd: Option<String>)
        requires
            old(self).wf(),
        ensures
            final(self).wf(),
            !old(self).visible ==> cmd is None && *final(self) == *old(self),
            old(self).visible ==> ({
                let m = navigated(old(self).model(), *keys, registry_names(cvars));
                if keys.enter && m.input.len() > 0 {
                    &&& cmd matches Some(c) && c@ == m.input
                    &&& final(self).model() == submitted(m)
                } else {
                    &&& cmd is None
                    &&& final(self).model() == m
                }
            }),
    {
        if !self.visible {
            return None;
        }
        self.handle_navigation_keys(keys, cvars);
        self.submit(keys.enter)
    }

    /// The rest of a frame's console input: the output of the command
    /// submitted in this frame, if there was one, is recorded; then the
    /// editing keys and the typed text.  While the console is hidden the
    /// frame is ignored.
    pub fn frame_after_output(&mut self, output: Option<&Vec<String>>, keys: &ConsoleKeys, typed_texts: &Vec<String>)
        requires
            old(self).wf(),
            old(self).input_text@.len() + 1 + total_len(string_views(typed_texts@)) <= usize::MAX,
        ensures
            final(self).wf(),
            !old(self).visible ==> *final(self) == *old(self),
            old(self).visible ==> final(self).model() == edited(
                match output {
                    Some(o) => output_recorded(old(self).model(), string_views(o@)),
                    None => old(self).model(),
                },
                *keys,
                string_views(typed_texts@),
            ),
    {
        if !self.visible {
            return;
        }
        match output {
            Some(o) => self.record_output(o),
            None => {},
        }
        self.handle_edit_keys(keys, typed_texts);
    }

    /// The console key toggles the console.
    pub fn toggle(&mut self)
        ensures
            final(self).model() == toggled(old(self).model()),
    {
        self.visible = !self.visible;
    }
}

proof fn lemma_total_len_skip(ts: Seq<Seq<char>>, i: int)
    requires
        0 <= i < ts.len(),
    ensures
        total_len(ts.skip(i)) == ts[i].len() + total_len(ts.skip(i + 1)),
        total_len(ts.skip(i + 1)) >= 0,
    decreases ts.len() - i,
{
    lemma_total_len_nonneg(ts.skip(i + 1));
    if i + 1 == ts.len() {
        assert(ts.skip(i).drop_last() =~= Seq::<Seq<char>>::empty());
        assert(ts.skip(i + 1) =~= Seq::<Seq<char>>::empty());
    } else {
        lemma_total_len_skip(ts, i + 1);
        lemma_total_len_first(ts.skip(i));
        assert(ts.skip(i).drop_first() =~= ts.skip(i + 1));
    }
}

proof fn lemma_total_len_nonneg(ts: Seq<Seq<char>>)
    ensures
        total_len(ts) >= 0,
    decreases ts.len(),
{
    if ts.len() > 0 {
        lemma_total_len_nonneg(ts.drop_last());
    }
}

proof fn lemma_total_len_first(ts: Seq<Seq<char>>)
    requires
        ts.len() > 0,
    ensures
        total_len(ts) == ts[0].len() + total_len(ts.drop_first()),
    decreases ts.len(),
{
    if ts.len() > 1 {
        lemma_total_len_first(ts.drop_last());
        assert(ts.drop_last().drop_first() =~= ts.drop_first().drop_last());
    } else {
        assert(ts.drop_first() =~= Seq::<Seq<char>>::empty());
        assert(ts.drop_last() =~= Seq::<Seq<char>>::empty());
    }
}


//=========================================================================
// Laws
//=========================================================================

/// Tab on the full name of a variable moves to the next variable in name
/// order, and from the last variable back to the first: pressing Tab again
/// and again cycles through all variables.
pub proof fn law_tab_cycles_through_variables(cvars: &CVarRegistry, i: int)
    requires
        cvars.wf(),
        0 <= i < registry_names(cvars).len(),
    ensures
        completion(registry_names(cvars), registry_names(cvars)[i])
            == Some(registry_names(cvars)[(i + 1) % (registry_names(cvars).len() as int)]),
{
    let names = registry_names(cvars);
    let e = cvars.entries();
    assert forall|k: int| 0 <= k < i implies names[k] != names[i] by {
        assert(crate::cvars::sorted_entries(e));
        assert(crate::text::seq_lt(e[k].0, e[i].0));
        crate::text::lemma_seq_lt_irreflexive(e[i].0);
    }
    assert(first_index_of(names, names[i], i));
    let c = choose|c: int| first_index_of(names, names[i], c);
    if c < i {
        assert(names[c] != names[i]);
    } else if c > i {
        assert(names[i] != names[i]);
    }
}

/// Backspace right after typing a character removes it again: the line and
/// the cursor are as they were.
pub proof fn law_backspace_undoes_typing(m: ConsoleModel, c: char)
    requires
        0 <= m.cursor <= m.input.len(),
        c != '`' && c != '~' && c != ' ',
    ensures
        backspaced(typed(m, seq![c])).input == m.input,
        backspaced(typed(m, seq![c])).cursor == m.cursor,
{
    reveal_strlit("`");
    reveal_strlit("~");
    reveal_strlit(" ");
    assert(seq![c] != "`"@ && seq![c] != "~"@ && seq![c] != " "@) by {
        assert(seq![c][0] == c);
    }
    let t = typed(m, seq![c]);
    assert(t == inserted(m, seq![c]));
    assert(t.input.remove(m.cursor) =~= m.input);
}

/// Arrow up from the input line recalls the most recent command; arrow down
/// from there leaves the history with an empty line.
pub proof fn law_history_up_then_down(m: ConsoleModel)
    requires
        m.history.len() > 0,
        m.history_index is None,
    ensures
        history_up(m).input == m.history.last(),
        history_up(m).history_index == Some(m.history.len() - 1),
        history_down(history_up(m)).input == Seq::<char>::empty(),
        history_down(history_up(m)).cursor == 0,
        history_down(history_up(m)).history_index is None,
{
}

/// Arrow up on the oldest command stays there.
pub proof fn law_history_up_stops_at_oldest(m: ConsoleModel)
    requires
        m.history.len() > 0,
        m.history_index == Some(0int),
    ensures
        history_up(m).history_index == Some(0int),
        history_up(m).input == m.history[0],
{
}

/// The history area never holds more than [`MAX_HISTORY_LINES`] lines after
/// output is recorded, and what it holds is the newest lines: the old log
/// followed by the indented output, cut from the front.
pub proof fn law_log_keeps_newest_lines(m: ConsoleModel, output: Seq<Seq<char>>)
    ensures
        output_recorded(m, output).log.len() <= MAX_HISTORY_LINES,
        ({
            let all = m.log + indented(output);
            let kept = output_recorded(m, output).log;
            kept == all.skip(all.len() - kept.len())
        }),
        m.log.len() + output.len() <= MAX_HISTORY_LINES ==> output_recorded(m, output).log
            == m.log + indented(output),
{
    let all = m.log + indented(output);
    if all.len() <= MAX_HISTORY_LINES {
        assert(all.skip(0) =~= all);
    }
}

/// A submitted line is the newest history entry, and it is echoed to the log
/// after a `: ` prompt.
pub proof fn law_submit_records_command(m: ConsoleModel)
    ensures
        submitted(m).history.last() == m.input,
        submitted(m).history.drop_last() == m.history,
        submitted(m).log.last() == ": "@ + m.input,
        submitted(m).log.drop_last() == m.log,
{
    assert(submitted(m).history.drop_last() =~= m.history);
    assert(submitted(m).log.drop_last() =~= m.log);
}

/// The arrow keys move the cursor by one character and leave the line
/// alone: right then left, from inside the line, comes back to the same
/// place, and so does left then right from after its start.
pub proof fn law_arrows_move_one_character(m: ConsoleModel)
    requires
        0 <= m.cursor <= m.input.len(),
    ensures
        m.cursor < m.input.len() ==> cursor_right(m).cursor == m.cursor + 1,
        m.cursor == m.input.len() ==> cursor_right(m) == m,
        cursor_right(m).input == m.input,
        m.cursor > 0 ==> cursor_left(m).cursor == m.cursor - 1,
        cursor_left(m).input == m.input,
        m.cursor < m.input.len() ==> cursor_left(cursor_right(m)) == m,
        m.cursor > 0 ==> cursor_right(cursor_left(m)) == m,
{
}

/// What Tab puts in place of a partial name that is not itself a variable:
/// a name that begins with it, namely the first such name in the given
/// (sorted) order; when no name begins with it there is no completion and
/// the line stays as it was.
pub proof fn law_completion_of_prefix(names: Seq<Seq<char>>, w: Seq<char>)
    requires
        !names.contains(w),
    ensures
        completion(names, w) matches Some(full) ==> {
            &&& has_prefix(full, w)
            &&& exists|i: int| 0 <= i < names.len() && names[i] == full
                && forall|k: int| 0 <= k < i ==> !has_prefix(#[trigger] names[k], w)
        },
        (forall|i: int| 0 <= i < names.len() ==> !has_prefix(#[trigger] names[i], w)) ==> completion(names, w) is None,
{
    assert(!exists|i: int| first_index_of(names, w, i)) by {
        if exists|i: int| first_index_of(names, w, i) {
            let i = choose|i: int| first_index_of(names, w, i);
            assert(names.contains(w));
        }
    }
    if exists|i: int| first_prefixed(names, w, i) {
        let i = choose|i: int| first_prefixed(names, w, i);
        assert(names[i] == completion(names, w)->0);
    }
}

/// Tab on `setvar` or `getvar` and a partial name that is not a variable
/// name replaces that word by the first variable name (in name order) that
/// begins with it, keeping the other words; when no variable name begins
/// with it, the line is left as it was.
pub proof fn law_tab_completes_prefix(text: Seq<char>, cvars: &CVarRegistry)
    requires
        split_ws(text).len() >= 2,
        is_var_command(split_ws(text)[0]),
        !registry_names(cvars).contains(split_ws(text)[1]),
    ensures
        autocompleted(text, registry_names(cvars)) matches Some(line) ==> exists|full: Seq<char>| {
            &&& has_prefix(full, split_ws(text)[1])
            &&& completion(registry_names(cvars), split_ws(text)[1]) == Some(full)
            &&& line == join(split_ws(text).update(1, full), " "@)
        },
        (forall|i: int| 0 <= i < registry_names(cvars).len()
            ==> !has_prefix(#[trigger] registry_names(cvars)[i], split_ws(text)[1]))
            ==> autocompleted(text, registry_names(cvars)) is None,
{
    law_completion_of_prefix(registry_names(cvars), split_ws(text)[1]);
}

} // verus!
