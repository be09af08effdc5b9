//! Console variables: a registry of named, typed settings that the console
//! and scripts read and change at run time (Quake-style "cvars").
//!
//! A floating-point variable is stored as the IEEE-754 bit pattern of its
//! `f32` value: the registry never computes with it, it only keeps it and
//! checks that a new value has the same kind as the old one.
use vstd::prelude::*;
use crate::text::{char_code, chars_eq, chars_lt, chars_of, seq_lt, string_from_chars};
use crate::ui_style::{all_digits, digit_value, digits_value, is_digit};
use vstd::string::StringExecFns;

verus! {

broadcast use vstd::string::group_string_axioms;

/// The value of a console variable.
#[derive(Debug)]
pub enum CVarValue {
    /// An `f32`, held as its bit pattern (`f32::to_bits`).
    F32(u32),
    Int32(i32),
    String(String),
}

/// The mathematical value of a [`CVarValue`].
pub enum CVarModel {
    F32(u32),
    Int32(i32),
    Text(Seq<char>),
}

impl CVarValue {
    pub open spec fn model(&self) -> CVarModel {
        match self {
            CVarValue::F32(b) => CVarModel::F32(*b),
            CVarValue::Int32(v) => CVarModel::Int32(*v),
            CVarValue::String(s) => CVarModel::Text(s@),
        }
    }

    /// A copy of this value.
    pub fn duplicate(&self) -> (r: CVarValue)
        ensures
            r.model() == self.model(),
    {
        match self {
            CVarValue::F32(b) => CVarValue::F32(*b),
            CVarValue::Int32(v) => CVarValue::Int32(*v),
            CVarValue::String(s) => CVarValue::String(s.clone()),
        }
    }
}

/// Two values are of the same kind (float, integer or string).
pub open spec fn same_kind(a: CVarModel, b: CVarModel) -> bool {
    match (a, b) {
        (CVarModel::F32(_), CVarModel::F32(_)) => true,
        (CVarModel::Int32(_), CVarModel::Int32(_)) => true,
        (CVarModel::Text(_), CVarModel::Text(_)) => true,
        _ => false,
    }
}

pub open spec fn is_ascii_alpha(c: char) -> bool {
    ('a' <= c && c <= 'z') || ('A' <= c && c <= 'Z')
}

pub open spec fn is_ascii_alnum(c: char) -> bool {
    is_ascii_alpha(c) || ('0' <= c && c <= '9')
}

/// A valid variable name: an ASCII letter or `_` followed by ASCII letters,
/// digits, `_` or `.`.
pub open spec fn valid_name(s: Seq<char>) -> bool {
    &&& s.len() > 0
    &&& (is_ascii_alpha(s[0]) || s[0] == '_')
    &&& forall|i: int| 1 <= i < s.len() ==> is_ascii_alnum(#[trigger] s[i]) || s[i] == '_' || s[i] == '.'
}

/// Entries sorted strictly by name.
pub open spec fn sorted_entries(e: Seq<(Seq<char>, CVarModel)>) -> bool {
    forall|i: int, j: int| 0 <= i < j < e.len() ==> seq_lt(#[trigger] e[i].0, #[trigger] e[j].0)
}

/// The map from names to values that a sequence of entries with distinct names denotes.
pub open spec fn entries_map(e: Seq<(Seq<char>, CVarModel)>) -> Map<Seq<char>, CVarModel> {
    Map::new(
        |k: Seq<char>| exists|i: int| 0 <= i < e.len() && e[i].0 == k,
        |k: Seq<char>| e[entry_index(e, k)].1,
    )
}

/// An index at which `e` holds the name `k`.
pub open spec fn entry_index(e: Seq<(Seq<char>, CVarModel)>, k: Seq<char>) -> int {
    choose|i: int| 0 <= i < e.len() && e[i].0 == k
}

/// Models of `(String, CVarValue)` pairs.
pub open spec fn pair_models(v: Seq<(String, CVarValue)>) -> Seq<(Seq<char>, CVarModel)> {
    v.map_values(|p: (String, CVarValue)| (p.0@, p.1.model()))
}

/// In sorted entries the value stored under a name is the one the map gives.
pub proof fn lemma_entries_lookup(e: Seq<(Seq<char>, CVarModel)>, n: int)
    requires
        sorted_entries(e),
        0 <= n < e.len(),
    ensures
        entries_map(e).contains_key(e[n].0),
        entries_map(e)[e[n].0] == e[n].1,
{
    let k = e[n].0;
    assert(entries_map(e).contains_key(k));
    let j = entry_index(e, k);
    assert(entries_map(e)[k] == e[j].1);
    if j != n {
        if j < n {
            assert(seq_lt(e[j].0, e[n].0));
        } else {
            assert(seq_lt(e[n].0, e[j].0));
        }
        crate::text::lemma_seq_lt_irreflexive(k);
    }
}

/// Replacing the value of an entry changes the map at that name only.
pub proof fn lemma_entries_update(e: Seq<(Seq<char>, CVarModel)>, i: int, v: CVarModel)
    requires
        sorted_entries(e),
        0 <= i < e.len(),
    ensures
        sorted_entries(e.update(i, (e[i].0, v))),
        entries_map(e.update(i, (e[i].0, v))) == entries_map(e).insert(e[i].0, v),
{
    let e2 = e.update(i, (e[i].0, v));
    assert(sorted_entries(e2)) by {
        assert forall|a: int, b: int| 0 <= a < b < e2.len() implies seq_lt(#[trigger] e2[a].0, #[trigger] e2[b].0) by {
            assert(e2[a].0 == e[a].0 && e2[b].0 == e[b].0);
        }
    }
    let m = entries_map(e).insert(e[i].0, v);
    assert forall|k: Seq<char>| #[trigger] entries_map(e2).contains_key(k) <==> m.contains_key(k) by {
        if entries_map(e2).contains_key(k) {
            let j = choose|j: int| 0 <= j < e2.len() && e2[j].0 == k;
            assert(e[j].0 == k);
        }
        if entries_map(e).contains_key(k) {
            let j = choose|j: int| 0 <= j < e.len() && e[j].0 == k;
            assert(e2[j].0 == k);
        }
        if k == e[i].0 {
            assert(e2[i].0 == k);
        }
    }
    assert forall|k: Seq<char>| #[trigger] entries_map(e2).contains_key(k) implies entries_map(e2)[k] == m[k] by {
        let j = entry_index(e2, k);
        lemma_entries_lookup(e2, j);
        if j != i {
            lemma_entries_lookup(e, j);
            assert(e[j].0 == k);
            if k == e[i].0 {
                if j < i { assert(seq_lt(e[j].0, e[i].0)); } else { assert(seq_lt(e[i].0, e[j].0)); }
                crate::text::lemma_seq_lt_irreflexive(k);
            }
        }
    }
    assert(entries_map(e2) =~= m);
}

/// Inserting an entry with a new name at its sorted position adds it to the map.
pub proof fn lemma_entries_insert(e: Seq<(Seq<char>, CVarModel)>, p: int, k: Seq<char>, v: CVarModel)
    requires
        sorted_entries(e),
        0 <= p <= e.len(),
        forall|i: int| 0 <= i < p ==> seq_lt(#[trigger] e[i].0, k),
        forall|i: int| p <= i < e.len() ==> seq_lt(k, #[trigger] e[i].0),
    ensures
        sorted_entries(e.insert(p, (k, v))),
        entries_map(e.insert(p, (k, v))) == entries_map(e).insert(k, v),
{
    let e2 = e.insert(p, (k, v));
    assert(sorted_entries(e2)) by {
        assert forall|a: int, b: int| 0 <= a < b < e2.len() implies seq_lt(#[trigger] e2[a].0, #[trigger] e2[b].0) by {
            if a < p && b < p {
            } else if a < p && b == p {
            } else if a < p && b > p {
                assert(e2[b] == e[b - 1]);
                crate::text::lemma_seq_lt_transitive(e[a].0, k, e[b - 1].0);
            } else if a == p {
                assert(e2[b] == e[b - 1]);
            } else {
                assert(e2[a] == e[a - 1]);
                assert(e2[b] == e[b - 1]);
            }
        }
    }
    let m = entries_map(e).insert(k, v);
    assert forall|q: Seq<char>| #[trigger] entries_map(e2).contains_key(q) <==> m.contains_key(q) by {
        if entries_map(e2).contains_key(q) {
            let j = choose|j: int| 0 <= j < e2.len() && e2[j].0 == q;
            if j < p { assert(e[j].0 == q); } else if j > p { assert(e[j - 1].0 == q); }
        }
        if entries_map(e).contains_key(q) {
            let j = choose|j: int| 0 <= j < e.len() && e[j].0 == q;
            if j < p { assert(e2[j].0 == q); } else { assert(e2[j + 1].0 == q); }
        }
        if q == k {
            assert(e2[p].0 == q);
        }
    }
    assert forall|q: Seq<char>| #[trigger] entries_map(e2).contains_key(q) implies entries_map(e2)[q] == m[q] by {
        let j = entry_index(e2, q);
        lemma_entries_lookup(e2, j);
        if j < p {
            lemma_entries_lookup(e, j);
            assert(e[j].0 == q);
            if q == k { crate::text::lemma_seq_lt_irreflexive(k); }
        } else if j > p {
            lemma_entries_lookup(e, j - 1);
            assert(e[j - 1].0 == q);
            if q == k { crate::text::lemma_seq_lt_irreflexive(k); }
        }
    }
    assert(entries_map(e2) =~= m);
}

/// The text of a message: `prefix` followed by `name`.
fn message(prefix: &str, name: &str) -> (m: String)
    ensures
        m@ == prefix@ + name@,
{
    let mut m = prefix.to_owned();
    m.append(name);
    m
}

pub open spec fn message_invalid(name: Seq<char>) -> Seq<char> {
    "Invalid variable name: "@ + name
}

pub open spec fn message_exists(name: Seq<char>) -> Seq<char> {
    "Variable already exists: "@ + name
}

pub open spec fn message_missing(name: Seq<char>) -> Seq<char> {
    "Variable does not exist: "@ + name
}

/// The message for a change of kind; each kind is shown as the `Debug`
/// form of its `std::mem::discriminant`, `Discriminant(<position>)`.
pub open spec fn mismatch_message(name: Seq<char>, from: CVarModel, to: CVarModel) -> Seq<char> {
    "Type mismatch for variable '"@ + name + "': cannot change from Discriminant("@
        + kind_digit(from) + ") to Discriminant("@ + kind_digit(to) + ")"@
}

/// The decimal digit of a kind's position among the variants of [`CVarValue`].
pub open spec fn kind_digit(v: CVarModel) -> Seq<char> {
    match v {
        CVarModel::F32(_) => "0"@,
        CVarModel::Int32(_) => "1"@,
        CVarModel::Text(_) => "2"@,
    }
}

fn kind_digit_text(v: &CVarValue) -> (s: &'static str)
    ensures
        s@ == kind_digit(v.model()),
{
    match v {
        CVarValue::F32(_) => "0",
        CVarValue::Int32(_) => "1",
        CVarValue::String(_) => "2",
    }
}

/// Registry of console variables.
pub struct CVarRegistry {
    vars: Vec<(String, CVarValue)>,
}

impl CVarRegistry {
    /// The variables, sorted by name.
    pub closed spec fn entries(&self) -> Seq<(Seq<char>, CVarModel)> {
        pair_models(self.vars@)
    }

    /// Names are sorted and distinct, and every name is valid.
    pub open spec fn wf(&self) -> bool {
        &&& sorted_entries(self.entries())
        &&& forall|i: int| 0 <= i < self.entries().len() ==> valid_name(#[trigger] self.entries()[i].0)
    }

    /// Every registry value keeps its names sorted, distinct and valid.
    #[verifier::type_invariant]
    spec fn registry_invariant(self) -> bool {
        self.wf()
    }

    /// The registry as a map from names to values.
    pub open spec fn view(&self) -> Map<Seq<char>, CVarModel> {
        entries_map(self.entries())
    }

    /// Whether `name` is a valid variable name.
    pub fn is_valid_name(name: &str) -> (b: bool)
        ensures
            b == valid_name(name@),
    {
        let cs = chars_of(name);
        if cs.len() == 0 {
            return false;
        }
        let first = cs[0];
        if !(('a' <= first && first <= 'z') || ('A' <= first && first <= 'Z') || first == '_') {
            return false;
        }
        let mut i: usize = 1;
        while i < cs.len()
            invariant
                1 <= i <= cs.len(),
                cs@ == name@,
                forall|j: int| 1 <= j < i ==> is_ascii_alnum(#[trigger] cs@[j]) || cs@[j] == '_' || cs@[j] == '.',
            decreases cs.len() - i,
        {
            let c = cs[i];
            let ok = ('a' <= c && c <= 'z') || ('A' <= c && c <= 'Z') || ('0' <= c && c <= '9')
                || c == '_' || c == '.';
            if !ok {
                return false;
            }
            i += 1;
        }
        true
    }

    /// The index of the entry named `name`, if there is one.
    fn find(&self, name: &Vec<char>) -> (r: Option<usize>)
        requires
            self.wf(),
        ensures
            match r {
                Some(i) => i < self.entries().len() && self.entries()[i as int].0 == name@,
                None => !self.view().contains_key(name@),
            },
    {
        let mut i: usize = 0;
        while i < self.vars.len()
            invariant
                i <= self.vars@.len(),
                self.entries() == pair_models(self.vars@),
                forall|j: int| 0 <= j < i ==> #[trigger] self.entries()[j].0 != name@,
            decreases self.vars.len() - i,
        {
            let n = chars_of(self.vars[i].0.as_str());
            assert(self.entries()[i as int].0 == self.vars@[i as int].0@);
            if chars_eq(&n, name) {
                return Some(i);
            }
            i += 1;
        }
        None
    }

    /// The position at which an entry named `name` keeps the entries sorted.
    fn insert_position(&self, name: &Vec<char>) -> (p: usize)
        requires
            self.wf(),
            !self.view().contains_key(name@),
        ensures
            p <= self.entries().len(),
            forall|i: int| 0 <= i < p ==> seq_lt(#[trigger] self.entries()[i].0, name@),
            forall|i: int| p <= i < self.entries().len() ==> seq_lt(name@, #[trigger] self.entries()[i].0),
    {
        let ghost e = self.entries();
        let mut i: usize = 0;
        while i < self.vars.len()
            invariant
                i <= self.vars@.len(),
                e == self.entries(),
                e == pair_models(self.vars@),
                sorted_entries(e),
                !entries_map(e).contains_key(name@),
                forall|j: int| 0 <= j < i ==> seq_lt(#[trigger] e[j].0, name@),
            decreases self.vars.len() - i,
        {
            let n = chars_of(self.vars[i].0.as_str());
            assert(e[i as int].0 == self.vars@[i as int].0@);
            if !chars_lt(&n, name) {
                proof {
                    assert forall|j: int| i <= j < e.len() implies seq_lt(name@, #[trigger] e[j].0) by {
                        if seq_lt(e[j].0, name@) {
                            if j > i {
                                assert(seq_lt(e[i as int].0, e[j].0));
                                crate::text::lemma_seq_lt_transitive(e[i as int].0, e[j].0, name@);
                            }
                        }
                        if e[j].0 == name@ {
                            assert(entries_map(e).contains_key(name@));
                        }
                        crate::text::lemma_seq_lt_total(e[j].0, name@);
                    }
                }
                return i;
            }
            i += 1;
        }
        i
    }

    pub fn new() -> (r: Self)
        ensures
            r.wf(),
            r.view() == Map::<Seq<char>, CVarModel>::empty(),
    {
        let r = CVarRegistry { vars: Vec::new() };
        assert(r.view() =~= Map::<Seq<char>, CVarModel>::empty());
        r
    }

    /// Defines a new variable.  Fails if the name is invalid or already taken.
    pub fn init(&mut self, name: &str, value: CVarValue) -> (r: Result<(), String>)
        ensures
            final(self).wf(),
            !valid_name(name@) ==> (r matches Err(m) && m@ == message_invalid(name@))
                && final(self).view() == old(self).view(),
            valid_name(name@) && old(self).view().contains_key(name@) ==> (r matches Err(m) && m@ == message_exists(name@))
                && final(self).view() == old(self).view(),
            valid_name(name@) && !old(self).view().contains_key(name@) ==> r is Ok
                && final(self).view() == old(self).view().insert(name@, value.model()),
    {
        proof { use_type_invariant(&*self); }
        if !Self::is_valid_name(name) {
            return Err(message("Invalid variable name: ", name));
        }
        let cs = chars_of(name);
        match self.find(&cs) {
            Some(i) => {
                proof { lemma_entries_lookup(self.entries(), i as int); }
                Err(message("Variable already exists: ", name))
            },
            None => {
                let p = self.insert_position(&cs);
                let ghost e = self.entries();
                let ghost vm = value.model();
                proof { lemma_entries_insert(e, p as int, name@, vm); }
                let mut vars: Vec<(String, CVarValue)> = Vec::new();
                std::mem::swap(&mut vars, &mut self.vars);
                vars.insert(p, (name.to_owned(), value));
                assert(pair_models(vars@) =~= e.insert(p as int, (name@, vm)));
                self.vars = vars;
                assert(self.entries() =~= e.insert(p as int, (name@, vm)));
                Ok(())
            },
        }
    }

    /// Changes the value of an existing variable; the new value must be of
    /// the same kind as the old one.
    pub fn set(&mut self, name: &str, value: CVarValue) -> (r: Result<(), String>)
        ensures
            final(self).wf(),
            !old(self).view().contains_key(name@) ==> (r matches Err(m) && m@ == message_missing(name@))
                && final(self).view() == old(self).view(),
            old(self).view().contains_key(name@) && !same_kind(old(self).view()[name@], value.model())
                ==> (r matches Err(m) && m@ == mismatch_message(name@, old(self).view()[name@], value.model()))
                && final(self).view() == old(self).view(),
            old(self).view().contains_key(name@) && same_kind(old(self).view()[name@], value.model())
                ==> r is Ok && final(self).view() == old(self).view().insert(name@, value.model()),
    {
        proof { use_type_invariant(&*self); }
        let cs = chars_of(name);
        match self.find(&cs) {
            None => Err(message("Variable does not exist: ", name)),
            Some(i) => {
                let ghost e = self.entries();
                proof { lemma_entries_lookup(e, i as int); }
                assert(e[i as int] == (self.vars@[i as int].0@, self.vars@[i as int].1.model()));
                let same = match (&self.vars[i].1, &value) {
                    (CVarValue::F32(_), CVarValue::F32(_)) => true,
                    (CVarValue::Int32(_), CVarValue::Int32(_)) => true,
                    (CVarValue::String(_), CVarValue::String(_)) => true,
                    _ => false,
                };
                if !same {
                    let mut m = message("Type mismatch for variable '", name);
                    m.append("': cannot change from Discriminant(");
                    m.append(kind_digit_text(&self.vars[i].1));
                    m.append(") to Discriminant(");
                    m.append(kind_digit_text(&value));
                    m.append(")");
                    return Err(m);
                }
                let ghost vm = value.model();
                proof { lemma_entries_update(e, i as int, vm); }
                let key = self.vars[i].0.clone();
                let mut vars: Vec<(String, CVarValue)> = Vec::new();
                std::mem::swap(&mut vars, &mut self.vars);
                vars.set(i, (key, value));
                assert(pair_models(vars@) =~= e.update(i as int, (e[i as int].0, vm)));
                self.vars = vars;
                assert(self.entries() =~= e.update(i as int, (e[i as int].0, vm)));
                Ok(())
            },
        }
    }

    /// The value of a variable, if it exists.
    pub fn get(&self, name: &str) -> (r: Option<&CVarValue>)
        ensures
            r is Some <==> self.view().contains_key(name@),
            r matches Some(v) ==> v.model() == self.view()[name@],
    {
        proof { use_type_invariant(self); }
        let cs = chars_of(name);
        match self.find(&cs) {
            None => None,
            Some(i) => {
                proof { lemma_entries_lookup(self.entries(), i as int); }
                assert(self.entries()[i as int].1 == self.vars@[i as int].1.model());
                Some(&self.vars[i].1)
            },
        }
    }

    /// Whether a variable of this name exists.
    pub fn contains(&self, name: &str) -> (b: bool)
        ensures
            b == self.view().contains_key(name@),
    {
        proof { use_type_invariant(self); }
        let cs = chars_of(name);
        match self.find(&cs) {
            None => false,
            Some(i) => {
                proof { lemma_entries_lookup(self.entries(), i as int); }
                true
            },
        }
    }

    /// All variables with their values, sorted by name.
    pub fn list(&self) -> (r: Vec<(String, CVarValue)>)
        ensures
            pair_models(r@) == self.entries(),
    {
        let mut r: Vec<(String, CVarValue)> = Vec::new();
        let mut i: usize = 0;
        while i < self.vars.len()
            invariant
                i <= self.vars@.len(),
                r@.len() == i,
                pair_models(r@) == pair_models(self.vars@).take(i as int),
            decreases self.vars.len() - i,
        {
            let name = self.vars[i].0.clone();
            let value = self.vars[i].1.duplicate();
            assert(name@ == self.vars@[i as int].0@);
            let ghost r0 = r@;
            r.push((name, value));
            assert(r@ == r0.push((name, value)));
            assert(pair_models(r@)[i as int] == pair_models(self.vars@)[i as int]);
            assert(pair_models(r@) =~= pair_models(self.vars@).take(i + 1));
            i += 1;
        }
        assert(pair_models(self.vars@).take(i as int) =~= pair_models(self.vars@));
        r
    }
}

impl Default for CVarRegistry {
    fn default() -> (r: Self)
        ensures
            r.wf(),
            r.view() == Map::<Seq<char>, CVarModel>::empty(),
    {
        CVarRegistry::new()
    }
}


//=========================================================================
// Integer text of values
//=========================================================================

/// The `i32` that `str::parse::<i32>` reads from `s`: an optional `+` or
/// `-`, then one or more ASCII digits, with the value in range.
pub open spec fn parsed_i32(s: Seq<char>) -> Option<i32> {
    let neg = s.len() > 0 && s[0] == '-';
    let body = if s.len() > 0 && (s[0] == '-' || s[0] == '+') { s.skip(1) } else { s };
    let v = if neg { -digits_value(body) } else { digits_value(body) };
    if all_digits(body) && i32::MIN <= v <= i32::MAX {
        Some(v as i32)
    } else {
        None
    }
}

/// The decimal digits of `n`, most significant first, without leading zeros.
pub open spec fn decimal(n: nat) -> Seq<char>
    decreases n,
{
    if n < 10 {
        seq![((n + 48) as u32) as char]
    } else {
        decimal(n / 10).push((((n % 10) + 48) as u32) as char)
    }
}

/// The text of `v` as `i32::to_string` writes it.
pub open spec fn i32_text(v: i32) -> Seq<char> {
    if v < 0 { seq!['-'] + decimal((-v) as nat) } else { decimal(v as nat) }
}

spec fn capped_magnitude(x: int) -> int {
    if x > 2147483648 { 2147483649 } else { x }
}

/// Reads an `i32` from text the way `str::parse::<i32>` does.
pub fn parse_i32(s: &str) -> (r: Option<i32>)
    ensures
        r == parsed_i32(s@),
{
    let cs = chars_of(s);
    let neg = cs.len() > 0 && cs[0] == '-';
    let start: usize = if cs.len() > 0 && (cs[0] == '-' || cs[0] == '+') { 1 } else { 0 };
    let ghost body = if cs@.len() > 0 && (cs@[0] == '-' || cs@[0] == '+') { cs@.skip(1) } else { cs@ };
    assert(body == cs@.skip(start as int));
    if start >= cs.len() {
        assert(body.len() == 0);
        return None;
    }
    let mut v: i64 = 0;
    let mut k: usize = start;
    while k < cs.len()
        invariant
            start <= k <= cs@.len(),
            cs@ == s@,
            body == cs@.skip(start as int),
            body == (if s@.len() > 0 && (s@[0] == '-' || s@[0] == '+') { s@.skip(1) } else { s@ }),
            neg == (s@.len() > 0 && s@[0] == '-'),
            forall|j: int| start <= j < k ==> is_digit(#[trigger] cs@[j]),
            v == capped_magnitude(digits_value(cs@.subrange(start as int, k as int))),
            digits_value(cs@.subrange(start as int, k as int)) >= 0,
        decreases cs.len() - k,
    {
        let c = cs[k];
        if !('0' <= c && c <= '9') {
            assert(body[k - start] == c);
            assert(!all_digits(body));
            return None;
        }
        assert(cs@.subrange(start as int, k + 1).drop_last() =~= cs@.subrange(start as int, k as int));
        let d: i64 = (char_code(c) - 48) as i64;
        assert(d == digit_value(c));
        v = v * 10 + d;
        if v > 2147483649 {
            v = 2147483649;
        }
        k += 1;
    }
    assert(cs@.subrange(start as int, cs@.len() as int) =~= cs@.skip(start as int));
    assert(all_digits(body)) by {
        assert forall|i: int| 0 <= i < body.len() implies is_digit(#[trigger] body[i]) by {
            assert(body[i] == cs@[start + i]);
        }
    }
    if neg {
        if v > 2147483648 {
            None
        } else {
            Some((-v) as i32)
        }
    } else {
        if v > 2147483647 {
            None
        } else {
            Some(v as i32)
        }
    }
}

/// The ASCII digit for `d`.
fn digit_char(d: u64) -> (c: char)
    requires
        d < 10,
    ensures
        c as u32 == d + 48,
{
    if d == 0 { '0' } else if d == 1 { '1' } else if d == 2 { '2' } else if d == 3 { '3' }
    else if d == 4 { '4' } else if d == 5 { '5' } else if d == 6 { '6' } else if d == 7 { '7' }
    else if d == 8 { '8' } else { '9' }
}

/// Writes an `i32` in decimal, as `i32::to_string` does.
pub fn format_i32(v: i32) -> (s: String)
    ensures
        s@ == i32_text(v),
{
    let neg = v < 0;
    let mut n: u64 = if neg { (-(v as i64)) as u64 } else { v as u64 };
    let ghost m = n as nat;
    // Digits from the least significant one.
    let mut rev: Vec<char> = Vec::new();
    assert(m == if v < 0 { -v } else { v as int });
    assert(decimal(m) =~= decimal(n as nat) + rev@.reverse());
    loop
        invariant_except_break
            decimal(m) == decimal(n as nat) + rev@.reverse(),
        invariant
            n <= m,
            m <= 2147483648,
        ensures
            decimal(m) == rev@.reverse(),
        decreases n,
    {
        let c = digit_char(n % 10);
        assert(c == (((n % 10) + 48) as u32) as char);
        if n < 10 {
            proof {
                assert(n % 10 == n);
                assert(decimal(n as nat) == seq![c]);
            }
            let ghost before = rev@;
            rev.push(c);
            assert(rev@.reverse() =~= seq![c] + before.reverse());
            assert(decimal(m) =~= rev@.reverse());
            break;
        }
        let ghost before = rev@;
        rev.push(c);
        assert(decimal(n as nat) == decimal((n / 10) as nat).push(c));
        assert(rev@.reverse() =~= seq![c] + before.reverse());
        assert(decimal(m) =~= decimal((n / 10) as nat) + rev@.reverse());
        n = n / 10;
    }
    let mut out: Vec<char> = Vec::new();
    if neg {
        out.push('-');
    }
    let ghost prefix = out@;
    let mut i: usize = rev.len();
    while i > 0
        invariant
            i <= rev@.len(),
            out@ == prefix + rev@.reverse().take(rev@.len() - i),
        decreases i,
    {
        out.push(rev[i - 1]);
        assert(rev@.reverse().take(rev@.len() - i + 1) =~= rev@.reverse().take(rev@.len() - i).push(rev@[i - 1]));
        i -= 1;
    }
    assert(rev@.reverse().take(rev@.len() as int) =~= rev@.reverse());
    assert(out@ =~= i32_text(v));
    string_from_chars(&out)
}

//=========================================================================
// Laws
//=========================================================================

/// What a successful `init` or `set` wrote is what `get` reads back, and no
/// other variable appears, disappears or changes.
pub proof fn law_write_then_read(before: &CVarRegistry, after: &CVarRegistry, name: Seq<char>, v: CVarModel, other: Seq<char>)
    requires
        after.view() == before.view().insert(name, v),
    ensures
        after.view().contains_key(name),
        after.view()[name] == v,
        other != name ==> after.view().contains_key(other) == before.view().contains_key(other),
        other != name && before.view().contains_key(other) ==> after.view()[other] == before.view()[other],
{
}

/// `set` never changes which variables exist nor the kind of any of them,
/// whether it succeeds or fails.
pub proof fn law_set_keeps_kinds(before: &CVarRegistry, after: &CVarRegistry, name: Seq<char>, v: CVarModel)
    requires
        after.view() == before.view() || (before.view().contains_key(name) && same_kind(before.view()[name], v)
            && after.view() == before.view().insert(name, v)),
    ensures
        after.view().dom() == before.view().dom(),
        forall|k: Seq<char>| #[trigger] after.view().contains_key(k) ==> same_kind(before.view()[k], after.view()[k]),
{
    assert(after.view().dom() =~= before.view().dom());
    assert forall|k: Seq<char>| #[trigger] after.view().contains_key(k) implies same_kind(before.view()[k], after.view()[k]) by {
        if k != name || after.view() == before.view() {
            assert(after.view()[k] == before.view()[k]);
            match before.view()[k] {
                CVarModel::F32(_) => {},
                CVarModel::Int32(_) => {},
                CVarModel::Text(_) => {},
            }
        }
    }
}

/// A listing holds each variable once, in strictly increasing name order.
pub proof fn law_listing_sorted_and_distinct(r: &CVarRegistry, i: int, j: int)
    requires
        r.wf(),
        0 <= i < j < r.entries().len(),
    ensures
        seq_lt(r.entries()[i].0, r.entries()[j].0),
        r.entries()[i].0 != r.entries()[j].0,
        r.view().contains_key(r.entries()[i].0),
        r.view()[r.entries()[i].0] == r.entries()[i].1,
{
    crate::text::lemma_seq_lt_irreflexive(r.entries()[j].0);
    lemma_entries_lookup(r.entries(), i);
}

/// Which names are valid, character by character: the first character is an
/// ASCII letter of either case or `_`, every other one an ASCII letter of
/// either case, an ASCII digit, `_` or `.`, and there is at least one.
pub proof fn law_valid_name_characters(s: Seq<char>)
    ensures
        valid_name(s) <==> {
            &&& s.len() > 0
            &&& ('a' <= s[0] <= 'z' || 'A' <= s[0] <= 'Z' || s[0] == '_')
            &&& forall|i: int| 1 <= i < s.len() ==> ('a' <= #[trigger] s[i] <= 'z' || 'A' <= s[i] <= 'Z'
                || '0' <= s[i] <= '9' || s[i] == '_' || s[i] == '.')
        },
{
}

/// A new variable with a valid name is always accepted: `init` on a name
/// that is valid and not yet taken adds exactly that variable.
pub proof fn law_init_accepts_valid_new_names(before: &CVarRegistry, name: Seq<char>)
    requires
        name.len() > 0,
        'a' <= name[0] <= 'z' || 'A' <= name[0] <= 'Z' || name[0] == '_',
        forall|i: int| 1 <= i < name.len() ==> ('a' <= #[trigger] name[i] <= 'z' || 'A' <= name[i] <= 'Z'
            || '0' <= name[i] <= '9' || name[i] == '_' || name[i] == '.'),
    ensures
        valid_name(name),
{
}

} // verus!
