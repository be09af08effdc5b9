//! Shader source assembly: splitting a mixin file into named sections and
//! collecting the sections that the shader template uses.
//!
//! A mixin file looks like this; sections of the same name may repeat:
//!
//! ```text
//! [[binding]]
//! @group(0) @binding(0) var<uniform> camera: Camera;
//!
//! [[declaration]]
//! struct Camera { ... }
//! ```
use vstd::prelude::*;
use crate::text::{
    is_ws, chars_eq, chars_of, join, join_chars, lines, split_lines, string_from_chars, string_views,
    trim, trim_chars, views,
};

verus! {

broadcast use vstd::string::group_string_axioms;

/// A section header: `[[` + name + `]]`.
pub open spec fn is_header(line: Seq<char>) -> bool {
    &&& line.len() >= 4
    &&& line.take(2) == "[["@
    &&& line.skip(line.len() - 2) == "]]"@
}

/// The name in a section header, without surrounding whitespace.
pub open spec fn header_name(line: Seq<char>) -> Seq<char> {
    trim(line.subrange(2, line.len() - 2))
}

/// The text of a section: its lines joined with newlines, trimmed.
pub open spec fn section_text(content: Seq<Seq<char>>) -> Seq<char> {
    trim(join(content, "\n"@))
}

/// Left-to-right scan over the lines: the finished sections as (name, text)
/// pairs, the name of the section being read (none before the first
/// header) and its lines so far.
pub open spec fn section_scan(ls: Seq<Seq<char>>) -> (Seq<(Seq<char>, Seq<char>)>, Option<Seq<char>>, Seq<Seq<char>>)
    decreases ls.len(),
{
    if ls.len() == 0 {
        (Seq::empty(), None, Seq::empty())
    } else {
        let prev = section_scan(ls.drop_last());
        let line = ls.last();
        if is_header(line) {
            let done = match prev.1 {
                Some(n) => prev.0.push((n, section_text(prev.2))),
                None => prev.0,
            };
            (done, Some(header_name(line)), Seq::empty())
        } else {
            (prev.0, prev.1, prev.2.push(line))
        }
    }
}

/// The sections of `input` in file order, as (name, text) pairs.  Lines
/// before the first header belong to no section.
pub open spec fn section_blocks(input: Seq<char>) -> Seq<(Seq<char>, Seq<char>)> {
    let st = section_scan(lines(input));
    match st.1 {
        Some(n) => st.0.push((n, section_text(st.2))),
        None => st.0,
    }
}

/// Adds `text` to the list of section `name`, creating it at the end if new.
pub open spec fn add_to_group(g: Seq<(Seq<char>, Seq<Seq<char>>)>, name: Seq<char>, text: Seq<char>) -> Seq<(Seq<char>, Seq<Seq<char>>)> {
    if exists|i: int| 0 <= i < g.len() && g[i].0 == name {
        let i = group_index(g, name);
        g.update(i, (name, g[i].1.push(text)))
    } else {
        g.push((name, seq![text]))
    }
}

/// An index at which `g` holds the name `name`.
pub open spec fn group_index(g: Seq<(Seq<char>, Seq<Seq<char>>)>, name: Seq<char>) -> int {
    choose|i: int| 0 <= i < g.len() && g[i].0 == name
}

/// Sections grouped by name, names in order of first appearance.
pub open spec fn grouped(blocks: Seq<(Seq<char>, Seq<char>)>) -> Seq<(Seq<char>, Seq<Seq<char>>)>
    decreases blocks.len(),
{
    if blocks.len() == 0 {
        Seq::empty()
    } else {
        add_to_group(grouped(blocks.drop_last()), blocks.last().0, blocks.last().1)
    }
}

/// The distinct names of a grouping.
pub open spec fn distinct_names(g: Seq<(Seq<char>, Seq<Seq<char>>)>) -> bool {
    forall|i: int, j: int| 0 <= i < j < g.len() ==> g[i].0 != g[j].0
}

/// Models of a grouping held in vectors.
pub open spec fn group_views(v: Seq<(Vec<char>, Vec<Vec<char>>)>) -> Seq<(Seq<char>, Seq<Seq<char>>)> {
    v.map_values(|e: (Vec<char>, Vec<Vec<char>>)| (e.0@, views(e.1@)))
}

proof fn lemma_add_to_group_distinct(g: Seq<(Seq<char>, Seq<Seq<char>>)>, name: Seq<char>, text: Seq<char>)
    requires
        distinct_names(g),
    ensures
        distinct_names(add_to_group(g, name, text)),
{
    if exists|i: int| 0 <= i < g.len() && g[i].0 == name {
        let i = group_index(g, name);
        let g2 = g.update(i, (name, g[i].1.push(text)));
        assert forall|a: int, b: int| 0 <= a < b < g2.len() implies g2[a].0 != g2[b].0 by {
            assert(g2[a].0 == g[a].0 && g2[b].0 == g[b].0);
        }
    }
}

/// Adds a section to a grouping held in vectors.
fn add_section(g: &mut Vec<(Vec<char>, Vec<Vec<char>>)>, name: Vec<char>, text: Vec<char>)
    requires
        distinct_names(group_views(old(g)@)),
    ensures
        group_views(final(g)@) == add_to_group(group_views(old(g)@), name@, text@),
        distinct_names(group_views(final(g)@)),
{
    let ghost gv = group_views(g@);
    proof { lemma_add_to_group_distinct(gv, name@, text@); }
    let mut i: usize = 0;
    while i < g.len()
        invariant
            i <= g@.len(),
            gv == group_views(g@),
            gv == group_views(old(g)@),
            distinct_names(gv),
            forall|k: int| 0 <= k < i ==> #[trigger] gv[k].0 != name@,
        decreases g.len() - i,
    {
        if chars_eq(&g[i].0, &name) {
            assert(gv[i as int].0 == name@);
            assert(exists|q: int| 0 <= q < gv.len() && gv[q].0 == name@);
            let ghost c = group_index(gv, name@);
            assert(c == i) by {
                if c != i {
                    if c < i {
                        assert(gv[c].0 != name@);
                    } else {
                        assert(gv[i as int].0 != gv[c].0);
                    }
                }
            }
            let ghost g0 = g@;
            let mut entry = g.remove(i);
            assert(entry == g0[i as int]);
            let ghost t = text@;
            entry.1.push(text);
            assert(views(entry.1@) =~= views(g0[i as int].1@).push(t));
            g.insert(i, entry);
            assert(g@ =~= g0.update(i as int, entry));
            assert(group_views(g@) =~= gv.update(i as int, (name@, gv[i as int].1.push(t))));
            return;
        }
        i += 1;
    }
    assert(!exists|q: int| 0 <= q < gv.len() && gv[q].0 == name@);
    let mut list: Vec<Vec<char>> = Vec::new();
    list.push(text);
    assert(views(list@) =~= seq![text@]);
    g.push((name, list));
    assert(group_views(g@) =~= gv.push((name@, seq![text@])));
}

/// The name in a header line, or `None` when the line is not a header.
fn header_of(line: &Vec<char>) -> (r: Option<Vec<char>>)
    ensures
        match r {
            Some(n) => is_header(line@) && n@ == header_name(line@),
            None => !is_header(line@),
        },
{
    proof {
        reveal_strlit("[[");
        reveal_strlit("]]");
    }
    let n = line.len();
    if n < 4 || line[0] != '[' || line[1] != '[' || line[n - 2] != ']' || line[n - 1] != ']' {
        proof {
            if n >= 4 {
                if line@[0] != '[' { assert(line@.take(2)[0] != "[["@[0]); }
                if line@[1] != '[' { assert(line@.take(2)[1] != "[["@[1]); }
                if line@[n - 2] != ']' { assert(line@.skip(n - 2)[0] != "]]"@[0]); }
                if line@[n - 1] != ']' { assert(line@.skip(n - 2)[1] != "]]"@[1]); }
            }
        }
        return None;
    }
    assert(line@.take(2) =~= "[["@);
    assert(line@.skip(n - 2) =~= "]]"@);
    let mut inner: Vec<char> = Vec::new();
    let mut k: usize = 2;
    while k < n - 2
        invariant
            n == line@.len(),
            n >= 4,
            2 <= k <= n - 2,
            inner@ == line@.subrange(2, k as int),
        decreases n - 2 - k,
    {
        inner.push(line[k]);
        assert(line@.subrange(2, k + 1) =~= line@.subrange(2, k as int).push(line@[k as int]));
        k += 1;
    }
    Some(trim_chars(&inner))
}

/// The trimmed, newline-joined text of a section's lines.
fn finish_section(content: &Vec<Vec<char>>) -> (t: Vec<char>)
    ensures
        t@ == section_text(views(content@)),
{
    let nl = chars_of("\n");
    let joined = join_chars(content, &nl);
    trim_chars(&joined)
}

/// Splits `input` into its sections, grouped by name: each name (in order
/// of first appearance) with the texts of its sections in file order.
pub fn split_sections(input: &str) -> (sections: Vec<(Vec<char>, Vec<Vec<char>>)>)
    ensures
        group_views(sections@) == grouped(section_blocks(input@)),
        distinct_names(group_views(sections@)),
{
    let cs = chars_of(input);
    let ls = split_lines(&cs);
    let ghost lv = views(ls@);
    let mut sections: Vec<(Vec<char>, Vec<Vec<char>>)> = Vec::new();
    let mut current_name: Option<Vec<char>> = None;
    let mut current_content: Vec<Vec<char>> = Vec::new();
    let mut i: usize = 0;
    while i < ls.len()
        invariant
            i <= ls@.len(),
            lv == views(ls@),
            lv == lines(input@),
            distinct_names(group_views(sections@)),
            ({
                let st = section_scan(lv.take(i as int));
                &&& group_views(sections@) == grouped(st.0)
                &&& match current_name {
                    Some(n) => st.1 == Some(n@),
                    None => st.1 is None,
                }
                &&& views(current_content@) == st.2
            }),
        decreases ls.len() - i,
    {
        let ghost prev = section_scan(lv.take(i as int));
        assert(lv.take(i + 1).drop_last() =~= lv.take(i as int));
        assert(lv.take(i + 1).last() == ls@[i as int]@);
        match header_of(&ls[i]) {
            Some(name) => {
                match current_name {
                    Some(n) => {
                        let text = finish_section(&current_content);
                        add_section(&mut sections, n, text);
                        assert(prev.0.push((prev.1->0, section_text(prev.2))).drop_last() =~= prev.0);
                        assert(grouped(prev.0.push((prev.1->0, section_text(prev.2))))
                            == add_to_group(grouped(prev.0), prev.1->0, section_text(prev.2)));
                    },
                    None => {},
                }
                current_name = Some(name);
                current_content = Vec::new();
                assert(views(current_content@) =~= Seq::<Seq<char>>::empty());
            },
            None => {
                let line = ls[i].clone();
                current_content.push(line);
                assert(views(current_content@) =~= prev.2.push(lv[i as int]));
            },
        }
        i += 1;
    }
    assert(lv.take(ls@.len() as int) =~= lv);
    let ghost st = section_scan(lv);
    match current_name {
        Some(n) => {
            let text = finish_section(&current_content);
            add_section(&mut sections, n, text);
            assert(st.0.push((st.1->0, section_text(st.2))).drop_last() =~= st.0);
            assert(grouped(st.0.push((st.1->0, section_text(st.2))))
                == add_to_group(grouped(st.0), st.1->0, section_text(st.2)));
        },
        None => {},
    }
    sections
}


/// The texts of the sections named `name`, in file order.
pub open spec fn section_texts(g: Seq<(Seq<char>, Seq<Seq<char>>)>, name: Seq<char>) -> Seq<Seq<char>> {
    if exists|i: int| 0 <= i < g.len() && g[i].0 == name {
        g[group_index(g, name)].1
    } else {
        Seq::empty()
    }
}

/// The names of the sections that a shader does not use, one entry per
/// section (a name repeats as often as its sections), grouped by name in
/// order of first appearance.
pub open spec fn unknown_names(g: Seq<(Seq<char>, Seq<Seq<char>>)>) -> Seq<Seq<char>>
    decreases g.len(),
{
    if g.len() == 0 {
        Seq::empty()
    } else {
        let n = g.last().0;
        let rest = unknown_names(g.drop_last());
        if n == "comment"@ || n == "binding"@ || n == "declaration"@ {
            rest
        } else {
            rest + Seq::new(g.last().1.len(), |_k: int| n)
        }
    }
}

/// The sections collected for the shader template.
pub struct ShaderSourceContext {
    pub bindings: Vec<String>,
    pub declarations: Vec<String>,
}

impl Default for ShaderSourceContext {
    fn default() -> (c: Self)
        ensures
            c.bindings@ == Seq::<String>::empty(),
            c.declarations@ == Seq::<String>::empty(),
    {
        ShaderSourceContext { bindings: Vec::new(), declarations: Vec::new() }
    }
}

impl ShaderSourceContext {
    /// Adds the `binding` and `declaration` sections of a mixin file;
    /// `comment` sections are skipped.  Returns the name of each other
    /// section, once per section, for the caller to report as unknown.
    pub fn mixin(&mut self, content: &str) -> (unknown: Vec<String>)
        ensures
            string_views(final(self).bindings@) == string_views(old(self).bindings@)
                + section_texts(grouped(section_blocks(content@)), "binding"@),
            string_views(final(self).declarations@) == string_views(old(self).declarations@)
                + section_texts(grouped(section_blocks(content@)), "declaration"@),
            string_views(unknown@) == unknown_names(grouped(section_blocks(content@))),
    {
        let sections = split_sections(content);
        let ghost g = group_views(sections@);
        proof {
            reveal_strlit("comment");
            reveal_strlit("binding");
            reveal_strlit("declaration");
            assert("binding"@ != "declaration"@ && "binding"@ != "comment"@ && "comment"@ != "declaration"@) by {
                assert("binding"@[0] != "declaration"@[0]);
                assert("binding"@[0] != "comment"@[0]);
                assert("comment"@[0] != "declaration"@[0]);
            }
        }
        let comment = chars_of("comment");
        let binding = chars_of("binding");
        let declaration = chars_of("declaration");
        let mut unknown: Vec<String> = Vec::new();
        let mut i: usize = 0;
        while i < sections.len()
            invariant
                i <= sections@.len(),
                g == group_views(sections@),
                g == grouped(section_blocks(content@)),
                distinct_names(g),
                comment@ == "comment"@,
                binding@ == "binding"@,
                declaration@ == "declaration"@,
                "binding"@ != "declaration"@,
                "binding"@ != "comment"@,
                "comment"@ != "declaration"@,
                string_views(self.bindings@) == string_views(old(self).bindings@)
                    + section_texts(g.take(i as int), "binding"@),
                string_views(self.declarations@) == string_views(old(self).declarations@)
                    + section_texts(g.take(i as int), "declaration"@),
                string_views(unknown@) == unknown_names(g.take(i as int)),
            decreases sections.len() - i,
        {
            let name = &sections[i].0;
            let texts = &sections[i].1;
            assert(g.take(i + 1).drop_last() =~= g.take(i as int));
            proof { lemma_section_texts_step(g, i as int, "binding"@); }
            proof { lemma_section_texts_step(g, i as int, "declaration"@); }
            if chars_eq(name, &binding) {
                append_texts(&mut self.bindings, texts);
            } else if chars_eq(name, &declaration) {
                append_texts(&mut self.declarations, texts);
            } else if !chars_eq(name, &comment) {
                let ghost before = string_views(unknown@);
                let mut k: usize = 0;
                while k < texts.len()
                    invariant
                        k <= texts@.len(),
                        string_views(unknown@) == before + Seq::new(k as nat, |_j: int| name@),
                    decreases texts.len() - k,
                {
                    let n = string_from_chars(name);
                    proof { lemma_string_views_push(unknown@, n); }
                    unknown.push(n);
                    assert(before + Seq::new((k + 1) as nat, |_j: int| name@)
                        =~= (before + Seq::new(k as nat, |_j: int| name@)).push(name@));
                    k += 1;
                }
                assert(g[i as int].1.len() == texts@.len());
            }
            i += 1;
        }
        assert(g.take(i as int) =~= g);
        unknown
    }
}

proof fn lemma_string_views_push(v: Seq<String>, x: String)
    ensures
        string_views(v.push(x)) == string_views(v).push(x@),
{
    assert(string_views(v.push(x)) =~= string_views(v).push(x@));
}

/// Texts of a name in a prefix of a grouping with distinct names grow by
/// the next entry's texts when that entry has the name.
proof fn lemma_section_texts_step(g: Seq<(Seq<char>, Seq<Seq<char>>)>, i: int, name: Seq<char>)
    requires
        distinct_names(g),
        0 <= i < g.len(),
    ensures
        section_texts(g.take(i + 1), name) == section_texts(g.take(i), name) + (if g[i].0 == name { g[i].1 } else { Seq::empty() }),
{
    let p = g.take(i);
    let q = g.take(i + 1);
    if g[i].0 == name {
        assert(q[i].0 == name);
        let c = group_index(q, name);
        assert(c == i) by {
            if c != i { assert(q[c].0 == g[c].0); }
        }
        assert(!exists|k: int| 0 <= k < p.len() && p[k].0 == name) by {
            if exists|k: int| 0 <= k < p.len() && p[k].0 == name {
                let k = choose|k: int| 0 <= k < p.len() && p[k].0 == name;
                assert(g[k].0 == name);
            }
        }
        assert(section_texts(p, name) =~= Seq::<Seq<char>>::empty());
        assert(section_texts(q, name) =~= Seq::<Seq<char>>::empty() + g[i].1);
    } else {
        if exists|k: int| 0 <= k < p.len() && p[k].0 == name {
            let k = choose|k: int| 0 <= k < p.len() && p[k].0 == name;
            assert(q[k].0 == name);
            let c1 = group_index(p, name);
            let c2 = group_index(q, name);
            assert(c1 == c2) by {
                assert(g[c1].0 == name && g[c2].0 == name);
                if c1 != c2 {
                    if c1 < c2 { assert(g[c1].0 != g[c2].0); } else { assert(g[c2].0 != g[c1].0); }
                }
            }
            assert(section_texts(q, name) =~= section_texts(p, name) + Seq::<Seq<char>>::empty());
        } else {
            assert(!exists|k: int| 0 <= k < q.len() && q[k].0 == name) by {
                if exists|k: int| 0 <= k < q.len() && q[k].0 == name {
                    let k = choose|k: int| 0 <= k < q.len() && q[k].0 == name;
                    assert(k != i);
                    assert(p[k].0 == name);
                }
            }
            assert(section_texts(q, name) =~= section_texts(p, name) + Seq::<Seq<char>>::empty());
        }
    }
}

/// Appends the texts to a list of strings.
fn append_texts(dst: &mut Vec<String>, texts: &Vec<Vec<char>>)
    ensures
        string_views(final(dst)@) == string_views(old(dst)@) + views(texts@),
{
    let mut k: usize = 0;
    while k < texts.len()
        invariant
            k <= texts@.len(),
            string_views(dst@) == string_views(old(dst)@) + views(texts@).take(k as int),
        decreases texts.len() - k,
    {
        let t = string_from_chars(&texts[k]);
        proof { lemma_string_views_push(dst@, t); }
        dst.push(t);
        assert(views(texts@).take(k + 1) =~= views(texts@).take(k as int).push(texts@[k as int]@));
        k += 1;
    }
    assert(views(texts@).take(k as int) =~= views(texts@));
}


//=========================================================================
// Laws
//=========================================================================

/// The texts of the sections named `name`, in file order.
pub open spec fn texts_named(blocks: Seq<(Seq<char>, Seq<char>)>, name: Seq<char>) -> Seq<Seq<char>>
    decreases blocks.len(),
{
    if blocks.len() == 0 {
        Seq::empty()
    } else {
        let prev = texts_named(blocks.drop_last(), name);
        if blocks.last().0 == name { prev.push(blocks.last().1) } else { prev }
    }
}

proof fn lemma_group_index_unique(g: Seq<(Seq<char>, Seq<Seq<char>>)>, name: Seq<char>, i: int)
    requires
        distinct_names(g),
        0 <= i < g.len(),
        g[i].0 == name,
    ensures
        group_index(g, name) == i,
{
    let c = group_index(g, name);
    if c != i {
        if c < i {
            assert(g[c].0 != g[i].0);
        } else {
            assert(g[i].0 != g[c].0);
        }
    }
}

/// Sections of the same name may repeat: grouping keeps each name once, and
/// under a name it collects the texts of all sections of that name, in file
/// order.
pub proof fn law_grouping_keeps_file_order(blocks: Seq<(Seq<char>, Seq<char>)>, name: Seq<char>)
    ensures
        distinct_names(grouped(blocks)),
        section_texts(grouped(blocks), name) == texts_named(blocks, name),
    decreases blocks.len(),
{
    if blocks.len() > 0 {
        let prev = blocks.drop_last();
        let (n, t) = blocks.last();
        law_grouping_keeps_file_order(prev, name);
        law_grouping_keeps_file_order(prev, n);
        let g = grouped(prev);
        lemma_add_to_group_distinct(g, n, t);
        let g2 = grouped(blocks);
        assert(g2 == add_to_group(g, n, t));
        if exists|i: int| 0 <= i < g.len() && g[i].0 == n {
            let i = group_index(g, n);
            assert(g2 == g.update(i, (n, g[i].1.push(t))));
            if n == name {
                lemma_group_index_unique(g2, name, i);
                assert(g2[i].0 == name);
                assert(section_texts(g2, name) == g[i].1.push(t));
                lemma_group_index_unique(g, name, i);
                assert(section_texts(g, name) == g[i].1);
                assert(texts_named(blocks, name) == texts_named(prev, name).push(t));
            } else if exists|j: int| 0 <= j < g.len() && g[j].0 == name {
                let j = group_index(g, name);
                assert(g2[j].0 == name);
                lemma_group_index_unique(g2, name, j);
                assert(section_texts(g2, name) == g[j].1);
                assert(texts_named(blocks, name) == texts_named(prev, name));
            } else {
                assert(!exists|j: int| 0 <= j < g2.len() && g2[j].0 == name) by {
                    if exists|j: int| 0 <= j < g2.len() && g2[j].0 == name {
                        let j = choose|j: int| 0 <= j < g2.len() && g2[j].0 == name;
                        assert(g[j].0 == name);
                    }
                }
                assert(texts_named(blocks, name) == texts_named(prev, name));
            }
        } else {
            assert(g2 == g.push((n, seq![t])));
            if n == name {
                lemma_group_index_unique(g2, name, g.len() as int);
                assert(section_texts(g2, name) == seq![t]);
                assert(!exists|j: int| 0 <= j < g.len() && g[j].0 == name);
                assert(texts_named(prev, name) =~= Seq::<Seq<char>>::empty());
                assert(seq![t] =~= Seq::<Seq<char>>::empty().push(t));
            } else if exists|j: int| 0 <= j < g.len() && g[j].0 == name {
                let j = group_index(g, name);
                assert(g2[j].0 == name);
                lemma_group_index_unique(g2, name, j);
                assert(section_texts(g2, name) == g[j].1);
            } else {
                assert(!exists|j: int| 0 <= j < g2.len() && g2[j].0 == name) by {
                    if exists|j: int| 0 <= j < g2.len() && g2[j].0 == name {
                        let j = choose|j: int| 0 <= j < g2.len() && g2[j].0 == name;
                        if j < g.len() {
                            assert(g[j].0 == name);
                        }
                    }
                }
            }
        }
    }
}

proof fn lemma_join_first(list: Seq<Seq<char>>, sep: Seq<char>)
    requires
        list.len() > 0,
        list[0].len() > 0,
    ensures
        join(list, sep).len() > 0,
        join(list, sep)[0] == list[0][0],
    decreases list.len(),
{
    if list.len() > 1 {
        lemma_join_first(list.drop_last(), sep);
    }
}

/// A section keeps every one of its lines, blank lines between code
/// included: when its first line begins and its last line ends with a
/// character that is not whitespace, its text is exactly its lines joined
/// with newlines.
pub proof fn law_section_text_keeps_lines(content: Seq<Seq<char>>)
    requires
        content.len() > 0,
        content[0].len() > 0,
        !is_ws(content[0][0]),
        content.last().len() > 0,
        !is_ws(content.last().last()),
    ensures
        section_text(content) == join(content, "\n"@),
{
    let all = join(content, "\n"@);
    lemma_join_first(content, "\n"@);
    assert(all.last() == content.last().last()) by {
        if content.len() > 1 {
            assert(all == join(content.drop_last(), "\n"@) + "\n"@ + content.last());
        }
    }
    assert(crate::text::trim_start(all) == all);
    assert(crate::text::trim_end(all) == all);
}

} // verus!
