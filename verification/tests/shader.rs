use snowfall::shader::{split_sections, ShaderSourceContext};

fn s(v: &[char]) -> String {
    v.iter().collect()
}

#[test]
fn split_sections_groups_by_name_in_order() {
    let input = "ignored line\n[[section1]]\nThis is some content.\n\n[[ section2 ]]\nThis is some more content.\n\n[[section1]]\nMultiple sections of the same name are allowed.\n";
    let sections = split_sections(input);
    assert_eq!(sections.len(), 2);
    assert_eq!(s(&sections[0].0), "section1");
    let texts: Vec<String> = sections[0].1.iter().map(|t| s(t)).collect();
    assert_eq!(texts, vec!["This is some content.", "Multiple sections of the same name are allowed."]);
    assert_eq!(s(&sections[1].0), "section2");
    assert_eq!(s(&sections[1].1[0]), "This is some more content.");
}

#[test]
fn split_sections_without_headers_is_empty() {
    assert!(split_sections("just text\nmore text").is_empty());
    assert!(split_sections("").is_empty());
}

#[test]
fn split_sections_joins_lines_and_trims() {
    let sections = split_sections("[[a]]\r\n  one\r\ntwo  \r\n[[b]]");
    assert_eq!(sections.len(), 2);
    assert_eq!(s(&sections[0].1[0]), "one\ntwo");
    assert_eq!(s(&sections[1].1[0]), "");
}

#[test]
fn mixin_collects_bindings_and_declarations() {
    let mut ctx = ShaderSourceContext::default();
    let unknown = ctx.mixin("[[comment]]\nnotes\n[[binding]]\nvar<uniform> a: A;\n[[declaration]]\nstruct A {}\n[[extra]]\n?\n[[binding]]\nvar<uniform> b: B;");
    assert_eq!(ctx.bindings, vec!["var<uniform> a: A;", "var<uniform> b: B;"]);
    assert_eq!(ctx.declarations, vec!["struct A {}"]);
    assert_eq!(unknown, vec!["extra"]);
    let again = ctx.mixin("[[declaration]]\nstruct B {}");
    assert!(again.is_empty());
    assert_eq!(ctx.declarations, vec!["struct A {}", "struct B {}"]);
}

#[test]
fn mixin_reports_each_unknown_section() {
    let mut ctx = ShaderSourceContext::default();
    let unknown = ctx.mixin("[[extra]]\na\n[[other]]\nb\n[[extra]]\nc\n[[comment]]\nd");
    assert_eq!(unknown, vec!["extra", "extra", "other"]);
}
