use snowfall::ui_style::{node_style, token_style_of, Edges, Length, Side, StyleDirective};

fn one(token: &str) -> Option<StyleDirective> {
    let t: Vec<char> = token.chars().collect();
    token_style_of(&t)
}

#[test]
fn console_overlay_styles() {
    let styles = node_style("width-100% height-50% absolute top0 left0 flex-col p8 display-none z1000 bg-srgba-(0.0,0.0,0.0,0.925)");
    assert_eq!(styles.len(), 10);
    assert!(matches!(styles[0], StyleDirective::Width(Length::Percent(100))));
    assert!(matches!(styles[1], StyleDirective::Height(Length::Percent(50))));
    assert!(matches!(styles[2], StyleDirective::Absolute));
    assert!(matches!(styles[3], StyleDirective::Offset(Side::Top, 0)));
    assert!(matches!(styles[4], StyleDirective::Offset(Side::Left, 0)));
    assert!(matches!(styles[5], StyleDirective::FlexCol));
    assert!(matches!(styles[6], StyleDirective::Padding(Edges::All, 8)));
    assert!(matches!(styles[7], StyleDirective::DisplayNone));
    assert!(matches!(styles[8], StyleDirective::ZIndex(0)));
    match &styles[9] {
        StyleDirective::Background(r, g, b, a) => {
            assert_eq!((r.as_str(), g.as_str(), b.as_str(), a.as_str()), ("0.0", "0.0", "0.0", "0.925"));
        }
        _ => panic!("expected a background"),
    }
}

#[test]
fn unknown_tokens_set_nothing() {
    let styles = node_style("flex-col grow1 scroll-y bg-rgba(0.1,0.1,0.1,0.3)");
    assert_eq!(styles.len(), 3);
    assert!(matches!(styles[1], StyleDirective::Grow(1)));
    assert!(matches!(styles[2], StyleDirective::ScrollY));
    assert!(one("nonsense").is_none());
    assert!(one("top").is_none());
    assert!(one("top-5").is_none());
    assert!(one("width-%").is_none());
    assert!(one("z").is_none());
    assert!(one("bg-srgba-(1,2,3)").is_none());
    assert!(one("bg-srgba-(1,2,3,x)").is_none());
}

#[test]
fn numbers_must_fit_i32() {
    assert!(matches!(one("m2147483647"), Some(StyleDirective::Margin(Edges::All, 2147483647))));
    assert!(one("m2147483648").is_none());
    assert!(one("width-99999999999%").is_none());
    assert!(matches!(one("gap007"), Some(StyleDirective::Gap(7))));
}

#[test]
fn margin_and_padding_sides() {
    assert!(matches!(one("mt8"), Some(StyleDirective::Margin(Edges::Top, 8))));
    assert!(matches!(one("mb1"), Some(StyleDirective::Margin(Edges::Bottom, 1))));
    assert!(matches!(one("ml2"), Some(StyleDirective::Margin(Edges::Left, 2))));
    assert!(matches!(one("mr3"), Some(StyleDirective::Margin(Edges::Right, 3))));
    assert!(matches!(one("mx4"), Some(StyleDirective::Margin(Edges::Horizontal, 4))));
    assert!(matches!(one("my5"), Some(StyleDirective::Margin(Edges::Vertical, 5))));
    assert!(matches!(one("pt6"), Some(StyleDirective::Padding(Edges::Top, 6))));
    assert!(matches!(one("py9"), Some(StyleDirective::Padding(Edges::Vertical, 9))));
    assert!(matches!(one("width-40"), Some(StyleDirective::Width(Length::Px(40)))));
    assert!(matches!(one("bottom12"), Some(StyleDirective::Offset(Side::Bottom, 12))));
    assert!(matches!(one("right3"), Some(StyleDirective::Offset(Side::Right, 3))));
    assert!(matches!(one("flex-row-center"), Some(StyleDirective::FlexRowCenter)));
    assert!(matches!(one("flex-row"), Some(StyleDirective::FlexRow)));
    assert!(matches!(one("z37"), Some(StyleDirective::ZIndex(7))));
    assert!(matches!(one("z\u{663}1"), Some(StyleDirective::ZIndex(1))));
    assert!(one("z1\u{663}").is_none());
    assert!(one("z\u{663}").is_none());
    assert!(one("z1a").is_none());
    assert!(one("p\u{663}").is_none());
}
