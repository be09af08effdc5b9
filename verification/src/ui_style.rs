//! The console's tailwind-like style shorthand: a line of whitespace-separated
//! tokens such as `absolute top0 width-100% p8 z1000 bg-srgba-(0.0,0.0,0.0,0.9)`,
//! each naming one layout property of a UI node.
//!
//! Each token is matched as a whole.  A token that matches no form, or whose
//! number is not a run of ASCII digits that fits an `i32`, sets nothing.  Colour components are handed
//! on as the text between the commas; turning them into numbers is left to
//! the caller.
use vstd::prelude::*;
use crate::text::{
    char_code, chars_eq, chars_of, has_prefix, slice_chars, split_on, split_on_char, split_whitespace,
    split_ws, starts_with, string_from_chars, views,
};

verus! {

broadcast use vstd::string::group_string_axioms;

/// A side of a node, for absolute offsets.
#[derive(Debug, Clone, Copy, PartialEq, Eq, Structural)]
pub enum Side {
    Top,
    Left,
    Bottom,
    Right,
}

/// The sides a margin or padding applies to.
#[derive(Debug, Clone, Copy, PartialEq, Eq, Structural)]
pub enum Edges {
    Top,
    Bottom,
    Left,
    Right,
    Horizontal,
    Vertical,
    All,
}

/// A length in pixels or in percent of the parent.
#[derive(Debug, Clone, Copy, PartialEq, Eq, Structural)]
pub enum Length {
    Px(i32),
    Percent(i32),
}

/// One property set by a style token.
#[derive(Debug, Clone)]
pub enum StyleDirective {
    /// `absolute`
    Absolute,
    /// `top<n>`, `left<n>`, `bottom<n>`, `right<n>`: an offset in pixels.
    Offset(Side, i32),
    /// `width-<n>` or `width-<n>%`
    Width(Length),
    /// `height-<n>` or `height-<n>%`
    Height(Length),
    /// `z<digits>`: the stacking order, which is the last digit written
    /// (any decimal digits may come before it).
    ZIndex(i32),
    /// `display-none`
    DisplayNone,
    /// `flex-row`
    FlexRow,
    /// `flex-row-center`: a row with its items centred across it.
    FlexRowCenter,
    /// `flex-col`
    FlexCol,
    /// `gap<n>`: the gap between rows and between columns, in pixels.
    Gap(i32),
    /// `grow<n>`
    Grow(i32),
    /// `scroll-y`
    ScrollY,
    /// `mt<n>`, `mb<n>`, `ml<n>`, `mr<n>`, `mx<n>`, `my<n>`, `m<n>`: the
    /// margin, set on the named sides only (the others become zero).
    Margin(Edges, i32),
    /// `pt<n>` ... `p<n>`: the padding, likewise.
    Padding(Edges, i32),
    /// `bg-srgba-(r,g,b,a)`: the background colour's four components, as
    /// written.
    Background(String, String, String, String),
}

/// The mathematical form of a [`StyleDirective`].
pub enum StyleSpec {
    Absolute,
    Offset(Side, i32),
    Width(Length),
    Height(Length),
    ZIndex(i32),
    DisplayNone,
    FlexRow,
    FlexRowCenter,
    FlexCol,
    Gap(i32),
    Grow(i32),
    ScrollY,
    Margin(Edges, i32),
    Padding(Edges, i32),
    Background(Seq<char>, Seq<char>, Seq<char>, Seq<char>),
}

impl StyleDirective {
    pub open spec fn model(&self) -> StyleSpec {
        match self {
            StyleDirective::Absolute => StyleSpec::Absolute,
            StyleDirective::Offset(s, v) => StyleSpec::Offset(*s, *v),
            StyleDirective::Width(l) => StyleSpec::Width(*l),
            StyleDirective::Height(l) => StyleSpec::Height(*l),
            StyleDirective::ZIndex(v) => StyleSpec::ZIndex(*v),
            StyleDirective::DisplayNone => StyleSpec::DisplayNone,
            StyleDirective::FlexRow => StyleSpec::FlexRow,
            StyleDirective::FlexRowCenter => StyleSpec::FlexRowCenter,
            StyleDirective::FlexCol => StyleSpec::FlexCol,
            StyleDirective::Gap(v) => StyleSpec::Gap(*v),
            StyleDirective::Grow(v) => StyleSpec::Grow(*v),
            StyleDirective::ScrollY => StyleSpec::ScrollY,
            StyleDirective::Margin(e, v) => StyleSpec::Margin(*e, *v),
            StyleDirective::Padding(e, v) => StyleSpec::Padding(*e, *v),
            StyleDirective::Background(r, g, b, a) => StyleSpec::Background(r@, g@, b@, a@),
        }
    }
}

/// Models of a list of directives.
pub open spec fn style_models(v: Seq<StyleDirective>) -> Seq<StyleSpec> {
    v.map_values(|d: StyleDirective| d.model())
}

//=========================================================================
// Numbers
//=========================================================================

pub open spec fn is_digit(c: char) -> bool {
    '0' <= c && c <= '9'
}

/// A non-empty run of ASCII digits.
pub open spec fn all_digits(s: Seq<char>) -> bool {
    s.len() > 0 && forall|i: int| 0 <= i < s.len() ==> is_digit(#[trigger] s[i])
}

pub open spec fn digit_value(c: char) -> int {
    (c as u32) - ('0' as u32)
}

/// The decimal number written by the digits `s`.
pub open spec fn digits_value(s: Seq<char>) -> int
    decreases s.len(),
{
    if s.len() == 0 {
        0
    } else {
        10 * digits_value(s.drop_last()) + digit_value(s.last())
    }
}

/// The `i32` written by `s` (`str::parse::<i32>` of a run of digits), if `s`
/// is such a run and its number fits.
pub open spec fn int_arg(s: Seq<char>) -> Option<i32> {
    if all_digits(s) && digits_value(s) <= i32::MAX {
        Some(digits_value(s) as i32)
    } else {
        None
    }
}

/// The number after the prefix `p` of token `t`.
pub open spec fn numbered(t: Seq<char>, p: Seq<char>) -> Option<i32> {
    if has_prefix(t, p) {
        int_arg(t.skip(p.len() as int))
    } else {
        None
    }
}

/// A length after `p`: a number, or a number and `%`.
pub open spec fn length_after(t: Seq<char>, p: Seq<char>) -> Option<Length> {
    if !has_prefix(t, p) {
        None
    } else {
        let rest = t.skip(p.len() as int);
        match int_arg(rest) {
            Some(v) => Some(Length::Px(v)),
            None => if rest.len() > 0 && rest.last() == '%' {
                match int_arg(rest.drop_last()) {
                    Some(v) => Some(Length::Percent(v)),
                    None => None,
                }
            } else {
                None
            },
        }
    }
}

/// A Unicode decimal digit (general category `Nd`, as of Unicode 15.0):
/// what `\d` matches in a Unicode regular expression.
pub open spec fn is_decimal_digit(c: char) -> bool {
    let u = c as u32;
    (0x30 <= u && u <= 0x39) || (0x660 <= u && u <= 0x669) || (0x6f0 <= u && u <= 0x6f9) ||
    (0x7c0 <= u && u <= 0x7c9) || (0x966 <= u && u <= 0x96f) || (0x9e6 <= u && u <= 0x9ef) ||
    (0xa66 <= u && u <= 0xa6f) || (0xae6 <= u && u <= 0xaef) || (0xb66 <= u && u <= 0xb6f) ||
    (0xbe6 <= u && u <= 0xbef) || (0xc66 <= u && u <= 0xc6f) || (0xce6 <= u && u <= 0xcef) ||
    (0xd66 <= u && u <= 0xd6f) || (0xde6 <= u && u <= 0xdef) || (0xe50 <= u && u <= 0xe59) ||
    (0xed0 <= u && u <= 0xed9) || (0xf20 <= u && u <= 0xf29) || (0x1040 <= u && u <= 0x1049) ||
    (0x1090 <= u && u <= 0x1099) || (0x17e0 <= u && u <= 0x17e9) ||
    (0x1810 <= u && u <= 0x1819) || (0x1946 <= u && u <= 0x194f) ||
    (0x19d0 <= u && u <= 0x19d9) || (0x1a80 <= u && u <= 0x1a89) ||
    (0x1a90 <= u && u <= 0x1a99) || (0x1b50 <= u && u <= 0x1b59) ||
    (0x1bb0 <= u && u <= 0x1bb9) || (0x1c40 <= u && u <= 0x1c49) ||
    (0x1c50 <= u && u <= 0x1c59) || (0xa620 <= u && u <= 0xa629) ||
    (0xa8d0 <= u && u <= 0xa8d9) || (0xa900 <= u && u <= 0xa909) ||
    (0xa9d0 <= u && u <= 0xa9d9) || (0xa9f0 <= u && u <= 0xa9f9) ||
    (0xaa50 <= u && u <= 0xaa59) || (0xabf0 <= u && u <= 0xabf9) ||
    (0xff10 <= u && u <= 0xff19) || (0x104a0 <= u && u <= 0x104a9) ||
    (0x10d30 <= u && u <= 0x10d39) || (0x11066 <= u && u <= 0x1106f) ||
    (0x110f0 <= u && u <= 0x110f9) || (0x11136 <= u && u <= 0x1113f) ||
    (0x111d0 <= u && u <= 0x111d9) || (0x112f0 <= u && u <= 0x112f9) ||
    (0x11450 <= u && u <= 0x11459) || (0x114d0 <= u && u <= 0x114d9) ||
    (0x11650 <= u && u <= 0x11659) || (0x116c0 <= u && u <= 0x116c9) ||
    (0x11730 <= u && u <= 0x11739) || (0x118e0 <= u && u <= 0x118e9) ||
    (0x11950 <= u && u <= 0x11959) || (0x11c50 <= u && u <= 0x11c59) ||
    (0x11d50 <= u && u <= 0x11d59) || (0x11da0 <= u && u <= 0x11da9) ||
    (0x11f50 <= u && u <= 0x11f59) || (0x16a60 <= u && u <= 0x16a69) ||
    (0x16ac0 <= u && u <= 0x16ac9) || (0x16b50 <= u && u <= 0x16b59) ||
    (0x1d7ce <= u && u <= 0x1d7ff) || (0x1e140 <= u && u <= 0x1e149) ||
    (0x1e2f0 <= u && u <= 0x1e2f9) || (0x1e4f0 <= u && u <= 0x1e4f9) ||
    (0x1e950 <= u && u <= 0x1e959) || (0x1fbf0 <= u && u <= 0x1fbf9)
}

/// The stacking order of a `z` token: `z` and one or more decimal digits,
/// of which only the last one counts.  When that last digit is not an ASCII
/// digit its value does not parse, and the token sets nothing.
pub open spec fn z_arg(t: Seq<char>) -> Option<i32> {
    if has_prefix(t, "z"@) && t.len() > 1 && (forall|i: int| 1 <= i < t.len() ==> is_decimal_digit(#[trigger] t[i]))
        && is_digit(t.last()) {
        Some(digit_value(t.last()) as i32)
    } else {
        None
    }
}

/// A colour component as written: digits and dots.
pub open spec fn is_component(s: Seq<char>) -> bool {
    s.len() > 0 && forall|i: int| 0 <= i < s.len() ==> is_digit(#[trigger] s[i]) || s[i] == '.'
}

/// The four components of a `bg-srgba-(r,g,b,a)` token.
pub open spec fn background_arg(t: Seq<char>) -> Option<Seq<Seq<char>>> {
    if has_prefix(t, "bg-srgba-("@) && t.len() > 10 && t.last() == ')' {
        let parts = split_on(t.subrange(10, t.len() - 1), ',');
        if parts.len() == 4 && forall|i: int| 0 <= i < 4 ==> is_component(#[trigger] parts[i]) {
            Some(parts)
        } else {
            None
        }
    } else {
        None
    }
}

/// What one token sets.  The forms never overlap, so at most one applies.
pub open spec fn token_style(t: Seq<char>) -> Option<StyleSpec> {
    if t == "absolute"@ {
        Some(StyleSpec::Absolute)
    } else if numbered(t, "top"@) is Some {
        Some(StyleSpec::Offset(Side::Top, numbered(t, "top"@)->0))
    } else if numbered(t, "left"@) is Some {
        Some(StyleSpec::Offset(Side::Left, numbered(t, "left"@)->0))
    } else if numbered(t, "bottom"@) is Some {
        Some(StyleSpec::Offset(Side::Bottom, numbered(t, "bottom"@)->0))
    } else if numbered(t, "right"@) is Some {
        Some(StyleSpec::Offset(Side::Right, numbered(t, "right"@)->0))
    } else if length_after(t, "width-"@) is Some {
        Some(StyleSpec::Width(length_after(t, "width-"@)->0))
    } else if length_after(t, "height-"@) is Some {
        Some(StyleSpec::Height(length_after(t, "height-"@)->0))
    } else if z_arg(t) is Some {
        Some(StyleSpec::ZIndex(z_arg(t)->0))
    } else if t == "display-none"@ {
        Some(StyleSpec::DisplayNone)
    } else if t == "flex-row"@ {
        Some(StyleSpec::FlexRow)
    } else if t == "flex-row-center"@ {
        Some(StyleSpec::FlexRowCenter)
    } else if t == "flex-col"@ {
        Some(StyleSpec::FlexCol)
    } else if numbered(t, "gap"@) is Some {
        Some(StyleSpec::Gap(numbered(t, "gap"@)->0))
    } else if numbered(t, "grow"@) is Some {
        Some(StyleSpec::Grow(numbered(t, "grow"@)->0))
    } else if t == "scroll-y"@ {
        Some(StyleSpec::ScrollY)
    } else if numbered(t, "mt"@) is Some {
        Some(StyleSpec::Margin(Edges::Top, numbered(t, "mt"@)->0))
    } else if numbered(t, "mb"@) is Some {
        Some(StyleSpec::Margin(Edges::Bottom, numbered(t, "mb"@)->0))
    } else if numbered(t, "ml"@) is Some {
        Some(StyleSpec::Margin(Edges::Left, numbered(t, "ml"@)->0))
    } else if numbered(t, "mr"@) is Some {
        Some(StyleSpec::Margin(Edges::Right, numbered(t, "mr"@)->0))
    } else if numbered(t, "mx"@) is Some {
        Some(StyleSpec::Margin(Edges::Horizontal, numbered(t, "mx"@)->0))
    } else if numbered(t, "my"@) is Some {
        Some(StyleSpec::Margin(Edges::Vertical, numbered(t, "my"@)->0))
    } else if numbered(t, "m"@) is Some {
        Some(StyleSpec::Margin(Edges::All, numbered(t, "m"@)->0))
    } else if numbered(t, "pt"@) is Some {
        Some(StyleSpec::Padding(Edges::Top, numbered(t, "pt"@)->0))
    } else if numbered(t, "pb"@) is Some {
        Some(StyleSpec::Padding(Edges::Bottom, numbered(t, "pb"@)->0))
    } else if numbered(t, "pl"@) is Some {
        Some(StyleSpec::Padding(Edges::Left, numbered(t, "pl"@)->0))
    } else if numbered(t, "pr"@) is Some {
        Some(StyleSpec::Padding(Edges::Right, numbered(t, "pr"@)->0))
    } else if numbered(t, "px"@) is Some {
        Some(StyleSpec::Padding(Edges::Horizontal, numbered(t, "px"@)->0))
    } else if numbered(t, "py"@) is Some {
        Some(StyleSpec::Padding(Edges::Vertical, numbered(t, "py"@)->0))
    } else if numbered(t, "p"@) is Some {
        Some(StyleSpec::Padding(Edges::All, numbered(t, "p"@)->0))
    } else if background_arg(t) is Some {
        let parts = background_arg(t)->0;
        Some(StyleSpec::Background(parts[0], parts[1], parts[2], parts[3]))
    } else {
        None
    }
}

/// What a line of tokens sets, token by token in order; tokens that set
/// nothing are skipped.
pub open spec fn line_styles(tokens: Seq<Seq<char>>) -> Seq<StyleSpec>
    decreases tokens.len(),
{
    if tokens.len() == 0 {
        Seq::empty()
    } else {
        let prev = line_styles(tokens.drop_last());
        match token_style(tokens.last()) {
            Some(d) => prev.push(d),
            None => prev,
        }
    }
}


//=========================================================================
// Matching
//=========================================================================

proof fn lemma_digits_value_nonneg(s: Seq<char>)
    requires
        forall|i: int| 0 <= i < s.len() ==> is_digit(#[trigger] s[i]),
    ensures
        digits_value(s) >= 0,
    decreases s.len(),
{
    if s.len() > 0 {
        lemma_digits_value_nonneg(s.drop_last());
    }
}

/// `x`, or one past `i32::MAX` when it is larger.
spec fn capped(x: int) -> int {
    if x > i32::MAX { i32::MAX + 1 } else { x }
}

/// The `i32` written by `t[from..]`, if it is a run of digits that fits.
fn int_from(t: &Vec<char>, from: usize) -> (r: Option<i32>)
    requires
        from <= t@.len(),
    ensures
        r == int_arg(t@.skip(from as int)),
{
    if from >= t.len() {
        return None;
    }
    let mut v: i64 = 0;
    let mut k: usize = from;
    while k < t.len()
        invariant
            from <= k <= t@.len(),
            forall|j: int| from <= j < k ==> is_digit(#[trigger] t@[j]),
            v == capped(digits_value(t@.subrange(from as int, k as int))),
            digits_value(t@.subrange(from as int, k as int)) >= 0,
        decreases t.len() - k,
    {
        let c = t[k];
        if !('0' <= c && c <= '9') {
            assert(t@.skip(from as int)[k - from] == c);
            return None;
        }
        let ghost prev = t@.subrange(from as int, k as int);
        assert(t@.subrange(from as int, k + 1).drop_last() =~= prev);
        let d: i64 = (char_code(c) - 48) as i64;
        assert(d == digit_value(c));
        v = v * 10 + d;
        if v > 2147483648 {
            v = 2147483648;
        }
        k += 1;
    }
    assert(t@.subrange(from as int, t@.len() as int) =~= t@.skip(from as int));
    if v > 2147483647 {
        None
    } else {
        Some(v as i32)
    }
}

/// The number after the prefix `p` of `t`.
fn numbered_of(t: &Vec<char>, p: &str) -> (r: Option<i32>)
    ensures
        r == numbered(t@, p@),
{
    let pc = chars_of(p);
    if starts_with(t, &pc) {
        int_from(t, pc.len())
    } else {
        None
    }
}

/// The length after the prefix `p` of `t`.
fn length_of(t: &Vec<char>, p: &str) -> (r: Option<Length>)
    ensures
        r == length_after(t@, p@),
{
    let pc = chars_of(p);
    if !starts_with(t, &pc) {
        return None;
    }
    match int_from(t, pc.len()) {
        Some(v) => Some(Length::Px(v)),
        None => {
            let rest = slice_chars(t, pc.len(), t.len());
            assert(rest@ =~= t@.skip(pc@.len() as int));
            if rest.len() > 0 && rest[rest.len() - 1] == '%' {
                let body = slice_chars(&rest, 0, rest.len() - 1);
                assert(body@ =~= rest@.drop_last());
                match int_from(&body, 0) {
                    Some(v) => {
                        assert(body@.skip(0) =~= body@);
                        Some(Length::Percent(v))
                    },
                    None => {
                        assert(body@.skip(0) =~= body@);
                        None
                    },
                }
            } else {
                None
            }
        },
    }
}

/// Whether `c` is a Unicode decimal digit.
fn decimal_digit(c: char) -> (b: bool)
    ensures
        b == is_decimal_digit(c),
{
    let u = char_code(c);
    (0x30 <= u && u <= 0x39) || (0x660 <= u && u <= 0x669) || (0x6f0 <= u && u <= 0x6f9) ||
    (0x7c0 <= u && u <= 0x7c9) || (0x966 <= u && u <= 0x96f) || (0x9e6 <= u && u <= 0x9ef) ||
    (0xa66 <= u && u <= 0xa6f) || (0xae6 <= u && u <= 0xaef) || (0xb66 <= u && u <= 0xb6f) ||
    (0xbe6 <= u && u <= 0xbef) || (0xc66 <= u && u <= 0xc6f) || (0xce6 <= u && u <= 0xcef) ||
    (0xd66 <= u && u <= 0xd6f) || (0xde6 <= u && u <= 0xdef) || (0xe50 <= u && u <= 0xe59) ||
    (0xed0 <= u && u <= 0xed9) || (0xf20 <= u && u <= 0xf29) || (0x1040 <= u && u <= 0x1049) ||
    (0x1090 <= u && u <= 0x1099) || (0x17e0 <= u && u <= 0x17e9) ||
    (0x1810 <= u && u <= 0x1819) || (0x1946 <= u && u <= 0x194f) ||
    (0x19d0 <= u && u <= 0x19d9) || (0x1a80 <= u && u <= 0x1a89) ||
    (0x1a90 <= u && u <= 0x1a99) || (0x1b50 <= u && u <= 0x1b59) ||
    (0x1bb0 <= u && u <= 0x1bb9) || (0x1c40 <= u && u <= 0x1c49) ||
    (0x1c50 <= u && u <= 0x1c59) || (0xa620 <= u && u <= 0xa629) ||
    (0xa8d0 <= u && u <= 0xa8d9) || (0xa900 <= u && u <= 0xa909) ||
    (0xa9d0 <= u && u <= 0xa9d9) || (0xa9f0 <= u && u <= 0xa9f9) ||
    (0xaa50 <= u && u <= 0xaa59) || (0xabf0 <= u && u <= 0xabf9) ||
    (0xff10 <= u && u <= 0xff19) || (0x104a0 <= u && u <= 0x104a9) ||
    (0x10d30 <= u && u <= 0x10d39) || (0x11066 <= u && u <= 0x1106f) ||
    (0x110f0 <= u && u <= 0x110f9) || (0x11136 <= u && u <= 0x1113f) ||
    (0x111d0 <= u && u <= 0x111d9) || (0x112f0 <= u && u <= 0x112f9) ||
    (0x11450 <= u && u <= 0x11459) || (0x114d0 <= u && u <= 0x114d9) ||
    (0x11650 <= u && u <= 0x11659) || (0x116c0 <= u && u <= 0x116c9) ||
    (0x11730 <= u && u <= 0x11739) || (0x118e0 <= u && u <= 0x118e9) ||
    (0x11950 <= u && u <= 0x11959) || (0x11c50 <= u && u <= 0x11c59) ||
    (0x11d50 <= u && u <= 0x11d59) || (0x11da0 <= u && u <= 0x11da9) ||
    (0x11f50 <= u && u <= 0x11f59) || (0x16a60 <= u && u <= 0x16a69) ||
    (0x16ac0 <= u && u <= 0x16ac9) || (0x16b50 <= u && u <= 0x16b59) ||
    (0x1d7ce <= u && u <= 0x1d7ff) || (0x1e140 <= u && u <= 0x1e149) ||
    (0x1e2f0 <= u && u <= 0x1e2f9) || (0x1e4f0 <= u && u <= 0x1e4f9) ||
    (0x1e950 <= u && u <= 0x1e959) || (0x1fbf0 <= u && u <= 0x1fbf9)
}

/// The stacking order of a `z` token.
fn z_of(t: &Vec<char>) -> (r: Option<i32>)
    ensures
        r == z_arg(t@),
{
    let z = chars_of("z");
    proof { reveal_strlit("z"); }
    if !starts_with(t, &z) || t.len() < 2 {
        return None;
    }
    let mut k: usize = 1;
    while k < t.len()
        invariant
            1 <= k <= t@.len(),
            forall|j: int| 1 <= j < k ==> is_decimal_digit(#[trigger] t@[j]),
        decreases t.len() - k,
    {
        if !decimal_digit(t[k]) {
            return None;
        }
        k += 1;
    }
    let last = t[t.len() - 1];
    if !('0' <= last && last <= '9') {
        return None;
    }
    let d: i32 = (char_code(last) - 48) as i32;
    Some(d)
}

/// Whether every character of `s` is a digit or a dot, and there is one.
fn component_ok(s: &Vec<char>) -> (b: bool)
    ensures
        b == is_component(s@),
{
    if s.len() == 0 {
        return false;
    }
    let mut k: usize = 0;
    while k < s.len()
        invariant
            k <= s@.len(),
            forall|j: int| 0 <= j < k ==> is_digit(#[trigger] s@[j]) || s@[j] == '.',
        decreases s.len() - k,
    {
        let c = s[k];
        if !(('0' <= c && c <= '9') || c == '.') {
            return false;
        }
        k += 1;
    }
    true
}

/// The four components of a background token.
fn background_of(t: &Vec<char>) -> (r: Option<Vec<Vec<char>>>)
    ensures
        match r {
            Some(parts) => background_arg(t@) == Some(views(parts@)),
            None => background_arg(t@) is None,
        },
{
    let prefix = chars_of("bg-srgba-(");
    proof { reveal_strlit("bg-srgba-("); }
    if !starts_with(t, &prefix) || t.len() <= 10 || t[t.len() - 1] != ')' {
        return None;
    }
    let inner = slice_chars(t, 10, t.len() - 1);
    let parts = split_on_char(&inner, ',');
    if parts.len() != 4 {
        return None;
    }
    let ok0 = component_ok(&parts[0]);
    let ok1 = component_ok(&parts[1]);
    let ok2 = component_ok(&parts[2]);
    let ok3 = component_ok(&parts[3]);
    let ghost ps = views(parts@);
    assert(ps[0] == parts@[0]@ && ps[1] == parts@[1]@ && ps[2] == parts@[2]@ && ps[3] == parts@[3]@);
    if ok0 && ok1 && ok2 && ok3 {
        assert(forall|i: int| 0 <= i < 4 ==> is_component(#[trigger] ps[i])) by {
            assert forall|i: int| 0 <= i < 4 implies is_component(#[trigger] ps[i]) by {
                if i == 0 {} else if i == 1 {} else if i == 2 {} else {}
            }
        }
        Some(parts)
    } else {
        proof {
            if !ok0 { assert(!is_component(ps[0])); }
            else if !ok1 { assert(!is_component(ps[1])); }
            else if !ok2 { assert(!is_component(ps[2])); }
            else { assert(!is_component(ps[3])); }
        }
        None
    }
}

/// Whether `t` is the word `w`.
fn is_word(t: &Vec<char>, w: &str) -> (b: bool)
    ensures
        b == (t@ == w@),
{
    chars_eq(t, &chars_of(w))
}

/// What one token sets (see [`token_style`]).
pub fn token_style_of(t: &Vec<char>) -> (r: Option<StyleDirective>)
    ensures
        match r {
            Some(d) => token_style(t@) == Some(d.model()),
            None => token_style(t@) is None,
        },
{
    if is_word(t, "absolute") {
        return Some(StyleDirective::Absolute);
    }
    if let Some(v) = numbered_of(t, "top") {
        return Some(StyleDirective::Offset(Side::Top, v));
    }
    if let Some(v) = numbered_of(t, "left") {
        return Some(StyleDirective::Offset(Side::Left, v));
    }
    if let Some(v) = numbered_of(t, "bottom") {
        return Some(StyleDirective::Offset(Side::Bottom, v));
    }
    if let Some(v) = numbered_of(t, "right") {
        return Some(StyleDirective::Offset(Side::Right, v));
    }
    if let Some(l) = length_of(t, "width-") {
        return Some(StyleDirective::Width(l));
    }
    if let Some(l) = length_of(t, "height-") {
        return Some(StyleDirective::Height(l));
    }
    if let Some(v) = z_of(t) {
        return Some(StyleDirective::ZIndex(v));
    }
    if is_word(t, "display-none") {
        return Some(StyleDirective::DisplayNone);
    }
    if is_word(t, "flex-row") {
        return Some(StyleDirective::FlexRow);
    }
    if is_word(t, "flex-row-center") {
        return Some(StyleDirective::FlexRowCenter);
    }
    if is_word(t, "flex-col") {
        return Some(StyleDirective::FlexCol);
    }
    if let Some(v) = numbered_of(t, "gap") {
        return Some(StyleDirective::Gap(v));
    }
    if let Some(v) = numbered_of(t, "grow") {
        return Some(StyleDirective::Grow(v));
    }
    if is_word(t, "scroll-y") {
        return Some(StyleDirective::ScrollY);
    }
    if let Some(v) = numbered_of(t, "mt") {
        return Some(StyleDirective::Margin(Edges::Top, v));
    }
    if let Some(v) = numbered_of(t, "mb") {
        return Some(StyleDirective::Margin(Edges::Bottom, v));
    }
    if let Some(v) = numbered_of(t, "ml") {
        return Some(StyleDirective::Margin(Edges::Left, v));
    }
    if let Some(v) = numbered_of(t, "mr") {
        return Some(StyleDirective::Margin(Edges::Right, v));
    }
    if let Some(v) = numbered_of(t, "mx") {
        return Some(StyleDirective::Margin(Edges::Horizontal, v));
    }
    if let Some(v) = numbered_of(t, "my") {
        return Some(StyleDirective::Margin(Edges::Vertical, v));
    }
    if let Some(v) = numbered_of(t, "m") {
        return Some(StyleDirective::Margin(Edges::All, v));
    }
    if let Some(v) = numbered_of(t, "pt") {
        return Some(StyleDirective::Padding(Edges::Top, v));
    }
    if let Some(v) = numbered_of(t, "pb") {
        return Some(StyleDirective::Padding(Edges::Bottom, v));
    }
    if let Some(v) = numbered_of(t, "pl") {
        return Some(StyleDirective::Padding(Edges::Left, v));
    }
    if let Some(v) = numbered_of(t, "pr") {
        return Some(StyleDirective::Padding(Edges::Right, v));
    }
    if let Some(v) = numbered_of(t, "px") {
        return Some(StyleDirective::Padding(Edges::Horizontal, v));
    }
    if let Some(v) = numbered_of(t, "py") {
        return Some(StyleDirective::Padding(Edges::Vertical, v));
    }
    if let Some(v) = numbered_of(t, "p") {
        return Some(StyleDirective::Padding(Edges::All, v));
    }
    match background_of(t) {
        Some(parts) => {
            let r = string_from_chars(&parts[0]);
            let g = string_from_chars(&parts[1]);
            let b = string_from_chars(&parts[2]);
            let a = string_from_chars(&parts[3]);
            Some(StyleDirective::Background(r, g, b, a))
        },
        None => None,
    }
}

/// The properties that a line of style tokens sets, in the order of the
/// tokens (see [`line_styles`]); later ones override earlier ones when the
/// node is built.
pub fn node_style(sl: &str) -> (styles: Vec<StyleDirective>)
    ensures
        style_models(styles@) == line_styles(split_ws(sl@)),
{
    let text = chars_of(sl);
    let tokens = split_whitespace(&text);
    let ghost ts = views(tokens@);
    let mut styles: Vec<StyleDirective> = Vec::new();
    let mut i: usize = 0;
    while i < tokens.len()
        invariant
            i <= tokens@.len(),
            ts == views(tokens@),
            style_models(styles@) == line_styles(ts.take(i as int)),
        decreases tokens.len() - i,
    {
        assert(ts.take(i + 1).drop_last() =~= ts.take(i as int));
        assert(ts[i as int] == tokens@[i as int]@);
        match token_style_of(&tokens[i]) {
            Some(d) => {
                let ghost before = styles@;
                styles.push(d);
                assert(style_models(styles@) =~= style_models(before).push(d.model()));
            },
            None => {},
        }
        i += 1;
    }
    assert(ts.take(tokens@.len() as int) =~= ts);
    styles
}

} // verus!
