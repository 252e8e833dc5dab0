//! Appearance: font, gaps, borders and window colors; the generated
//! `appearance.conf`; the appearance directives of the main config that
//! it supersedes; and the `#rrggbb` colors that the editor reads and
//! writes.
use vstd::prelude::*;
use crate::text::{
    all_ascii, ascii_lower, chars_eq, chars_of, eq_str, extend_chars, extend_str, join, join_lines, lines, lines_of,
    lowercase, nat_text, starts_with, starts_with_str, string_of, to_lowercase, trim, trim_vec,
    u64_text,
};

verus! {

// ── Data model ──────────────────────────────────────────────

#[derive(Debug, Clone)]
pub struct AppearanceConfig {
    pub font_family: String,
    pub font_size: u32,
    pub gaps_inner: u32,
    pub gaps_outer: u32,
    pub border_width: u32,
    pub border_style: BorderStyle,
    pub colors: WindowColors,
}

#[derive(Debug, Clone, Copy, PartialEq, Eq, Structural)]
pub enum BorderStyle {
    Pixel,
    Normal,
    NoBorder,
}

/// Sway window border colors, one set per window class.
#[derive(Debug, Clone)]
pub struct WindowColors {
    pub focused: ColorSet,
    pub focused_inactive: ColorSet,
    pub unfocused: ColorSet,
    pub urgent: ColorSet,
}

/// The five colors of a window class.
#[derive(Debug, Clone)]
pub struct ColorSet {
    pub border: String,
    pub background: String,
    pub text: String,
    pub indicator: String,
    pub child_border: String,
}

/// A window class whose colors are edited.
#[derive(Debug, Clone, Copy, PartialEq, Eq, Structural)]
pub enum ColorTarget {
    Focused,
    FocusedInactive,
    Unfocused,
    Urgent,
}

/// One of the five colors of a class.
#[derive(Debug, Clone, Copy, PartialEq, Eq, Structural)]
pub enum ColorField {
    Border,
    Background,
    Text,
    Indicator,
    ChildBorder,
}

// ── Border styles ───────────────────────────────────────────

/// The name of a border style, as sway spells it.
pub open spec fn style_name(s: BorderStyle) -> Seq<char> {
    match s {
        BorderStyle::Pixel => "pixel"@,
        BorderStyle::Normal => "normal"@,
        BorderStyle::NoBorder => "none"@,
    }
}

/// The style with the given (lowercase) name.
pub open spec fn style_named(s: Seq<char>) -> Option<BorderStyle> {
    if s == "pixel"@ {
        Some(BorderStyle::Pixel)
    } else if s == "normal"@ {
        Some(BorderStyle::Normal)
    } else if s == "none"@ {
        Some(BorderStyle::NoBorder)
    } else {
        None
    }
}

impl BorderStyle {
    /// Every style, in the order in which they are offered.
    pub fn all() -> (r: Vec<BorderStyle>)
        ensures
            r@ == seq![BorderStyle::Pixel, BorderStyle::Normal, BorderStyle::NoBorder],
    {
        let mut r: Vec<BorderStyle> = Vec::new();
        r.push(BorderStyle::Pixel);
        r.push(BorderStyle::Normal);
        r.push(BorderStyle::NoBorder);
        r
    }

    /// The style's name: `pixel`, `normal` or `none`.
    pub fn to_string(&self) -> (r: String)
        ensures
            r@ == style_name(*self),
    {
        match self {
            BorderStyle::Pixel => String::from_str("pixel"),
            BorderStyle::Normal => String::from_str("normal"),
            BorderStyle::NoBorder => String::from_str("none"),
        }
    }

    /// The style named by `s`, which is already lowercased.
    pub fn from_lowered(s: &str) -> (r: Option<BorderStyle>)
        ensures
            r == style_named(s@),
    {
        let v = chars_of(s);
        if eq_str(&v, "pixel") {
            Some(BorderStyle::Pixel)
        } else if eq_str(&v, "normal") {
            Some(BorderStyle::Normal)
        } else if eq_str(&v, "none") {
            Some(BorderStyle::NoBorder)
        } else {
            None
        }
    }

    /// The style named by `s`, in any case.
    pub fn from_str(s: &str) -> (r: Option<BorderStyle>)
        ensures
            r == style_named(lowercase(s@)),
            all_ascii(s@) ==> r == style_named(ascii_lower(s@)),
    {
        let low = to_lowercase(s);
        BorderStyle::from_lowered(low.as_str())
    }
}

/// A style's name reads back as the style (the name is ASCII, so
/// `from_str` lowercases it as ASCII).
pub proof fn lemma_style_name_roundtrip(st: BorderStyle)
    ensures
        all_ascii(style_name(st)),
        style_named(ascii_lower(style_name(st))) == Some(st),
{
    reveal_strlit("pixel");
    reveal_strlit("normal");
    reveal_strlit("none");
    let n = style_name(st);
    assert(ascii_lower(n) =~= n);
    assert("pixel"@.len() != "normal"@.len());
    assert("none"@.len() != "normal"@.len());
    assert("pixel"@[0] != "none"@[0]);
}

// ── Defaults ────────────────────────────────────────────────

impl ColorSet {
    pub fn new(border: &str, background: &str, text: &str, indicator: &str, child_border: &str) -> (r: ColorSet)
        ensures
            r.border@ == border@,
            r.background@ == background@,
            r.text@ == text@,
            r.indicator@ == indicator@,
            r.child_border@ == child_border@,
    {
        ColorSet {
            border: String::from_str(border),
            background: String::from_str(background),
            text: String::from_str(text),
            indicator: String::from_str(indicator),
            child_border: String::from_str(child_border),
        }
    }
}

pub open spec fn colors_are(
    c: ColorSet,
    border: &str,
    background: &str,
    text: &str,
    indicator: &str,
    child_border: &str,
) -> bool {
    &&& c.border@ == border@
    &&& c.background@ == background@
    &&& c.text@ == text@
    &&& c.indicator@ == indicator@
    &&& c.child_border@ == child_border@
}

/// The default colors: green for focused, greys, red for urgent.
pub open spec fn default_colors(c: WindowColors) -> bool {
    &&& colors_are(c.focused, "#88bb88", "#2d2d2d", "#ffffff", "#88bb88", "#88bb88")
    &&& colors_are(c.focused_inactive, "#555555", "#2d2d2d", "#888888", "#555555", "#555555")
    &&& colors_are(c.unfocused, "#333333", "#1d1d1d", "#888888", "#333333", "#333333")
    &&& colors_are(c.urgent, "#cc8888", "#2d2d2d", "#ffffff", "#cc8888", "#cc8888")
}

impl Default for WindowColors {
    fn default() -> (r: Self)
        ensures
            default_colors(r),
    {
        WindowColors {
            focused: ColorSet::new("#88bb88", "#2d2d2d", "#ffffff", "#88bb88", "#88bb88"),
            focused_inactive: ColorSet::new("#555555", "#2d2d2d", "#888888", "#555555", "#555555"),
            unfocused: ColorSet::new("#333333", "#1d1d1d", "#888888", "#333333", "#333333"),
            urgent: ColorSet::new("#cc8888", "#2d2d2d", "#ffffff", "#cc8888", "#cc8888"),
        }
    }
}

impl Default for AppearanceConfig {
    fn default() -> (r: Self)
        ensures
            r.font_family@ == "Noto Sans"@,
            r.font_size == 11,
            r.gaps_inner == 10,
            r.gaps_outer == 5,
            r.border_width == 2,
            r.border_style == BorderStyle::Pixel,
            default_colors(r.colors),
    {
        AppearanceConfig {
            font_family: String::from_str("Noto Sans"),
            font_size: 11,
            gaps_inner: 10,
            gaps_outer: 5,
            border_width: 2,
            border_style: BorderStyle::Pixel,
            colors: WindowColors::default(),
        }
    }
}

// ── Reading and setting one color ───────────────────────────

pub open spec fn class_of(c: WindowColors, t: ColorTarget) -> ColorSet {
    match t {
        ColorTarget::Focused => c.focused,
        ColorTarget::FocusedInactive => c.focused_inactive,
        ColorTarget::Unfocused => c.unfocused,
        ColorTarget::Urgent => c.urgent,
    }
}

pub open spec fn field_of(s: ColorSet, f: ColorField) -> Seq<char> {
    match f {
        ColorField::Border => s.border@,
        ColorField::Background => s.background@,
        ColorField::Text => s.text@,
        ColorField::Indicator => s.indicator@,
        ColorField::ChildBorder => s.child_border@,
    }
}

/// The color at (`t`, `f`).
pub open spec fn color_at(c: WindowColors, t: ColorTarget, f: ColorField) -> Seq<char> {
    field_of(class_of(c, t), f)
}

impl ColorSet {
    pub fn get(&self, f: ColorField) -> (r: &String)
        ensures
            r@ == field_of(*self, f),
    {
        match f {
            ColorField::Border => &self.border,
            ColorField::Background => &self.background,
            ColorField::Text => &self.text,
            ColorField::Indicator => &self.indicator,
            ColorField::ChildBorder => &self.child_border,
        }
    }

    pub fn set(&mut self, f: ColorField, value: String)
        ensures
            field_of(*final(self), f) == value@,
            forall|g: ColorField| g != f ==> field_of(*final(self), g) == field_of(*old(self), g),
    {
        match f {
            ColorField::Border => self.border = value,
            ColorField::Background => self.background = value,
            ColorField::Text => self.text = value,
            ColorField::Indicator => self.indicator = value,
            ColorField::ChildBorder => self.child_border = value,
        }
    }
}

impl WindowColors {
    /// The color at (`target`, `field`).
    pub fn get_color_hex(&self, target: ColorTarget, field: ColorField) -> (r: &String)
        ensures
            r@ == color_at(*self, target, field),
    {
        match target {
            ColorTarget::Focused => self.focused.get(field),
            ColorTarget::FocusedInactive => self.focused_inactive.get(field),
            ColorTarget::Unfocused => self.unfocused.get(field),
            ColorTarget::Urgent => self.urgent.get(field),
        }
    }

    /// Sets the color at (`target`, `field`), leaving the others as they are.
    pub fn set_color(&mut self, target: ColorTarget, field: ColorField, value: String)
        ensures
            color_at(*final(self), target, field) == value@,
            forall|t: ColorTarget, f: ColorField|
                (t, f) != (target, field) ==> color_at(*final(self), t, f) == color_at(
                    *old(self),
                    t,
                    f,
                ),
    {
        match target {
            ColorTarget::Focused => self.focused.set(field, value),
            ColorTarget::FocusedInactive => self.focused_inactive.set(field, value),
            ColorTarget::Unfocused => self.unfocused.set(field, value),
            ColorTarget::Urgent => self.urgent.set(field, value),
        }
    }
}

/// The editor's selection after a click on the swatch at `key`: a click
/// on the selected swatch clears the selection, any other selects it.
pub fn toggle_selection(
    current: Option<(ColorTarget, ColorField)>,
    key: (ColorTarget, ColorField),
) -> (r: Option<(ColorTarget, ColorField)>)
    ensures
        r == (if current == Some(key) {
            None
        } else {
            Some(key)
        }),
{
    match current {
        Some((t, f)) => if t == key.0 && f == key.1 {
            None
        } else {
            Some(key)
        },
        None => Some(key),
    }
}

// ── Hex colors ──────────────────────────────────────────────

/// The value of a hexadecimal digit (either case).
pub open spec fn hex_val(c: char) -> Option<nat> {
    if '0' <= c && c <= '9' {
        Some(((c as nat) - 48) as nat)
    } else if 'a' <= c && c <= 'f' {
        Some(((c as nat) - 87) as nat)
    } else if 'A' <= c && c <= 'F' {
        Some(((c as nat) - 55) as nat)
    } else {
        None
    }
}

/// What `u8::from_str_radix(&[a, b], 16)` gives for two characters: two
/// hex digits, or `+` and one hex digit.
pub open spec fn hex_pair_value(a: char, b: char) -> Option<u8> {
    if a == '+' {
        match hex_val(b) {
            Some(v) => Some(v as u8),
            None => None,
        }
    } else {
        match (hex_val(a), hex_val(b)) {
            (Some(x), Some(y)) => Some((x * 16 + y) as u8),
            _ => None,
        }
    }
}

/// The text after an optional leading `#`.
pub open spec fn hex_body(s: Seq<char>) -> Seq<char> {
    if s.len() > 0 && s[0] == '#' {
        s.drop_first()
    } else {
        s
    }
}

/// The number of UTF-8 bytes of a character.
pub open spec fn utf8_width(c: char) -> nat {
    if (c as u32) < 0x80 {
        1
    } else if (c as u32) < 0x800 {
        2
    } else if (c as u32) < 0x10000 {
        3
    } else {
        4
    }
}

/// The number of UTF-8 bytes of a character sequence.
pub open spec fn byte_len(s: Seq<char>) -> nat
    decreases s.len(),
{
    if s.len() == 0 {
        0
    } else {
        byte_len(s.drop_last()) + utf8_width(s.last())
    }
}

/// Whether byte offset `b` of `s` falls between two characters.
pub open spec fn is_boundary(s: Seq<char>, b: nat) -> bool {
    exists|k: int| 0 <= k <= s.len() && byte_len(#[trigger] s.take(k)) == b
}

/// Whether parsing `s` as a color would slice it inside a character (it
/// has six bytes after the `#`, and byte 2, or byte 4 once the first pair
/// has been read, is no character boundary).
pub open spec fn hex_slice_panics(s: Seq<char>) -> bool {
    let h = hex_body(s);
    byte_len(h) == 6 && (!is_boundary(h, 2) || (hex_pair_value(h[0], h[1]) is Some && !is_boundary(
        h,
        4,
    )))
}

/// The color that `#rrggbb` (the `#` optional) stands for.
pub open spec fn parse_hex_rgb_spec(s: Seq<char>) -> Option<(u8, u8, u8)> {
    let h = hex_body(s);
    if h.len() == 6 && forall|i: int| 0 <= i < 6 ==> (#[trigger] h[i] as u32) < 0x80 {
        match (
            hex_pair_value(h[0], h[1]),
            hex_pair_value(h[2], h[3]),
            hex_pair_value(h[4], h[5]),
        ) {
            (Some(r), Some(g), Some(b)) => Some((r, g, b)),
            _ => None,
        }
    } else {
        None
    }
}

fn hex_val_exec(c: char) -> (r: Option<u8>)
    ensures
        match r {
            Some(v) => hex_val(c) == Some(v as nat) && v < 16,
            None => hex_val(c) is None,
        },
{
    if '0' <= c && c <= '9' {
        Some(((c as u32) - 48) as u8)
    } else if 'a' <= c && c <= 'f' {
        Some(((c as u32) - 87) as u8)
    } else if 'A' <= c && c <= 'F' {
        Some(((c as u32) - 55) as u8)
    } else {
        None
    }
}

fn hex_pair_exec(a: char, b: char) -> (r: Option<u8>)
    ensures
        r == hex_pair_value(a, b),
{
    if a == '+' {
        hex_val_exec(b)
    } else {
        match (hex_val_exec(a), hex_val_exec(b)) {
            (Some(x), Some(y)) => Some(x * 16 + y),
            _ => None,
        }
    }
}

/// Reads a `#rrggbb` color (the `#` optional) as red, green and blue.
pub fn parse_hex_rgb(hex: &str) -> (r: Option<(u8, u8, u8)>)
    requires
        !hex_slice_panics(hex@),
    ensures
        r == parse_hex_rgb_spec(hex@),
{
    let v = chars_of(hex);
    let h = if v.len() > 0 && v[0] == '#' {
        crate::text::slice_chars(&v, 1, v.len())
    } else {
        v
    };
    assert(h@ == hex_body(hex@));
    if h.len() != 6 {
        return None;
    }
    let mut i: usize = 0;
    while i < 6
        invariant
            i <= 6,
            h.len() == 6,
            forall|j: int| 0 <= j < i ==> (#[trigger] h@[j] as u32) < 0x80,
        decreases 6 - i,
    {
        if (h[i] as u32) >= 0x80 {
            return None;
        }
        i += 1;
    }
    match (hex_pair_exec(h[0], h[1]), hex_pair_exec(h[2], h[3]), hex_pair_exec(h[4], h[5])) {
        (Some(r), Some(g), Some(b)) => Some((r, g, b)),
        _ => None,
    }
}

fn char_width(c: char) -> (w: u64)
    ensures
        w == utf8_width(c),
{
    if (c as u32) < 0x80 {
        1
    } else if (c as u32) < 0x800 {
        2
    } else if (c as u32) < 0x10000 {
        3
    } else {
        4
    }
}

proof fn lemma_byte_len_step(s: Seq<char>, k: int)
    requires
        0 <= k < s.len(),
    ensures
        byte_len(s.take(k + 1)) == byte_len(s.take(k)) + utf8_width(s[k]),
{
    assert(s.take(k + 1).drop_last() == s.take(k));
}

proof fn lemma_byte_len_mono(s: Seq<char>, j: int, k: int)
    requires
        0 <= j <= k <= s.len(),
    ensures
        byte_len(s.take(j)) + (k - j) <= byte_len(s.take(k)),
    decreases k - j,
{
    if j < k {
        lemma_byte_len_mono(s, j, k - 1);
        lemma_byte_len_step(s, k - 1);
    }
}

/// Whether `parse_hex_rgb` cannot take `hex` (see `hex_slice_panics`).
pub fn hex_would_panic(hex: &str) -> (r: bool)
    ensures
        r == hex_slice_panics(hex@),
{
    let v = chars_of(hex);
    let h = if v.len() > 0 && v[0] == '#' {
        crate::text::slice_chars(&v, 1, v.len())
    } else {
        v
    };
    assert(h@ == hex_body(hex@));
    let ghost hv = h@;
    let mut total: u64 = 0;
    let mut at2 = false;
    let mut at4 = false;
    let mut k: usize = 0;
    assert(hv.take(0) =~= Seq::<char>::empty());
    while k < h.len() && total <= 6
        invariant
            k <= hv.len(),
            hv == h@,
            total == byte_len(hv.take(k as int)),
            at2 == (exists|j: int| 0 <= j < k && byte_len(#[trigger] hv.take(j)) == 2),
            at4 == (exists|j: int| 0 <= j < k && byte_len(#[trigger] hv.take(j)) == 4),
        decreases hv.len() - k,
    {
        if total == 2 {
            at2 = true;
        }
        if total == 4 {
            at4 = true;
        }
        proof {
            lemma_byte_len_step(hv, k as int);
        }
        total = total + char_width(h[k]);
        k += 1;
    }
    let b2 = at2 || total == 2;
    let b4 = at4 || total == 4;
    proof {
        assert(b2 == (exists|j: int| 0 <= j <= k && byte_len(#[trigger] hv.take(j)) == 2));
        assert(b4 == (exists|j: int| 0 <= j <= k && byte_len(#[trigger] hv.take(j)) == 4));
        lemma_byte_len_mono(hv, k as int, hv.len() as int);
        assert(hv.take(hv.len() as int) == hv);
        if k == hv.len() {
            assert(b2 == is_boundary(hv, 2));
            assert(b4 == is_boundary(hv, 4));
        }
    }
    if k < h.len() || total != 6 {
        return false;
    }
    if !b2 {
        return true;
    }
    match hex_pair_exec(h[0], h[1]) {
        Some(_) => !b4,
        None => false,
    }
}

/// The lowercase hex digit of a value below 16.
pub open spec fn hex_digit(v: nat) -> char {
    if v < 10 {
        ((v + 48) as u8) as char
    } else {
        ((v + 87) as u8) as char
    }
}

/// A byte as two lowercase hex digits.
pub open spec fn hex_byte(v: u8) -> Seq<char> {
    seq![hex_digit((v / 16) as nat), hex_digit((v % 16) as nat)]
}

/// `#rrggbb`, in lowercase.
pub open spec fn rgb_hex_spec(r: u8, g: u8, b: u8) -> Seq<char> {
    seq!['#'] + hex_byte(r) + hex_byte(g) + hex_byte(b)
}

fn hex_digit_exec(v: u8) -> (c: char)
    requires
        v < 16,
    ensures
        c == hex_digit(v as nat),
{
    if v < 10 {
        (v + 48) as char
    } else {
        (v + 87) as char
    }
}

/// A color as `#rrggbb`, in lowercase.
pub fn rgb_hex(r: u8, g: u8, b: u8) -> (s: String)
    ensures
        s@ == rgb_hex_spec(r, g, b),
{
    let mut v: Vec<char> = Vec::new();
    v.push('#');
    v.push(hex_digit_exec(r / 16));
    v.push(hex_digit_exec(r % 16));
    v.push(hex_digit_exec(g / 16));
    v.push(hex_digit_exec(g % 16));
    v.push(hex_digit_exec(b / 16));
    v.push(hex_digit_exec(b % 16));
    assert(v@ =~= rgb_hex_spec(r, g, b));
    string_of(&v)
}

proof fn lemma_ascii_byte_len(s: Seq<char>)
    requires
        forall|i: int| 0 <= i < s.len() ==> (#[trigger] s[i] as u32) < 0x80,
    ensures
        byte_len(s) == s.len(),
    decreases s.len(),
{
    if s.len() > 0 {
        assert forall|i: int| 0 <= i < s.drop_last().len() implies (#[trigger] s.drop_last()[i] as u32) < 0x80 by {
            assert(s.drop_last()[i] == s[i]);
        }
        lemma_ascii_byte_len(s.drop_last());
    }
}

proof fn lemma_hex_digit(v: nat)
    requires
        v < 16,
    ensures
        hex_val(hex_digit(v)) == Some(v),
        (hex_digit(v) as u32) < 0x80,
        hex_digit(v) != '+',
{
}

/// A color written as `#rrggbb` reads back as the same color (and
/// reading it slices no character).
pub proof fn lemma_rgb_hex_roundtrip(r: u8, g: u8, b: u8)
    ensures
        !hex_slice_panics(rgb_hex_spec(r, g, b)),
        parse_hex_rgb_spec(rgb_hex_spec(r, g, b)) == Some((r, g, b)),
{
    let s = rgb_hex_spec(r, g, b);
    let h = hex_body(s);
    assert(h =~= hex_byte(r) + hex_byte(g) + hex_byte(b));
    lemma_hex_digit((r / 16) as nat);
    lemma_hex_digit((r % 16) as nat);
    lemma_hex_digit((g / 16) as nat);
    lemma_hex_digit((g % 16) as nat);
    lemma_hex_digit((b / 16) as nat);
    lemma_hex_digit((b % 16) as nat);
    assert(forall|i: int| 0 <= i < 6 ==> (#[trigger] h[i] as u32) < 0x80);
    lemma_ascii_byte_len(h);
    assert(forall|i: int| 0 <= i < h.take(2).len() ==> (#[trigger] h.take(2)[i] as u32) < 0x80);
    assert(forall|i: int| 0 <= i < h.take(4).len() ==> (#[trigger] h.take(4)[i] as u32) < 0x80);
    lemma_ascii_byte_len(h.take(2));
    lemma_ascii_byte_len(h.take(4));
    assert(is_boundary(h, 2));
    assert(is_boundary(h, 4));
    assert(hex_pair_value(h[0], h[1]) == Some(r));
    assert(hex_pair_value(h[2], h[3]) == Some(g));
    assert(hex_pair_value(h[4], h[5]) == Some(b));
}

// ── Sway config generation ─────────────────────────────────

/// `s` padded with spaces on the right to `width` characters
/// (`format!("{:<width$}")`).
pub open spec fn pad_right(s: Seq<char>, width: nat) -> Seq<char> {
    if s.len() >= width {
        s
    } else {
        s + Seq::new((width - s.len()) as nat, |i: int| ' ')
    }
}

/// The `client.<class>` line of a color set.
pub open spec fn color_line_spec(class: Seq<char>, cs: ColorSet) -> Seq<char> {
    "client."@ + pad_right(class, 20) + " "@ + cs.border@ + " "@ + cs.background@ + " "@
        + cs.text@ + " "@ + cs.indicator@ + " "@ + cs.child_border@ + "\n"@
}

/// The border directives: `none` for no border, else the style and width.
pub open spec fn border_lines(c: AppearanceConfig) -> Seq<char> {
    if c.border_style == BorderStyle::NoBorder {
        "default_border none\n"@ + "default_floating_border none\n\n"@
    } else {
        "default_border "@ + style_name(c.border_style) + " "@ + nat_text(c.border_width as nat)
            + "\n"@ + "default_floating_border "@ + style_name(c.border_style) + " "@ + nat_text(
            c.border_width as nat,
        ) + "\n\n"@
    }
}

/// The text of the generated `appearance.conf`.
pub open spec fn appearance_text(c: AppearanceConfig) -> Seq<char> {
    "# ── Oblong appearance — auto-generated, do not edit by hand ──\n\n"@ + "font pango:"@
        + c.font_family@ + " "@ + nat_text(c.font_size as nat) + "\n\n"@ + "gaps inner "@ + nat_text(
        c.gaps_inner as nat,
    ) + "\n"@ + "gaps outer "@ + nat_text(c.gaps_outer as nat) + "\n\n"@ + border_lines(c)
        + color_line_spec("focused"@, c.colors.focused) + color_line_spec(
        "focused_inactive"@,
        c.colors.focused_inactive,
    ) + color_line_spec("unfocused"@, c.colors.unfocused) + color_line_spec(
        "urgent"@,
        c.colors.urgent,
    )
}

fn color_line(out: &mut Vec<char>, class: &str, cs: &ColorSet)
    ensures
        final(out)@ == old(out)@ + color_line_spec(class@, *cs),
{
    let ghost start = out@;
    extend_str(out, "client.");
    let cv = chars_of(class);
    extend_chars(out, &cv);
    let mut n = cv.len();
    let ghost mid = out@;
    while n < 20
        invariant
            cv.len() <= n <= 20 || (cv.len() >= 20 && n == cv.len()),
            out@ == mid + Seq::new((n - cv.len()) as nat, |i: int| ' '),
        decreases 20 - n,
    {
        out.push(' ');
        n += 1;
        assert(out@ =~= mid + Seq::new((n - cv.len()) as nat, |i: int| ' '));
    }
    assert(mid + Seq::new((n - cv.len()) as nat, |i: int| ' ') == start + "client."@ + pad_right(
        class@,
        20,
    ));
    extend_str(out, " ");
    extend_str(out, cs.border.as_str());
    extend_str(out, " ");
    extend_str(out, cs.background.as_str());
    extend_str(out, " ");
    extend_str(out, cs.text.as_str());
    extend_str(out, " ");
    extend_str(out, cs.indicator.as_str());
    extend_str(out, " ");
    extend_str(out, cs.child_border.as_str());
    extend_str(out, "\n");
}

/// The generated `appearance.conf` for a configuration.
pub fn appearance_conf(config: &AppearanceConfig) -> (r: String)
    ensures
        r@ == appearance_text(*config),
{
    let mut out = chars_of("# ── Oblong appearance — auto-generated, do not edit by hand ──\n\n");
    extend_str(&mut out, "font pango:");
    extend_str(&mut out, config.font_family.as_str());
    extend_str(&mut out, " ");
    extend_chars(&mut out, &u64_text(config.font_size as u64));
    extend_str(&mut out, "\n\n");
    extend_str(&mut out, "gaps inner ");
    extend_chars(&mut out, &u64_text(config.gaps_inner as u64));
    extend_str(&mut out, "\n");
    extend_str(&mut out, "gaps outer ");
    extend_chars(&mut out, &u64_text(config.gaps_outer as u64));
    extend_str(&mut out, "\n\n");
    let ghost before_border = out@;
    match config.border_style {
        BorderStyle::NoBorder => {
            extend_str(&mut out, "default_border none\n");
            extend_str(&mut out, "default_floating_border none\n\n");
        },
        style => {
            let name = style.to_string();
            let w = u64_text(config.border_width as u64);
            extend_str(&mut out, "default_border ");
            extend_str(&mut out, name.as_str());
            extend_str(&mut out, " ");
            extend_chars(&mut out, &w);
            extend_str(&mut out, "\n");
            extend_str(&mut out, "default_floating_border ");
            extend_str(&mut out, name.as_str());
            extend_str(&mut out, " ");
            extend_chars(&mut out, &w);
            extend_str(&mut out, "\n\n");
        },
    }
    assert(out@ == before_border + border_lines(*config));
    color_line(&mut out, "focused", &config.colors.focused);
    color_line(&mut out, "focused_inactive", &config.colors.focused_inactive);
    color_line(&mut out, "unfocused", &config.colors.unfocused);
    color_line(&mut out, "urgent", &config.colors.urgent);
    string_of(&out)
}

/// The settings file of the appearance: `appearance.json` in oblong's
/// settings directory.
pub fn appearance_config_path(home: &str) -> (r: String)
    ensures
        r@ == crate::config::path_join(
            crate::config::path_join(crate::config::path_join(home@, ".config"@), "oblong"@),
            "appearance.json"@,
        ),
{
    let d = crate::config::config_dir(home);
    crate::config::join_path(d.as_str(), "appearance.json")
}

// ── Superseded directives in the main config ───────────────

/// The directives that `appearance.conf` sets.
pub open spec fn appearance_prefixes() -> Seq<Seq<char>> {
    seq![
        "client.focused"@,
        "client.unfocused"@,
        "client.focused_inactive"@,
        "client.urgent"@,
        "default_border"@,
        "default_floating_border"@,
        "gaps inner"@,
        "gaps outer"@,
        "font "@,
    ]
}

/// Whether a line of the main config sets an appearance directive (and is
/// not a comment).
pub open spec fn is_appearance_line(line: Seq<char>) -> bool {
    let t = trim(line);
    !starts_with(t, "#"@) && exists|k: int|
        0 <= k < appearance_prefixes().len() && starts_with(t, #[trigger] appearance_prefixes()[k])
}

/// A line as it is written back: commented out if it sets an appearance
/// directive.
pub open spec fn appearance_line_out(line: Seq<char>) -> Seq<char> {
    if is_appearance_line(line) {
        crate::config::oblong_mark() + line
    } else {
        line
    }
}

/// Commenting out the appearance directives leaves none: no line written
/// back sets one.
pub proof fn lemma_appearance_fix_leaves_none(line: Seq<char>)
    ensures
        !is_appearance_line(appearance_line_out(line)),
{
    if is_appearance_line(line) {
        reveal_strlit("# [oblong] ");
        reveal_strlit("#");
        let m = crate::config::oblong_mark() + line;
        assert(m[0] == '#');
        crate::text::lemma_trim_keeps_first(m);
        assert(trim(m).take(1) =~= "#"@);
    }
}

fn is_appearance_line_exec(line: &Vec<char>) -> (r: bool)
    ensures
        r == is_appearance_line(line@),
{
    let t = trim_vec(line);
    if starts_with_str(&t, "#") {
        return false;
    }
    let found = starts_with_str(&t, "client.focused") || starts_with_str(&t, "client.unfocused")
        || starts_with_str(&t, "client.focused_inactive") || starts_with_str(&t, "client.urgent")
        || starts_with_str(&t, "default_border") || starts_with_str(&t, "default_floating_border")
        || starts_with_str(&t, "gaps inner") || starts_with_str(&t, "gaps outer")
        || starts_with_str(&t, "font ");
    proof {
        let p = appearance_prefixes();
        if found {
        } else {
            assert forall|k: int| 0 <= k < p.len() implies !starts_with(t@, #[trigger] p[k]) by {
                assert(k == 0 || k == 1 || k == 2 || k == 3 || k == 4 || k == 5 || k == 6 || k == 7
                    || k == 8);
            }
        }
        if found {
            if starts_with(t@, "client.focused"@) {
                assert(starts_with(t@, p[0]));
            } else if starts_with(t@, "client.unfocused"@) {
                assert(starts_with(t@, p[1]));
            } else if starts_with(t@, "client.focused_inactive"@) {
                assert(starts_with(t@, p[2]));
            } else if starts_with(t@, "client.urgent"@) {
                assert(starts_with(t@, p[3]));
            } else if starts_with(t@, "default_border"@) {
                assert(starts_with(t@, p[4]));
            } else if starts_with(t@, "default_floating_border"@) {
                assert(starts_with(t@, p[5]));
            } else if starts_with(t@, "gaps inner"@) {
                assert(starts_with(t@, p[6]));
            } else if starts_with(t@, "gaps outer"@) {
                assert(starts_with(t@, p[7]));
            } else {
                assert(starts_with(t@, p[8]));
            }
        }
    }
    found
}

/// The main config with every appearance directive commented out, or
/// `None` when it has none (nothing to write).
pub fn comment_out_appearance_conflicts(content: &str) -> (r: Option<String>)
    ensures
        (exists|i: int| 0 <= i < lines(content@).len() && is_appearance_line(#[trigger] lines(content@)[i]))
            ==> (r matches Some(s) && s@ == join(lines(content@).map_values(|l: Seq<char>| appearance_line_out(l)), "\n"@)),
        !(exists|i: int| 0 <= i < lines(content@).len() && is_appearance_line(#[trigger] lines(content@)[i]))
            ==> r is None,
{
    let cv = chars_of(content);
    let ls = lines_of(&cv);
    let ghost lv = lines(content@);
    let mut out: Vec<Vec<char>> = Vec::new();
    let mut changed = false;
    let mut i: usize = 0;
    while i < ls.len()
        invariant
            i <= ls.len() == lv.len(),
            lv == lines(content@),
            forall|j: int| 0 <= j < ls.len() ==> #[trigger] ls@[j]@ == lv[j],
            out.len() == i,
            forall|j: int| 0 <= j < i ==> #[trigger] out@[j]@ == appearance_line_out(lv[j]),
            changed == exists|j: int| 0 <= j < i && is_appearance_line(#[trigger] lv[j]),
        decreases ls.len() - i,
    {
        if is_appearance_line_exec(&ls[i]) {
            let mut l = chars_of("# [oblong] ");
            extend_chars(&mut l, &ls[i]);
            out.push(l);
            changed = true;
        } else {
            out.push(ls[i].clone());
        }
        i += 1;
    }
    if changed {
        assert(out@.map_values(|l: Vec<char>| l@) =~= lv.map_values(
            |l: Seq<char>| appearance_line_out(l),
        ));
        Some(join_lines(&out, "\n"))
    } else {
        None
    }
}

// ── Font list ───────────────────────────────────────────────

/// Lexicographic order of character sequences (the order of `String`).
pub open spec fn text_lt(a: Seq<char>, b: Seq<char>) -> bool
    decreases a.len(),
{
    if a.len() == 0 {
        b.len() > 0
    } else if b.len() == 0 {
        false
    } else if a[0] != b[0] {
        a[0] < b[0]
    } else {
        text_lt(a.drop_first(), b.drop_first())
    }
}

pub proof fn lemma_text_lt_transitive(a: Seq<char>, b: Seq<char>, c: Seq<char>)
    requires
        text_lt(a, b),
        text_lt(b, c),
    ensures
        text_lt(a, c),
    decreases a.len(),
{
    if a.len() > 0 && b.len() > 0 && c.len() > 0 {
        if a[0] == b[0] && b[0] == c[0] {
            lemma_text_lt_transitive(a.drop_first(), b.drop_first(), c.drop_first());
        }
    }
}

pub proof fn lemma_text_lt_total(a: Seq<char>, b: Seq<char>)
    requires
        a != b,
    ensures
        text_lt(a, b) || text_lt(b, a),
    decreases a.len(),
{
    if a.len() == 0 && b.len() == 0 {
        assert(a =~= b);
    }
    if a.len() > 0 && b.len() > 0 && a[0] == b[0] {
        assert(a.drop_first() != b.drop_first()) by {
            if a.drop_first() == b.drop_first() {
                assert(a.drop_first().len() == a.len() - 1);
                assert(b.drop_first().len() == b.len() - 1);
                assert forall|i: int| 0 <= i < a.len() implies a[i] == b[i] by {
                    if i > 0 {
                        assert(a[i] == a.drop_first()[i - 1]);
                        assert(b[i] == b.drop_first()[i - 1]);
                    }
                }
                assert(a =~= b);
            }
        }
        lemma_text_lt_total(a.drop_first(), b.drop_first());
    }
}

fn text_lt_exec(a: &Vec<char>, b: &Vec<char>) -> (r: bool)
    ensures
        r == text_lt(a@, b@),
{
    let mut i: usize = 0;
    assert(a@.skip(0) =~= a@);
    assert(b@.skip(0) =~= b@);
    while i < a.len() && i < b.len() && a[i] == b[i]
        invariant
            i <= a.len(),
            i <= b.len(),
            text_lt(a@, b@) == text_lt(a@.skip(i as int), b@.skip(i as int)),
        decreases a.len() - i,
    {
        assert(a@.skip(i as int).drop_first() == a@.skip(i + 1));
        assert(b@.skip(i as int).drop_first() == b@.skip(i + 1));
        i += 1;
    }
    if i == a.len() {
        b.len() > i
    } else if i == b.len() {
        false
    } else {
        a[i] < b[i]
    }
}

/// The font names in `fc-list` output: the comma-separated names of each
/// line, trimmed, empty ones left out.
pub open spec fn font_names(text: Seq<char>) -> Seq<Seq<char>> {
    lines(text).map_values(|l: Seq<char>| crate::text::split_char(l, ',')).flatten().map_values(
        |p: Seq<char>| trim(p),
    ).filter(|p: Seq<char>| p.len() > 0)
}

/// Strictly increasing: sorted, with no name twice.
pub open spec fn strictly_sorted(s: Seq<Seq<char>>) -> bool {
    forall|a: int, b: int| 0 <= a < b < s.len() ==> text_lt(s[a], s[b])
}

/// Inserts `x` into a strictly sorted list unless it is there already.
fn insert_sorted(r: &mut Vec<String>, x: String)
    requires
        strictly_sorted(old(r)@.map_values(|s: String| s@)),
    ensures
        strictly_sorted(final(r)@.map_values(|s: String| s@)),
        final(r)@.map_values(|s: String| s@).to_set() == old(r)@.map_values(|s: String| s@).to_set().insert(x@),
{
    let ghost rv = r@.map_values(|s: String| s@);
    let xv = chars_of(x.as_str());
    let mut p: usize = 0;
    while p < r.len() && text_lt_exec(&chars_of(r[p].as_str()), &xv)
        invariant
            p <= r@.len(),
            rv == r@.map_values(|s: String| s@),
            forall|j: int| 0 <= j < p ==> text_lt(#[trigger] rv[j], x@),
        decreases r.len() - p,
    {
        p += 1;
    }
    if p < r.len() && r[p] == x {
        assert(rv[p as int] == x@);
        assert(rv.to_set().insert(x@) =~= rv.to_set());
        return;
    }
    if p < r.len() {
        proof {
            assert(!text_lt(rv[p as int], x@));
            lemma_text_lt_total(rv[p as int], x@);
        }
    }
    r.insert(p, x);
    proof {
        let nv = r@.map_values(|s: String| s@);
        assert(nv =~= rv.insert(p as int, x@));
        assert forall|a: int, b: int| 0 <= a < b < nv.len() implies text_lt(nv[a], nv[b]) by {
            if b == p {
            } else if a == p {
                if b - 1 > p {
                    lemma_text_lt_transitive(x@, rv[p as int], rv[b - 1]);
                }
            } else if a < p && b > p {
                assert(nv[a] == rv[a]);
                assert(nv[b] == rv[b - 1]);
            }
        }
        assert forall|e: Seq<char>| nv.to_set().contains(e) implies rv.to_set().insert(x@).contains(e) by {
            let j = choose|j: int| 0 <= j < nv.len() && nv[j] == e;
            if j < p {
                assert(rv[j] == e);
            } else if j > p {
                assert(rv[j - 1] == e);
            }
        }
        assert forall|e: Seq<char>| rv.to_set().insert(x@).contains(e) implies nv.to_set().contains(e) by {
            if e == x@ {
                assert(nv[p as int] == e);
            } else {
                let j = choose|j: int| 0 <= j < rv.len() && rv[j] == e;
                if j < p {
                    assert(nv[j] == e);
                } else {
                    assert(nv[j + 1] == e);
                }
            }
        }
        assert(nv.to_set() =~= rv.to_set().insert(x@));
    }
}

/// The installed font families from the text that `fc-list : family`
/// prints: sorted, each once.
pub fn parse_font_list(text: &str) -> (r: Vec<String>)
    ensures
        strictly_sorted(r@.map_values(|s: String| s@)),
        r@.map_values(|s: String| s@).to_set() == font_names(text@).to_set(),
{
    let tv = chars_of(text);
    let ls = crate::text::lines_of(&tv);
    let ghost lv = lines(text@);
    let ghost per_line = lv.map_values(|l: Seq<char>| crate::text::split_char(l, ','));
    let ghost pred = |p: Seq<char>| p.len() > 0;
    let mut r: Vec<String> = Vec::new();
    let mut i: usize = 0;
    assert(r@.map_values(|s: String| s@).to_set() =~= Set::<Seq<char>>::empty());
    while i < ls.len()
        invariant
            i <= ls.len() == lv.len(),
            lv == lines(text@),
            forall|j: int| 0 <= j < ls.len() ==> #[trigger] ls@[j]@ == lv[j],
            per_line == lv.map_values(|l: Seq<char>| crate::text::split_char(l, ',')),
            strictly_sorted(r@.map_values(|s: String| s@)),
            r@.map_values(|s: String| s@).to_set() == per_line.take(i as int).flatten().map_values(
                |p: Seq<char>| trim(p),
            ).filter(pred).to_set(),
        decreases ls.len() - i,
    {
        let pieces = crate::text::split_char_exec(&ls[i], ',');
        let ghost pv = pieces@.map_values(|p: Vec<char>| p@);
        assert(pv == per_line[i as int]);
        let ghost before = per_line.take(i as int).flatten().map_values(|p: Seq<char>| trim(p)).filter(pred);
        let mut k: usize = 0;
        while k < pieces.len()
            invariant
                k <= pieces@.len(),
                pv == pieces@.map_values(|p: Vec<char>| p@),
                strictly_sorted(r@.map_values(|s: String| s@)),
                r@.map_values(|s: String| s@).to_set() == before.to_set() + pv.take(k as int).map_values(
                    |p: Seq<char>| trim(p),
                ).filter(pred).to_set(),
            decreases pieces.len() - k,
        {
            let t = crate::text::trim_vec(&pieces[k]);
            proof {
                reveal_with_fuel(Seq::<_>::filter, 1);
                assert(pv.take(k + 1).drop_last() == pv.take(k as int));
                assert(pv.take(k + 1).map_values(|p: Seq<char>| trim(p)) == pv.take(k as int).map_values(
                    |p: Seq<char>| trim(p),
                ).push(t@));
            }
            let ghost m0 = pv.take(k as int).map_values(|p: Seq<char>| trim(p));
            let ghost m1 = pv.take(k + 1).map_values(|p: Seq<char>| trim(p));
            proof {
                assert(m1 == m0.push(t@));
                assert(m1.drop_last() =~= m0);
                assert(m1.last() == t@);
                reveal(Seq::filter);
                assert(m1.filter(pred) == if t@.len() > 0 { m0.filter(pred).push(t@) } else { m0.filter(pred) });
            }
            if t.len() > 0 {
                insert_sorted(&mut r, crate::text::string_of(&t));
                proof {
                    let f0 = pv.take(k as int).map_values(|p: Seq<char>| trim(p)).filter(pred);
                    assert(pv.take(k + 1).map_values(|p: Seq<char>| trim(p)).filter(pred) == f0.push(t@));
                    f0.lemma_push_to_set_commute(t@);
                    assert(r@.map_values(|s: String| s@).to_set() =~= before.to_set() + f0.push(t@).to_set());
                }
            } else {
                proof {
                    let f0 = pv.take(k as int).map_values(|p: Seq<char>| trim(p)).filter(pred);
                    assert(pv.take(k + 1).map_values(|p: Seq<char>| trim(p)).filter(pred) == f0);
                }
            }
            k += 1;
        }
        proof {
            assert(pv.take(pieces@.len() as int) == pv);
            lemma_flatten_step(per_line, i as int);
            let a = per_line.take(i as int).flatten();
            let b = per_line[i as int];
            assert(per_line.take(i + 1).flatten() == a + b);
            assert((a + b).map_values(|p: Seq<char>| trim(p)) =~= a.map_values(|p: Seq<char>| trim(p)) + b.map_values(
                |p: Seq<char>| trim(p),
            ));
            Seq::filter_distributes_over_add(
                a.map_values(|p: Seq<char>| trim(p)),
                b.map_values(|p: Seq<char>| trim(p)),
                pred,
            );
            vstd::seq_lib::seq_to_set_distributes_over_add(
                a.map_values(|p: Seq<char>| trim(p)).filter(pred),
                b.map_values(|p: Seq<char>| trim(p)).filter(pred),
            );
        }
        i += 1;
    }
    assert(per_line.take(ls.len() as int) == per_line);
    r
}

proof fn lemma_flatten_step(s: Seq<Seq<Seq<char>>>, i: int)
    requires
        0 <= i < s.len(),
    ensures
        s.take(i + 1).flatten() == s.take(i).flatten() + s[i],
{
    assert(s.take(i).push(s[i]) == s.take(i + 1));
    s.take(i).lemma_flatten_push(s[i]);
}

} // verus!
