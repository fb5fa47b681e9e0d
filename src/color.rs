//! Color specifications, the palette of roles, and the green-to-red gradient.
use vstd::prelude::*;
use crate::hsl::{hsl_color, parse_hsl};
use crate::text::{chars_of, dec_digits, string_of, push_str, push_decimal};

verus! {

/// A color as written in the configuration.
#[derive(Clone, Debug)]
pub enum ColorSpec {
    /// `hsl(H, S%, L%)`, hue in degrees, saturation and lightness in percent.
    Hsl(String),
    /// Red, green and blue components; valid with exactly three of them.
    Rgb(Vec<u8>),
    /// Three or six hexadecimal digits, optionally after a `#`.
    Hex(String),
}

/// The contents of a [`ColorSpec`] as plain sequences.
pub enum ColorSpecView {
    Hsl(Seq<char>),
    Rgb(Seq<u8>),
    Hex(Seq<char>),
}

impl View for ColorSpec {
    type V = ColorSpecView;

    open spec fn view(&self) -> ColorSpecView {
        match self {
            ColorSpec::Hsl(s) => ColorSpecView::Hsl(s@),
            ColorSpec::Rgb(v) => ColorSpecView::Rgb(v@),
            ColorSpec::Hex(s) => ColorSpecView::Hex(s@),
        }
    }
}

impl ColorSpec {
    /// A copy holding the same contents.
    pub fn duplicate(&self) -> (r: ColorSpec)
        ensures
            r@ == self@,
    {
        match self {
            ColorSpec::Hsl(s) => ColorSpec::Hsl(s.clone()),
            ColorSpec::Rgb(v) => {
                let mut w: Vec<u8> = Vec::new();
                let mut i: usize = 0;
                while i < v.len()
                    invariant
                        i <= v@.len(),
                        w@ == v@.subrange(0, i as int),
                    decreases v@.len() - i,
                {
                    w.push(v[i]);
                    i = i + 1;
                    assert(w@ =~= v@.subrange(0, i as int));
                }
                assert(v@.subrange(0, v@.len() as int) =~= v@);
                ColorSpec::Rgb(w)
            },
            ColorSpec::Hex(s) => ColorSpec::Hex(s.clone()),
        }
    }
}

/// The palette: one color for each role of the status line.
#[derive(Clone, Debug)]
pub struct Colors {
    pub background: ColorSpec,
    pub model: ColorSpec,
    pub cwd: ColorSpec,
    pub time: ColorSpec,
    pub git_clean: ColorSpec,
    pub delta: ColorSpec,
    pub cost: ColorSpec,
    pub cache: ColorSpec,
    pub separator: ColorSpec,
}

/// Whether two palettes give every role the same color.
pub open spec fn same_palette(a: &Colors, b: &Colors) -> bool {
    &&& a.background@ == b.background@
    &&& a.model@ == b.model@
    &&& a.cwd@ == b.cwd@
    &&& a.time@ == b.time@
    &&& a.git_clean@ == b.git_clean@
    &&& a.delta@ == b.delta@
    &&& a.cost@ == b.cost@
    &&& a.cache@ == b.cache@
    &&& a.separator@ == b.separator@
}

pub open spec fn is_rgb(c: &ColorSpec, r: u8, g: u8, b: u8) -> bool {
    c@ == ColorSpecView::Rgb(seq![r, g, b])
}

fn rgb_spec(r: u8, g: u8, b: u8) -> (c: ColorSpec)
    ensures
        is_rgb(&c, r, g, b),
{
    let v = vec![r, g, b];
    assert(v@ =~= seq![r, g, b]);
    ColorSpec::Rgb(v)
}

/// The palette whose text roles all use `text` on the default orange tones.
pub open spec fn is_default_palette(c: &Colors, text: u8) -> bool {
    &&& is_rgb(&c.background, 240, 160, 80)
    &&& is_rgb(&c.model, text, text, text)
    &&& is_rgb(&c.cwd, text, text, text)
    &&& is_rgb(&c.time, text, text, text)
    &&& is_rgb(&c.git_clean, text, text, text)
    &&& is_rgb(&c.delta, text, text, text)
    &&& is_rgb(&c.cost, text, text, text)
    &&& is_rgb(&c.cache, text, text, text)
    &&& is_rgb(&c.separator, 220, 100, 0)
}

fn default_palette(text: u8) -> (c: Colors)
    ensures
        is_default_palette(&c, text),
{
    Colors {
        background: rgb_spec(240, 160, 80),
        model: rgb_spec(text, text, text),
        cwd: rgb_spec(text, text, text),
        time: rgb_spec(text, text, text),
        git_clean: rgb_spec(text, text, text),
        delta: rgb_spec(text, text, text),
        cost: rgb_spec(text, text, text),
        cache: rgb_spec(text, text, text),
        separator: rgb_spec(220, 100, 0),
    }
}

impl Default for Colors {
    /// Black text on the orange tones.
    fn default() -> (c: Colors)
        ensures
            is_default_palette(&c, 0),
    {
        default_palette(0)
    }
}

/// The palette in use: the configured one if any, else black text on a light
/// background and white text on a dark one.
pub fn get_colors(config_colors: Option<&Colors>, is_light_bg: bool) -> (r: Colors)
    ensures
        config_colors matches Some(c) ==> same_palette(&r, c),
        config_colors is None ==> is_default_palette(&r, if is_light_bg { 0 } else { 255 }),
{
    match config_colors {
        Some(c) => Colors {
            background: c.background.duplicate(),
            model: c.model.duplicate(),
            cwd: c.cwd.duplicate(),
            time: c.time.duplicate(),
            git_clean: c.git_clean.duplicate(),
            delta: c.delta.duplicate(),
            cost: c.cost.duplicate(),
            cache: c.cache.duplicate(),
            separator: c.separator.duplicate(),
        },
        None => default_palette(if is_light_bg { 0 } else { 255 }),
    }
}

/// The value of a hexadecimal digit, either case.
pub open spec fn hex_value(c: char) -> Option<u8> {
    if '0' <= c && c <= '9' {
        Some((c as u32 - '0' as u32) as u8)
    } else if 'a' <= c && c <= 'f' {
        Some((c as u32 - 'a' as u32 + 10) as u8)
    } else if 'A' <= c && c <= 'F' {
        Some((c as u32 - 'A' as u32 + 10) as u8)
    } else {
        None
    }
}

/// `s` without its leading `#`, if it has one.
pub open spec fn strip_hash(s: Seq<char>) -> Seq<char> {
    if s.len() > 0 && s[0] == '#' {
        s.drop_first()
    } else {
        s
    }
}

pub open spec fn all_hex(s: Seq<char>) -> bool {
    forall|i: int| 0 <= i < s.len() ==> (#[trigger] hex_value(s[i])) is Some
}

pub open spec fn hex_pair(hi: char, lo: char) -> u8 {
    (hex_value(hi)->0 * 16 + hex_value(lo)->0) as u8
}

/// The color written as hex digits after an optional `#`: six digits give the three bytes, three
/// digits stand for each digit doubled.
pub open spec fn hex_color(text: Seq<char>) -> Option<(u8, u8, u8)> {
    let h = strip_hash(text);
    if !all_hex(h) {
        None
    } else if h.len() == 6 {
        Some((hex_pair(h[0], h[1]), hex_pair(h[2], h[3]), hex_pair(h[4], h[5])))
    } else if h.len() == 3 {
        Some((hex_pair(h[0], h[0]), hex_pair(h[1], h[1]), hex_pair(h[2], h[2])))
    } else {
        None
    }
}

fn hex_digit(c: char) -> (r: Option<u8>)
    ensures
        r == hex_value(c),
{
    if '0' <= c && c <= '9' {
        Some((c as u32 - '0' as u32) as u8)
    } else if 'a' <= c && c <= 'f' {
        Some((c as u32 - 'a' as u32 + 10) as u8)
    } else if 'A' <= c && c <= 'F' {
        Some((c as u32 - 'A' as u32 + 10) as u8)
    } else {
        None
    }
}

fn parse_hex(text: &String) -> (r: Option<(u8, u8, u8)>)
    ensures
        r == hex_color(text@),
{
    let all = chars_of(text.as_str());
    let start: usize = if all.len() > 0 && all[0] == '#' { 1 } else { 0 };
    let ghost h = all@.subrange(start as int, all@.len() as int);
    assert(strip_hash(all@) =~= h);
    let n = all.len() - start;
    let mut digits: Vec<u8> = Vec::new();
    let mut i: usize = start;
    while i < all.len()
        invariant
            start <= i <= all@.len(),
            h == all@.subrange(start as int, all@.len() as int),
            strip_hash(text@) == h,
            digits@.len() == i - start,
            forall|j: int| 0 <= j < i - start ==> hex_value(#[trigger] h[j]) == Some(digits@[j]),
        decreases all@.len() - i,
    {
        match hex_digit(all[i]) {
            Some(d) => digits.push(d),
            None => {
                assert(hex_value(h[i - start]) is None);
                assert(!all_hex(h));
                return None;
            },
        }
        i = i + 1;
    }
    assert(all_hex(h));
    if n == 6 {
        Some((digits[0] * 16 + digits[1], digits[2] * 16 + digits[3], digits[4] * 16 + digits[5]))
    } else if n == 3 {
        Some((digits[0] * 16 + digits[0], digits[1] * 16 + digits[1], digits[2] * 16 + digits[2]))
    } else {
        None
    }
}

/// The color a spec stands for, if it is valid.
pub open spec fn parsed_color(c: ColorSpecView) -> Option<(u8, u8, u8)> {
    match c {
        ColorSpecView::Rgb(v) => if v.len() == 3 { Some((v[0], v[1], v[2])) } else { None },
        ColorSpecView::Hex(t) => hex_color(t),
        ColorSpecView::Hsl(t) => hsl_color(t),
    }
}

/// Converts a color spec into red, green and blue bytes; `None` when it is
/// malformed.
pub fn parse_color(spec: &ColorSpec) -> (r: Option<(u8, u8, u8)>)
    ensures
        r == parsed_color(spec@),
{
    match spec {
        ColorSpec::Rgb(v) => {
            if v.len() == 3 {
                Some((v[0], v[1], v[2]))
            } else {
                None
            }
        },
        ColorSpec::Hex(t) => parse_hex(t),
        ColorSpec::Hsl(t) => parse_hsl(t),
    }
}

/// `s` with every digit doubled.
pub open spec fn doubled_digits(s: Seq<char>) -> Seq<char> {
    seq![s[0], s[0], s[1], s[1], s[2], s[2]]
}

/// Three hex digits, with or without a leading `#`, give the color of the six
/// digits that double each of them.
pub proof fn lemma_short_hex_expands(s: Seq<char>)
    requires
        s.len() == 3,
        all_hex(s),
    ensures
        hex_color(s) == hex_color(doubled_digits(s)),
        hex_color(seq!['#'] + s) == hex_color(seq!['#'] + doubled_digits(s)),
        hex_color(s) is Some,
{
    let d = doubled_digits(s);
    assert(hex_value(s[0]) is Some);
    assert(hex_value(s[1]) is Some);
    assert(hex_value(s[2]) is Some);
    assert((seq!['#'] + s).drop_first() =~= s);
    assert((seq!['#'] + d).drop_first() =~= d);
    assert(all_hex(d));
}

/// One channel of a linear blend from `a` towards `b`, `n` being the share of
/// `b` in units of 1/5000, truncated.
pub open spec fn blend(a: int, b: int, n: int) -> int {
    (a * 5000 + (b - a) * n) / 5000
}

pub open spec fn blend_rgb(a: (u8, u8, u8), b: (u8, u8, u8), n: int) -> (u8, u8, u8) {
    (
        blend(a.0 as int, b.0 as int, n) as u8,
        blend(a.1 as int, b.1 as int, n) as u8,
        blend(a.2 as int, b.2 as int, n) as u8,
    )
}

/// The green stop of the gradient: dimmer on a light background.
pub open spec fn green_stop(light: bool) -> (u8, u8, u8) {
    if light { (0, 150, 0) } else { (80, 255, 80) }
}

pub open spec fn yellow_stop(light: bool) -> (u8, u8, u8) {
    if light { (200, 180, 0) } else { (255, 240, 80) }
}

pub open spec fn red_stop(light: bool) -> (u8, u8, u8) {
    if light { (180, 0, 0) } else { (255, 80, 80) }
}

/// The gradient color of a percentage given in hundredths of a percent,
/// clamped to the range 0..=10000: green to yellow over the lower half,
/// yellow to red over the upper half.
pub open spec fn gradient_color(bp: int, light: bool) -> (u8, u8, u8) {
    let p = if bp < 0 { 0 } else if bp > 10000 { 10000 } else { bp };
    if p <= 5000 {
        blend_rgb(green_stop(light), yellow_stop(light), p)
    } else {
        blend_rgb(yellow_stop(light), red_stop(light), p - 5000)
    }
}

fn blend_channel(a: u8, b: u8, n: u32) -> (r: u8)
    requires
        n <= 5000,
    ensures
        r as int == blend(a as int, b as int, n as int),
{
    let d: i64 = (b as i64) - (a as i64);
    assert(-255 * 5000 <= d * (n as i64) <= 255 * 5000) by (nonlinear_arith)
        requires
            -255 <= d <= 255,
            0 <= n <= 5000,
    {
    }
    let v: i64 = (a as i64) * 5000 + d * (n as i64);
    assert(0 <= v <= 255 * 5000) by (nonlinear_arith)
        requires
            v == (a as int) * 5000 + ((b as int) - (a as int)) * (n as int),
            0 <= a <= 255,
            0 <= b <= 255,
            0 <= n <= 5000,
    {
        assert(v == (a as int) * (5000 - n) + (b as int) * n);
    }
    (v / 5000) as u8
}

fn blend_stops(a: (u8, u8, u8), b: (u8, u8, u8), n: u32) -> (r: (u8, u8, u8))
    requires
        n <= 5000,
    ensures
        r == blend_rgb(a, b, n as int),
{
    (blend_channel(a.0, b.0, n), blend_channel(a.1, b.1, n), blend_channel(a.2, b.2, n))
}

/// Maps a percentage, in hundredths of a percent, to a color on the
/// green-yellow-red ramp of the background mode.
pub fn gradient_green_to_red(percentage_bp: u32, _bg: (u8, u8, u8), is_light_bg: bool) -> (r: (u8, u8, u8))
    ensures
        r == gradient_color(percentage_bp as int, is_light_bg),
{
    let p: u32 = if percentage_bp > 10000 { 10000 } else { percentage_bp };
    let (green, yellow, red): ((u8, u8, u8), (u8, u8, u8), (u8, u8, u8)) = if is_light_bg {
        ((0, 150, 0), (200, 180, 0), (180, 0, 0))
    } else {
        ((80, 255, 80), (255, 240, 80), (255, 80, 80))
    };
    if p <= 5000 {
        blend_stops(green, yellow, p)
    } else {
        blend_stops(yellow, red, p - 5000)
    }
}

/// The gradient hits its three stops exactly at 0%, 50% and 100%.
pub proof fn lemma_gradient_stops(light: bool)
    ensures
        gradient_color(0, light) == green_stop(light),
        gradient_color(5000, light) == yellow_stop(light),
        gradient_color(10000, light) == red_stop(light),
{
}

/// The share of a thousand changed lines, in hundredths of a percent, capped
/// at 100%.
pub open spec fn diff_share_bp(diff_lines: int) -> int {
    if diff_lines >= 1000 { 10000 } else { diff_lines * 10 }
}

/// The warning color for a number of uncommitted changed lines: the gradient
/// over the share of a thousand lines, saturating there.
pub fn commit_warning_color(diff_lines: u64, bg_rgb: (u8, u8, u8), is_light_bg: bool) -> (r: (u8, u8, u8))
    ensures
        r == gradient_color(diff_share_bp(diff_lines as int), is_light_bg),
{
    let bp: u32 = if diff_lines >= 1000 { 10000 } else { (diff_lines * 10) as u32 };
    gradient_green_to_red(bp, bg_rgb, is_light_bg)
}

/// The color of a spec that is known to be valid.
pub fn color_from_spec(spec: &ColorSpec) -> (r: (u8, u8, u8))
    requires
        parsed_color(spec@) is Some,
    ensures
        parsed_color(spec@) == Some(r),
{
    match parse_color(spec) {
        Some(rgb) => rgb,
        None => (0, 0, 0),
    }
}

/// Perceived brightness in units of 1/10000: the Rec. 709 luma weights.
pub open spec fn brightness_e4(rgb: (u8, u8, u8)) -> int {
    2126 * rgb.0 + 7152 * rgb.1 + 722 * rgb.2
}

/// A text color made readable on the background mode: a dark one becomes
/// white on a dark background, a bright one black on a light background.
pub open spec fn adjusted_view(c: ColorSpecView, light: bool) -> ColorSpecView {
    match parsed_color(c) {
        Some(rgb) => if !light && brightness_e4(rgb) < 800000 {
            ColorSpecView::Rgb(seq![255u8, 255u8, 255u8])
        } else if light && brightness_e4(rgb) > 1750000 {
            ColorSpecView::Rgb(seq![0u8, 0u8, 0u8])
        } else {
            c
        },
        None => c,
    }
}

fn brightness(rgb: (u8, u8, u8)) -> (r: u32)
    ensures
        r == brightness_e4(rgb),
{
    2126 * (rgb.0 as u32) + 7152 * (rgb.1 as u32) + 722 * (rgb.2 as u32)
}

fn adjust(spec: ColorSpec, light: bool) -> (r: ColorSpec)
    ensures
        r@ == adjusted_view(spec@, light),
{
    match parse_color(&spec) {
        Some(rgb) => {
            let b = brightness(rgb);
            if !light && b < 800000 {
                rgb_spec(255, 255, 255)
            } else if light && b > 1750000 {
                rgb_spec(0, 0, 0)
            } else {
                spec
            }
        },
        None => spec,
    }
}

/// Adjusts every text role of the palette for the background mode; the
/// background color itself is kept.
pub fn adjust_colors_for_background(colors: Colors, is_light_bg: bool) -> (r: Colors)
    ensures
        r.background@ == colors.background@,
        r.model@ == adjusted_view(colors.model@, is_light_bg),
        r.cwd@ == adjusted_view(colors.cwd@, is_light_bg),
        r.time@ == adjusted_view(colors.time@, is_light_bg),
        r.git_clean@ == adjusted_view(colors.git_clean@, is_light_bg),
        r.delta@ == adjusted_view(colors.delta@, is_light_bg),
        r.cost@ == adjusted_view(colors.cost@, is_light_bg),
        r.cache@ == adjusted_view(colors.cache@, is_light_bg),
        r.separator@ == adjusted_view(colors.separator@, is_light_bg),
{
    Colors {
        background: colors.background,
        model: adjust(colors.model, is_light_bg),
        cwd: adjust(colors.cwd, is_light_bg),
        time: adjust(colors.time, is_light_bg),
        git_clean: adjust(colors.git_clean, is_light_bg),
        delta: adjust(colors.delta, is_light_bg),
        cost: adjust(colors.cost, is_light_bg),
        cache: adjust(colors.cache, is_light_bg),
        separator: adjust(colors.separator, is_light_bg),
    }
}

/// The palette's colors in role order: background, model, cwd, time,
/// git_clean, delta, cost, cache, separator.
pub open spec fn palette_views(c: &Colors) -> Seq<ColorSpecView> {
    seq![c.background@, c.model@, c.cwd@, c.time@, c.git_clean@, c.delta@, c.cost@, c.cache@, c.separator@]
}

/// The first color of `cs` that does not parse, if any.
pub open spec fn first_invalid(cs: Seq<ColorSpecView>) -> Option<ColorSpecView>
    decreases cs.len(),
{
    if cs.len() == 0 {
        None
    } else if parsed_color(cs[0]) is None {
        Some(cs[0])
    } else {
        first_invalid(cs.drop_first())
    }
}

pub open spec fn bytes_text(v: Seq<u8>) -> Seq<char>
    decreases v.len(),
{
    if v.len() == 0 {
        Seq::<char>::empty()
    } else if v.len() == 1 {
        dec_digits(v[0] as nat)
    } else {
        bytes_text(v.drop_last()) + seq![',', ' '] + dec_digits(v.last() as nat)
    }
}

/// What `Debug` writes for a string: the string in double quotes, each
/// character as `char::escape_debug` writes it inside a string.
pub uninterp spec fn debug_text_of(s: Seq<char>) -> Seq<char>;

/// Relies on `<str as Debug>::fmt`, written through `format!`: the quoted and
/// escaped form, which depends on the characters alone.
#[verifier::external_body]
fn debug_text(s: &str) -> (r: String)
    ensures
        r@ == debug_text_of(s@),
{
    format!("{:?}", s)
}

/// A tagged value as `Debug` writes a one-field tuple variant: the tag, then
/// the field's `Debug` text in parentheses.
pub fn tagged_text(tag: &str, field: &str) -> (r: String)
    ensures
        r@ == tag@ + seq!['('] + field@ + seq![')'],
{
    let mut out: Vec<char> = Vec::new();
    push_str(&mut out, tag);
    out.push('(');
    push_str(&mut out, field);
    out.push(')');
    string_of(&out)
}

/// A color spec as it is named in messages, its `Debug` form:
/// `Hsl("...")`, `Rgb([r, g, b])` or `Hex("...")`.
pub open spec fn spec_text(c: ColorSpecView) -> Seq<char> {
    match c {
        ColorSpecView::Hsl(t) => "Hsl"@ + seq!['('] + debug_text_of(t) + seq![')'],
        ColorSpecView::Rgb(v) => seq!['R', 'g', 'b', '(', '['] + bytes_text(v) + seq![']', ')'],
        ColorSpecView::Hex(t) => "Hex"@ + seq!['('] + debug_text_of(t) + seq![')'],
    }
}

pub open spec fn invalid_message(c: ColorSpecView) -> Seq<char> {
    "Invalid color specification: "@ + spec_text(c)
}

impl ColorSpec {
    /// The spec as it is named in messages.
    pub fn describe(&self) -> (r: String)
        ensures
            r@ == spec_text(self@),
    {
        let mut out: Vec<char> = Vec::new();
        match self {
            ColorSpec::Hsl(t) => {
                let q = debug_text(t.as_str());
                return tagged_text("Hsl", q.as_str());
            },
            ColorSpec::Hex(t) => {
                let q = debug_text(t.as_str());
                return tagged_text("Hex", q.as_str());
            },
            ColorSpec::Rgb(v) => {
                push_str(&mut out, "Rgb([");
                let ghost start = out@;
                let mut i: usize = 0;
                while i < v.len()
                    invariant
                        i <= v@.len(),
                        out@ == start + bytes_text(v@.subrange(0, i as int)),
                    decreases v@.len() - i,
                {
                    let ghost sub = v@.subrange(0, i + 1);
                    assert(sub.drop_last() =~= v@.subrange(0, i as int));
                    if i > 0 {
                        out.push(',');
                        out.push(' ');
                    }
                    push_decimal(&mut out, v[i] as u64);
                    assert(out@ =~= start + bytes_text(sub));
                    i = i + 1;
                }
                assert(v@.subrange(0, v@.len() as int) =~= v@);
                push_str(&mut out, "])");
                proof { reveal_strlit("Rgb(["); reveal_strlit("])"); }
                assert(out@ =~= spec_text(self@));
            },
        }
        string_of(&out)
    }
}

fn check_color(c: &ColorSpec) -> (r: Result<(), String>)
    ensures
        r is Ok <==> parsed_color(c@) is Some,
        r matches Err(m) ==> m@ == invalid_message(c@),
{
    if parse_color(c).is_some() {
        Ok(())
    } else {
        let mut out: Vec<char> = Vec::new();
        push_str(&mut out, "Invalid color specification: ");
        let d = c.describe();
        push_str(&mut out, d.as_str());
        Err(string_of(&out))
    }
}

/// Every color of the palette parses.
pub open spec fn palette_valid(c: &Colors) -> bool {
    &&& parsed_color(c.background@) is Some
    &&& parsed_color(c.model@) is Some
    &&& parsed_color(c.cwd@) is Some
    &&& parsed_color(c.time@) is Some
    &&& parsed_color(c.git_clean@) is Some
    &&& parsed_color(c.delta@) is Some
    &&& parsed_color(c.cost@) is Some
    &&& parsed_color(c.cache@) is Some
    &&& parsed_color(c.separator@) is Some
}

/// Checks that every color of the palette parses; the error names the first
/// one that does not.
pub fn validate_colors(colors: &Colors) -> (r: Result<(), String>)
    ensures
        r is Ok <==> first_invalid(palette_views(colors)) is None,
        r is Ok ==> palette_valid(colors),
        r matches Err(m) ==> first_invalid(palette_views(colors)) matches Some(c) && m@ == invalid_message(c),
{
    let specs: [&ColorSpec; 9] = [
        &colors.background,
        &colors.model,
        &colors.cwd,
        &colors.time,
        &colors.git_clean,
        &colors.delta,
        &colors.cost,
        &colors.cache,
        &colors.separator,
    ];
    let ghost views = palette_views(colors);
    assert forall|j: int| 0 <= j < 9 implies (#[trigger] specs@[j])@ == views[j] by {}
    assert(views.subrange(0, 9) =~= views);
    let mut i: usize = 0;
    while i < 9
        invariant
            i <= 9,
            views == palette_views(colors),
            forall|j: int| 0 <= j < 9 ==> (#[trigger] specs@[j])@ == views[j],
            forall|j: int| 0 <= j < i ==> (#[trigger] parsed_color(views[j])) is Some,
            first_invalid(views) == first_invalid(views.subrange(i as int, 9)),
        decreases 9 - i,
    {
        let ghost rest = views.subrange(i as int, 9);
        assert(rest[0] == views[i as int]);
        if let Err(e) = check_color(specs[i]) {
            return Err(e);
        }
        assert(rest.drop_first() =~= views.subrange(i + 1, 9));
        i = i + 1;
    }
    assert(views.subrange(9, 9).len() == 0);
    assert(parsed_color(views[0]) is Some && parsed_color(views[1]) is Some && parsed_color(views[2]) is Some);
    assert(parsed_color(views[3]) is Some && parsed_color(views[4]) is Some && parsed_color(views[5]) is Some);
    assert(parsed_color(views[6]) is Some && parsed_color(views[7]) is Some && parsed_color(views[8]) is Some);
    Ok(())
}

} // verus!
