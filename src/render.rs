//! Field rendering, template substitution and the warning line.
use vstd::prelude::*;
use crate::color::{color_from_spec, ColorSpec, ColorSpecView, Colors, parsed_color, gradient_color, palette_valid,
    gradient_green_to_red, commit_warning_color, diff_share_bp};
use crate::config::{Config, get_symbol, symbol_text};
use crate::git::{duration_text, format_duration, format_duration_ms};
use crate::path::{abbreviate_path, abbreviated};
use crate::text::{chars_of, string_of, push_str, push_decimal, dec_digits,
    round_half_even, div_round_half_even, thousandths_text, push_thousandths, tenths_text,
    push_tenths, replace_all, replace_chars, soft_joined, soft_join, owned, join_with};
use crate::types::StatusInput;

verus! {

/// The escape code of a 24-bit color: `48;2;r;g;b` for a background
/// (`lead` is `4`), `38;2;r;g;b` for a foreground (`lead` is `3`).
pub open spec fn rgb_code(lead: char, c: (u8, u8, u8)) -> Seq<char> {
    seq![lead, '8', ';', '2', ';'] + dec_digits(c.0 as nat) + seq![';'] + dec_digits(c.1 as nat) + seq![';']
        + dec_digits(c.2 as nat)
}

/// The codes of a style, in the order they are written: bold, then the
/// background, then the foreground.
pub open spec fn style_codes(fg: Option<(u8, u8, u8)>, bg: Option<(u8, u8, u8)>, bold: bool) -> Seq<Seq<char>> {
    (if bold { seq![seq!['1']] } else { Seq::<Seq<char>>::empty() })
        + (match bg { Some(c) => seq![rgb_code('4', c)], None => Seq::<Seq<char>>::empty() })
        + (match fg { Some(c) => seq![rgb_code('3', c)], None => Seq::<Seq<char>>::empty() })
}

/// `text` painted in a style with the given colors, bold or not: unchanged
/// for a plain style, else `ESC [` and the codes joined by `;`, then `m`,
/// the text, and the reset `ESC [0m`.
pub open spec fn ansi_painted(
    text: Seq<char>,
    fg: Option<(u8, u8, u8)>,
    bg: Option<(u8, u8, u8)>,
    bold: bool,
) -> Seq<char> {
    let codes = style_codes(fg, bg, bold);
    if codes.len() == 0 {
        text
    } else {
        seq!['\u{1b}', '['] + join_with(codes, seq![';']) + seq!['m'] + text + seq!['\u{1b}', '[', '0', 'm']
    }
}

/// Relies on nu_ansi_term's `Style::paint` and its `Display` (`write_prefix`,
/// `write_suffix`): no codes for a plain style, else the bold, background and
/// foreground codes before the text and the reset after it.
#[verifier::external_body]
fn paint(text: &str, fg: Option<(u8, u8, u8)>, bg: Option<(u8, u8, u8)>, bold: bool) -> (r: String)
    ensures
        r@ == ansi_painted(text@, fg, bg, bold),
{
    let style = nu_ansi_term::Style {
        foreground: fg.map(|(r, g, b)| nu_ansi_term::Color::Rgb(r, g, b)),
        background: bg.map(|(r, g, b)| nu_ansi_term::Color::Rgb(r, g, b)),
        is_bold: bold,
        ..nu_ansi_term::Style::new()
    };
    style.paint(text).to_string()
}

fn push_painted(out: &mut Vec<char>, text: &str, fg: Option<(u8, u8, u8)>, bg: Option<(u8, u8, u8)>, bold: bool)
    ensures
        final(out)@ == old(out)@ + ansi_painted(text@, fg, bg, bold),
{
    let p = paint(text, fg, bg, bold);
    push_str(out, p.as_str());
}

/// The decoration at the start of the line.
pub open spec fn fox_head_text(color_enabled: bool) -> Seq<char> {
    if !color_enabled {
        ">>"@
    } else {
        ansi_painted("🭈"@, Some((0, 0, 0)), None, false)
            + ansi_painted("🭄"@, Some((250, 248, 230)), None, false)
            + ansi_painted("█"@, Some((255, 180, 40)), None, false)
            + ansi_painted("█"@, Some((255, 140, 0)), None, false)
    }
}

/// The decoration at the end of the line, its first cell on the background.
pub open spec fn fox_tail_text(bg: Option<(u8, u8, u8)>, color_enabled: bool) -> Seq<char> {
    if !color_enabled {
        "<<"@
    } else {
        ansi_painted(" "@, None, bg, false)
            + ansi_painted("🭝"@, Some((255, 140, 0)), None, false)
            + ansi_painted("🭓"@, Some((255, 160, 20)), None, false)
            + ansi_painted("▇"@, Some((255, 245, 200)), None, false)
            + ansi_painted("▅"@, Some((255, 160, 20)), None, false)
            + ansi_painted("▆"@, Some((255, 245, 200)), None, false)
            + ansi_painted("▄"@, Some((255, 160, 20)), None, false)
            + ansi_painted("▃"@, Some((255, 245, 200)), None, false)
            + ansi_painted("▄"@, Some((255, 160, 20)), None, false)
            + ansi_painted("▃"@, Some((255, 245, 200)), None, false)
            + ansi_painted("▂"@, Some((250, 248, 230)), None, false)
            + ansi_painted("🬽"@, Some((255, 245, 200)), None, false)
    }
}

pub fn fox_head(color_enabled: bool) -> (r: String)
    ensures
        r@ == fox_head_text(color_enabled),
{
    if !color_enabled {
        return owned(">>");
    }
    let mut out: Vec<char> = Vec::new();
    push_painted(&mut out, "🭈", Some((0, 0, 0)), None, false);
    push_painted(&mut out, "🭄", Some((250, 248, 230)), None, false);
    push_painted(&mut out, "█", Some((255, 180, 40)), None, false);
    push_painted(&mut out, "█", Some((255, 140, 0)), None, false);
    string_of(&out)
}

pub fn fox_tail(bg: Option<(u8, u8, u8)>, color_enabled: bool) -> (r: String)
    ensures
        r@ == fox_tail_text(bg, color_enabled),
{
    if !color_enabled {
        return owned("<<");
    }
    let mut out: Vec<char> = Vec::new();
    push_painted(&mut out, " ", None, bg, false);
    push_painted(&mut out, "🭝", Some((255, 140, 0)), None, false);
    push_painted(&mut out, "🭓", Some((255, 160, 20)), None, false);
    push_painted(&mut out, "▇", Some((255, 245, 200)), None, false);
    push_painted(&mut out, "▅", Some((255, 160, 20)), None, false);
    push_painted(&mut out, "▆", Some((255, 245, 200)), None, false);
    push_painted(&mut out, "▄", Some((255, 160, 20)), None, false);
    push_painted(&mut out, "▃", Some((255, 245, 200)), None, false);
    push_painted(&mut out, "▄", Some((255, 160, 20)), None, false);
    push_painted(&mut out, "▃", Some((255, 245, 200)), None, false);
    push_painted(&mut out, "▂", Some((250, 248, 230)), None, false);
    push_painted(&mut out, "🬽", Some((255, 245, 200)), None, false);
    string_of(&out)
}

/// `text` painted bold in the color `col` over `bg` when color output is
/// enabled, else `text` itself.
pub open spec fn painted_with(col: ColorSpecView, text: Seq<char>, bg: Option<(u8, u8, u8)>, color_enabled: bool) -> Seq<char> {
    if color_enabled {
        ansi_painted(text, parsed_color(col), bg, true)
    } else {
        text
    }
}

/// Paints `text` bold in the color `col`, over `bg` if given; plain text when
/// color output is disabled.
pub fn paint_with(col: &ColorSpec, text: String, bg: Option<(u8, u8, u8)>, color_enabled: bool) -> (r: String)
    requires
        color_enabled ==> parsed_color(col@) is Some,
    ensures
        r@ == painted_with(col@, text@, bg, color_enabled),
{
    if !color_enabled {
        return text;
    }
    let fg = color_from_spec(col);
    paint(text.as_str(), Some(fg), bg, true)
}

/// The context field before painting: the used percentage and the used
/// tokens in thousands, both rounded to whole numbers.
pub open spec fn ctx_plain(pct: nat, size: nat, sym: Seq<char>) -> Seq<char> {
    sym + dec_digits(round_half_even(pct, 100)) + "% ("@ + dec_digits(round_half_even(size * pct, 10_000_000))
        + "k)"@
}

pub open spec fn ctx_text(pct: nat, size: nat, sym: Seq<char>, bg: Option<(u8, u8, u8)>, light: bool, color_enabled: bool) -> Seq<char> {
    if color_enabled {
        ansi_painted(ctx_plain(pct, size, sym), Some(gradient_color(pct as int, light)), bg, true)
    } else {
        ctx_plain(pct, size, sym)
    }
}

/// Renders the context-window field, `pct` being the used share in
/// hundredths of a percent, colored by the gradient of that share.
pub fn render_ctx(
    pct: u32,
    size: u32,
    sym: &str,
    bg: Option<(u8, u8, u8)>,
    bg_rgb: (u8, u8, u8),
    light: bool,
    color_enabled: bool,
) -> (r: String)
    ensures
        r@ == ctx_text(pct as nat, size as nat, sym@, bg, light, color_enabled),
{
    let mut out: Vec<char> = Vec::new();
    push_str(&mut out, sym);
    push_decimal(&mut out, div_round_half_even(pct as u64, 100));
    push_str(&mut out, "% (");
    assert((size as u64) * (pct as u64) < 0xffff_ffff_ffff_ffffu64) by (nonlinear_arith)
        requires
            size <= 0xffff_ffffu32,
            pct <= 0xffff_ffffu32,
    {
    }
    push_decimal(&mut out, div_round_half_even((size as u64) * (pct as u64), 10_000_000));
    push_str(&mut out, "k)");
    proof { reveal_strlit("% ("); reveal_strlit("k)"); }
    let text = string_of(&out);
    assert(text@ =~= ctx_plain(pct as nat, size as nat, sym@));
    if !color_enabled {
        return text;
    }
    let c = gradient_green_to_red(pct, bg_rgb, light);
    paint(text.as_str(), Some(c), bg, true)
}

/// The version-control field for the query's outcome: nothing without one
/// or with the integration disabled;
/// with changes, the age of the last commit and the added and removed lines
/// in the gradient of the change size; else the clean symbol and the age.
pub open spec fn git_text(
    info: Option<(i64, u64, u64)>,
    cfg: &Config,
    col: ColorSpecView,
    bg: Option<(u8, u8, u8)>,
    light: bool,
    color_enabled: bool,
) -> Seq<char> {
    match info {
        None => Seq::<char>::empty(),
        Some(_) if !cfg.enable_git => Seq::<char>::empty(),
        Some((t, a, r)) => {
            let dur = duration_text(if t < 0 { 0 } else { t as nat });
            if a + r > 0 {
                let text = dur + " (+"@ + dec_digits(a as nat) + " -"@ + dec_digits(r as nat) + ")"@
                    + symbol_text("git_warning"@, cfg);
                if color_enabled {
                    ansi_painted(text, Some(gradient_color(diff_share_bp(a + r), light)), bg, true)
                } else {
                    text
                }
            } else {
                painted_with(col, symbol_text("git_clean"@, cfg) + dur, bg, color_enabled)
            }
        },
    }
}

/// Renders the outcome of the version-control query: seconds since the last
/// commit, then lines added and removed.
pub fn render_git(
    info: Option<(i64, u64, u64)>,
    cfg: &Config,
    col: &ColorSpec,
    bg: Option<(u8, u8, u8)>,
    bg_rgb: (u8, u8, u8),
    light: bool,
    color_enabled: bool,
) -> (r: String)
    requires
        color_enabled ==> parsed_color(col@) is Some,
    ensures
        r@ == git_text(info, cfg, col@, bg, light, color_enabled),
{
    if !cfg.enable_git {
        let e: Vec<char> = Vec::new();
        return string_of(&e);
    }
    match info {
        None => {
            let e: Vec<char> = Vec::new();
            string_of(&e)
        },
        Some((t, a, rm)) => {
            let dur = format_duration(t);
            if a > 0 || rm > 0 {
                let mut out: Vec<char> = Vec::new();
                push_str(&mut out, dur.as_str());
                push_str(&mut out, " (+");
                push_decimal(&mut out, a);
                push_str(&mut out, " -");
                push_decimal(&mut out, rm);
                push_str(&mut out, ")");
                let sym = get_symbol("git_warning", cfg);
                push_str(&mut out, sym.as_str());
                proof { reveal_strlit(" (+"); reveal_strlit(" -"); reveal_strlit(")"); }
                let text = string_of(&out);
                assert(text@ =~= dur@ + " (+"@ + dec_digits(a as nat) + " -"@ + dec_digits(rm as nat) + ")"@
                    + symbol_text("git_warning"@, cfg));
                if !color_enabled {
                    return text;
                }
                let total: u64 = if a > u64::MAX - rm { u64::MAX } else { a + rm };
                assert(diff_share_bp(total as int) == diff_share_bp(a + rm));
                let c = commit_warning_color(total, bg_rgb, light);
                paint(text.as_str(), Some(c), bg, true)
            } else {
                let mut out: Vec<char> = Vec::new();
                let sym = get_symbol("git_clean", cfg);
                push_str(&mut out, sym.as_str());
                push_str(&mut out, dur.as_str());
                paint_with(col, string_of(&out), bg, color_enabled)
            }
        },
    }
}

pub open spec fn head_text(cfg: &Config, color_enabled: bool) -> Seq<char> {
    match cfg.visual {
        Some(v) => match v.head {
            Some(h) => h@,
            None => fox_head_text(color_enabled),
        },
        None => fox_head_text(color_enabled),
    }
}

pub open spec fn tail_text(cfg: &Config, bg: Option<(u8, u8, u8)>, color_enabled: bool) -> Seq<char> {
    match cfg.visual {
        Some(v) => match v.tail {
            Some(t) => t@,
            None => fox_tail_text(bg, color_enabled),
        },
        None => fox_tail_text(bg, color_enabled),
    }
}

/// The cache field: read and written cache tokens in thousands; empty when
/// the input has no usage record.
pub open spec fn cache_text(d: &StatusInput, cfg: &Config, col: ColorSpecView, bg: Option<(u8, u8, u8)>, color_enabled: bool) -> Seq<char> {
    match d.context_window.current_usage {
        Some(u) => painted_with(
            col,
            symbol_text("cache"@, cfg) + "r:"@ + dec_digits(round_half_even(u.cache_read_input_tokens as nat, 1000))
                + "k w:"@ + dec_digits(round_half_even(u.cache_creation_input_tokens as nat, 1000)) + "k"@,
            bg,
            color_enabled,
        ),
        None => Seq::<char>::empty(),
    }
}

/// The named fields of the template, in the order they are substituted.
#[verifier::opaque]
pub open spec fn field_entries(
    d: &StatusInput,
    cfg: &Config,
    col: &Colors,
    bg: Option<(u8, u8, u8)>,
    light: bool,
    color_enabled: bool,
    git: Option<(i64, u64, u64)>,
) -> Seq<(Seq<char>, Seq<char>)> {
    seq![
        ("head"@, head_text(cfg, color_enabled)),
        ("tail"@, tail_text(cfg, bg, color_enabled)),
        ("model"@, painted_with(col.model@, d.model.display_name@, bg, color_enabled)),
        ("cwd"@, painted_with(col.cwd@, symbol_text("cwd"@, cfg) + d.workspace.current_dir@, bg, color_enabled)),
        ("cwdcompact"@, painted_with(col.cwd@, symbol_text("cwd"@, cfg) + abbreviated(d.workspace.current_dir@), bg, color_enabled)),
        ("duration"@, painted_with(col.time@, symbol_text("time"@, cfg) + duration_text((d.cost.total_duration_ms / 1000) as nat), bg, color_enabled)),
        ("ctx"@, ctx_text(d.context_window.used_percentage as nat, d.context_window.context_window_size as nat, symbol_text("context"@, cfg), bg, light, color_enabled)),
        ("claudedelta"@, painted_with(col.delta@, symbol_text("delta"@, cfg) + "+"@ + dec_digits(d.cost.total_lines_added as nat) + " -"@ + dec_digits(d.cost.total_lines_removed as nat), bg, color_enabled)),
        ("gitdelta"@, git_text(git, cfg, col.git_clean@, bg, light, color_enabled)),
        ("cost"@, painted_with(col.cost@, symbol_text("cost"@, cfg) + thousandths_text(d.cost.total_cost_usd as nat), bg, color_enabled)),
        ("cache"@, cache_text(d, cfg, col.cache@, bg, color_enabled)),
    ]
}

fn symbol_then(key: &str, cfg: &Config, rest: &str) -> (r: String)
    ensures
        r@ == symbol_text(key@, cfg) + rest@,
{
    let mut out: Vec<char> = Vec::new();
    let sym = get_symbol(key, cfg);
    push_str(&mut out, sym.as_str());
    push_str(&mut out, rest);
    string_of(&out)
}

fn render_cache(d: &StatusInput, cfg: &Config, col: &ColorSpec, bg: Option<(u8, u8, u8)>, color_enabled: bool) -> (r: String)
    requires
        color_enabled ==> parsed_color(col@) is Some,
    ensures
        r@ == cache_text(d, cfg, col@, bg, color_enabled),
{
    match &d.context_window.current_usage {
        Some(u) => {
            let mut out: Vec<char> = Vec::new();
            let sym = get_symbol("cache", cfg);
            push_str(&mut out, sym.as_str());
            push_str(&mut out, "r:");
            push_decimal(&mut out, div_round_half_even(u.cache_read_input_tokens as u64, 1000));
            push_str(&mut out, "k w:");
            push_decimal(&mut out, div_round_half_even(u.cache_creation_input_tokens as u64, 1000));
            push_str(&mut out, "k");
            paint_with(col, string_of(&out), bg, color_enabled)
        },
        None => {
            let e: Vec<char> = Vec::new();
            string_of(&e)
        },
    }
}

/// Resolves every named field of the template, `git` being the outcome of
/// the version-control query.
#[verifier::spinoff_prover]
#[verifier::rlimit(60)]
pub fn build_replacements(
    d: &StatusInput,
    cfg: &Config,
    col: &Colors,
    bg: Option<(u8, u8, u8)>,
    bg_rgb: (u8, u8, u8),
    light: bool,
    color_enabled: bool,
    git: Option<(i64, u64, u64)>,
) -> (r: Vec<(String, String)>)
    requires
        color_enabled ==> palette_valid(col),
    ensures
        r@.len() == 11,
        forall|i: int| 0 <= i < 11 ==> (#[trigger] r@[i]).0@ == field_entries(d, cfg, col, bg, light, color_enabled, git)[i].0
            && r@[i].1@ == field_entries(d, cfg, col, bg, light, color_enabled, git)[i].1,
{
    let head = match &cfg.visual {
        Some(v) => match &v.head {
            Some(h) => h.clone(),
            None => fox_head(color_enabled),
        },
        None => fox_head(color_enabled),
    };
    let tail = match &cfg.visual {
        Some(v) => match &v.tail {
            Some(t) => t.clone(),
            None => fox_tail(bg, color_enabled),
        },
        None => fox_tail(bg, color_enabled),
    };
    let model = paint_with(&col.model, d.model.display_name.clone(), bg, color_enabled);
    let cwd = paint_with(&col.cwd, symbol_then("cwd", cfg, d.workspace.current_dir.as_str()), bg, color_enabled);
    let compact = abbreviate_path(d.workspace.current_dir.as_str());
    let cwdcompact = paint_with(&col.cwd, symbol_then("cwd", cfg, compact.as_str()), bg, color_enabled);
    let dur = format_duration_ms(d.cost.total_duration_ms);
    let duration = paint_with(&col.time, symbol_then("time", cfg, dur.as_str()), bg, color_enabled);
    let ctx_sym = get_symbol("context", cfg);
    let ctx = render_ctx(
        d.context_window.used_percentage,
        d.context_window.context_window_size,
        ctx_sym.as_str(),
        bg,
        bg_rgb,
        light,
        color_enabled,
    );
    let mut delta_text: Vec<char> = Vec::new();
    let delta_sym = get_symbol("delta", cfg);
    push_str(&mut delta_text, delta_sym.as_str());
    push_str(&mut delta_text, "+");
    push_decimal(&mut delta_text, d.cost.total_lines_added as u64);
    push_str(&mut delta_text, " -");
    push_decimal(&mut delta_text, d.cost.total_lines_removed as u64);
    let claudedelta = paint_with(&col.delta, string_of(&delta_text), bg, color_enabled);
    let gitdelta = render_git(git, cfg, &col.git_clean, bg, bg_rgb, light, color_enabled);
    let mut cost_text: Vec<char> = Vec::new();
    let cost_sym = get_symbol("cost", cfg);
    push_str(&mut cost_text, cost_sym.as_str());
    push_thousandths(&mut cost_text, d.cost.total_cost_usd);
    let cost = paint_with(&col.cost, string_of(&cost_text), bg, color_enabled);
    let cache = render_cache(d, cfg, &col.cache, bg, color_enabled);
    let mut r: Vec<(String, String)> = Vec::new();
    r.push((owned("head"), head));
    r.push((owned("tail"), tail));
    r.push((owned("model"), model));
    r.push((owned("cwd"), cwd));
    r.push((owned("cwdcompact"), cwdcompact));
    r.push((owned("duration"), duration));
    r.push((owned("ctx"), ctx));
    r.push((owned("claudedelta"), claudedelta));
    r.push((owned("gitdelta"), gitdelta));
    r.push((owned("cost"), cost));
    r.push((owned("cache"), cache));
    proof { reveal(field_entries); }
    let ghost e = field_entries(d, cfg, col, bg, light, color_enabled, git);
    assert(r@[0].1@ == e[0].1);
    assert(r@[1].1@ == e[1].1);
    assert(r@[2].1@ == e[2].1);
    assert(r@[3].1@ == e[3].1);
    assert(r@[4].1@ == e[4].1);
    assert(r@[5].1@ == e[5].1);
    assert(r@[6].1@ == e[6].1);
    assert(r@[7].1@ =~= e[7].1);
    assert(r@[8].1@ == e[8].1);
    assert(r@[9].1@ =~= e[9].1);
    assert(r@[10].1@ == e[10].1);
    r
}

/// `s` with each `{name}` of `fields` replaced by its value, one field after
/// the other.
pub open spec fn substituted(s: Seq<char>, fields: Seq<(Seq<char>, Seq<char>)>) -> Seq<char>
    decreases fields.len(),
{
    if fields.len() == 0 {
        s
    } else {
        substituted(replace_all(s, seq!['{'] + fields[0].0 + seq!['}'], fields[0].1), fields.drop_first())
    }
}

/// The background behind painted fields: only with color output and
/// background compositing enabled.
pub open spec fn field_background(cfg: &Config, bg_rgb: (u8, u8, u8), color_enabled: bool) -> Option<(u8, u8, u8)> {
    if cfg.enable_background && color_enabled { Some(bg_rgb) } else { None }
}

pub open spec fn separator_text(cfg: &Config) -> Seq<char> {
    match cfg.visual {
        Some(v) => match v.separator {
            Some(sep) => sep@,
            None => " | "@,
        },
        None => " | "@,
    }
}

/// The styled token that joins the surviving segments.
pub open spec fn joiner_text(cfg: &Config, col: &Colors, bg: Option<(u8, u8, u8)>, color_enabled: bool) -> Seq<char> {
    if color_enabled {
        ansi_painted(separator_text(cfg), parsed_color(col.separator@), bg, false)
    } else {
        separator_text(cfg)
    }
}

/// The formatted line: the template with its fields substituted, split at
/// `|`, blank segments dropped, the rest trimmed and joined with the styled
/// separator.
pub open spec fn formatted_text(
    fmt: Seq<char>,
    d: &StatusInput,
    cfg: &Config,
    col: &Colors,
    bg_rgb: (u8, u8, u8),
    light: bool,
    color_enabled: bool,
    git: Option<(i64, u64, u64)>,
) -> Seq<char> {
    let bg = field_background(cfg, bg_rgb, color_enabled);
    soft_joined(
        substituted(fmt, field_entries(d, cfg, col, bg, light, color_enabled, git)),
        joiner_text(cfg, col, bg, color_enabled),
    )
}

/// Renders the format template `fmt`; `git` is the outcome of the
/// version-control query.
#[verifier::spinoff_prover]
pub fn render_formatted(
    fmt: &str,
    d: &StatusInput,
    cfg: &Config,
    col: &Colors,
    bg_rgb: (u8, u8, u8),
    light: bool,
    color_enabled: bool,
    git: Option<(i64, u64, u64)>,
) -> (r: String)
    requires
        color_enabled ==> palette_valid(col),
    ensures
        r@ == formatted_text(fmt@, d, cfg, col, bg_rgb, light, color_enabled, git),
{
    let bg = if cfg.enable_background && color_enabled { Some(bg_rgb) } else { None };
    let fields = build_replacements(d, cfg, col, bg, bg_rgb, light, color_enabled, git);
    let ghost entries = field_entries(d, cfg, col, bg, light, color_enabled, git);
    proof { reveal(field_entries); }
    assert(entries.len() == 11);
    let mut s = chars_of(fmt);
    let mut i: usize = 0;
    assert(entries.subrange(0, 11) =~= entries);
    while i < fields.len()
        invariant
            i <= 11,
            fields@.len() == 11,
            entries.len() == 11,
            forall|j: int| 0 <= j < 11 ==> (#[trigger] fields@[j]).0@ == entries[j].0 && fields@[j].1@ == entries[j].1,
            substituted(fmt@, entries) == substituted(s@, entries.subrange(i as int, 11)),
        decreases 11 - i,
    {
        let mut pat: Vec<char> = Vec::new();
        pat.push('{');
        push_str(&mut pat, fields[i].0.as_str());
        pat.push('}');
        let rep = chars_of(fields[i].1.as_str());
        let ghost rest = entries.subrange(i as int, 11);
        assert(rest[0] == entries[i as int]);
        assert(rest.drop_first() =~= entries.subrange(i + 1, 11));
        assert(pat@ =~= seq!['{'] + rest[0].0 + seq!['}']);
        s = replace_chars(&s, &pat, &rep);
        i = i + 1;
    }
    assert(entries.subrange(11, 11).len() == 0);
    let mut sep: Vec<char> = Vec::new();
    match &cfg.visual {
        Some(v) => match &v.separator {
            Some(t) => push_str(&mut sep, t.as_str()),
            None => push_str(&mut sep, " | "),
        },
        None => push_str(&mut sep, " | "),
    }
    let joiner = if color_enabled {
        let sep_text = string_of(&sep);
        let fg = color_from_spec(&col.separator);
        let p = paint(sep_text.as_str(), Some(fg), bg, false);
        chars_of(p.as_str())
    } else {
        sep
    };
    let out = soft_join(&s, &joiner);
    string_of(&out)
}

pub open spec fn default_warning_template() -> Seq<char> {
    "⚠ Context warning: {used_pct:.1}% in first minute ({used_k:.0}k/{total_k:.0}k tokens) ⚠"@
}

/// The warning before painting: the template (the user's or the default)
/// with the used percentage to one decimal, the used tokens in thousands
/// and the window size in thousands.
pub open spec fn warning_plain(d: &StatusInput, cfg: &Config) -> Seq<char> {
    let pct = d.context_window.used_percentage as nat;
    let size = d.context_window.context_window_size as nat;
    let used_pct = tenths_text(round_half_even(pct, 10));
    let used_k = dec_digits(round_half_even((size * pct) / 10000, 1000));
    let total_k = dec_digits(round_half_even(size, 1000));
    let t0 = match cfg.warning_message {
        Some(m) => m@,
        None => default_warning_template(),
    };
    let t1 = replace_all(t0, "{used_pct:.1}"@, used_pct);
    let t2 = replace_all(t1, "{used_pct}"@, used_pct);
    let t3 = replace_all(t2, "{used_k:.0}"@, used_k);
    let t4 = replace_all(t3, "{used_k}"@, used_k);
    let t5 = replace_all(t4, "{total_k:.0}"@, total_k);
    replace_all(t5, "{total_k}"@, total_k)
}

pub open spec fn warning_text(d: &StatusInput, cfg: &Config, bg_rgb: (u8, u8, u8), light: bool, color_enabled: bool) -> Seq<char> {
    if color_enabled {
        ansi_painted(
            warning_plain(d, cfg),
            Some(gradient_color(10000, light)),
            if cfg.enable_background { Some(bg_rgb) } else { None },
            true,
        )
    } else {
        warning_plain(d, cfg)
    }
}

fn replace_literal(s: Vec<char>, pat: &str, rep: &Vec<char>) -> (r: Vec<char>)
    requires
        pat@.len() > 0,
    ensures
        r@ == replace_all(s@, pat@, rep@),
{
    let p = chars_of(pat);
    replace_chars(&s, &p, rep)
}

/// Renders the high-initial-context warning, painted at the red end of the
/// gradient.
pub fn render_warning(d: &StatusInput, cfg: &Config, bg_rgb: (u8, u8, u8), light: bool, color_enabled: bool) -> (r: String)
    ensures
        r@ == warning_text(d, cfg, bg_rgb, light, color_enabled),
{
    let pct = d.context_window.used_percentage as u64;
    let size = d.context_window.context_window_size as u64;
    let mut used_pct: Vec<char> = Vec::new();
    push_tenths(&mut used_pct, div_round_half_even(pct, 10));
    assert(size * pct < 0xffff_ffff_ffff_ffffu64) by (nonlinear_arith)
        requires
            size <= 0xffff_ffffu64,
            pct <= 0xffff_ffffu64,
    {
    }
    let mut used_k: Vec<char> = Vec::new();
    push_decimal(&mut used_k, div_round_half_even((size * pct) / 10000, 1000));
    let mut total_k: Vec<char> = Vec::new();
    push_decimal(&mut total_k, div_round_half_even(size, 1000));
    let t0 = match &cfg.warning_message {
        Some(m) => chars_of(m.as_str()),
        None => chars_of("⚠ Context warning: {used_pct:.1}% in first minute ({used_k:.0}k/{total_k:.0}k tokens) ⚠"),
    };
    proof {
        reveal_strlit("{used_pct:.1}");
        reveal_strlit("{used_pct}");
        reveal_strlit("{used_k:.0}");
        reveal_strlit("{used_k}");
        reveal_strlit("{total_k:.0}");
        reveal_strlit("{total_k}");
    }
    let t1 = replace_literal(t0, "{used_pct:.1}", &used_pct);
    let t2 = replace_literal(t1, "{used_pct}", &used_pct);
    let t3 = replace_literal(t2, "{used_k:.0}", &used_k);
    let t4 = replace_literal(t3, "{used_k}", &used_k);
    let t5 = replace_literal(t4, "{total_k:.0}", &total_k);
    let t6 = replace_literal(t5, "{total_k}", &total_k);
    let text = string_of(&t6);
    if !color_enabled {
        return text;
    }
    let fg = gradient_green_to_red(10000, bg_rgb, light);
    let bg = if cfg.enable_background { Some(bg_rgb) } else { None };
    paint(text.as_str(), Some(fg), bg, true)
}

/// Whether the warning replaces the formatted line: under a minute into the
/// session and the used share of the context above the threshold.
pub open spec fn warns(d: &StatusInput, cfg: &Config) -> bool {
    d.cost.total_duration_ms / 1000 < 60
        && d.context_window.used_percentage > cfg.warn_high_initial_context_threshold
}

/// Renders the status line: the warning when it applies, else the
/// configured template.
pub fn render_status(
    d: &StatusInput,
    cfg: &Config,
    col: &Colors,
    bg_rgb: (u8, u8, u8),
    light: bool,
    color_enabled: bool,
    git: Option<(i64, u64, u64)>,
) -> (r: String)
    requires
        color_enabled ==> palette_valid(col),
    ensures
        warns(d, cfg) ==> r@ == warning_text(d, cfg, bg_rgb, light, color_enabled),
        !warns(d, cfg) ==> r@ == formatted_text(cfg.format@, d, cfg, col, bg_rgb, light, color_enabled, git),
{
    if d.cost.total_duration_ms / 1000 < 60
        && d.context_window.used_percentage > cfg.warn_high_initial_context_threshold {
        render_warning(d, cfg, bg_rgb, light, color_enabled)
    } else {
        render_formatted(cfg.format.as_str(), d, cfg, col, bg_rgb, light, color_enabled, git)
    }
}

} // verus!
