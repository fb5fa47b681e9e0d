//! User settings and the symbol table.
use vstd::prelude::*;
use crate::color::Colors;
use crate::text::{chars_of, chars_eq, owned};

verus! {

/// Literal replacements for the decorations at both ends and the separator.
pub struct Visual {
    pub head: Option<String>,
    pub tail: Option<String>,
    pub separator: Option<String>,
}

/// The user's settings.
pub struct Config {
    pub enable_git: bool,
    pub use_emojis: bool,
    pub enable_background: bool,
    /// Hundredths of a percent of the context window.
    pub warn_high_initial_context_threshold: u32,
    /// Symbol overrides as (name, symbol) pairs. Read from a TOML table, the
    /// names are unique; where a caller repeats one, the first entry wins, so
    /// the lookup is defined for every list and agrees with a map on lists
    /// with unique names.
    pub symbols: Vec<(String, String)>,
    pub threshold_green: u64,
    pub threshold_yellow: u64,
    pub threshold_orange: u64,
    pub colors: Option<Colors>,
    pub visual: Option<Visual>,
    pub format: String,
    pub light_background: Option<bool>,
    pub warning_message: Option<String>,
}

/// 20%, in hundredths of a percent.
pub fn default_warn_threshold() -> (r: u32)
    ensures
        r == 2000,
{
    2000
}

pub fn default_enable_git() -> (r: bool)
    ensures
        r,
{
    true
}

pub fn default_use_emojis() -> (r: bool)
    ensures
        !r,
{
    false
}

pub fn default_threshold_green() -> (r: u64)
    ensures
        r == 100,
{
    100
}

pub fn default_threshold_yellow() -> (r: u64)
    ensures
        r == 500,
{
    500
}

pub fn default_threshold_orange() -> (r: u64)
    ensures
        r == 1000,
{
    1000
}

pub open spec fn default_format_text() -> Seq<char> {
    "{head} | {model} | {cwdcompact} | {duration} | {ctx} | {gitdelta} | {claudedelta} | {cost} | {cache} | {tail}"@
}

/// The template with every field, in display order.
pub fn default_format() -> (r: String)
    ensures
        r@ == default_format_text(),
{
    owned("{head} | {model} | {cwdcompact} | {duration} | {ctx} | {gitdelta} | {claudedelta} | {cost} | {cache} | {tail}")
}

impl Default for Config {
    fn default() -> (c: Config)
        ensures
            c.enable_git,
            !c.use_emojis,
            !c.enable_background,
            c.warn_high_initial_context_threshold == 2000,
            c.symbols@.len() == 0,
            c.threshold_green == 100,
            c.threshold_yellow == 500,
            c.threshold_orange == 1000,
            c.colors is None,
            c.visual is None,
            c.format@ == default_format_text(),
            c.light_background is None,
            c.warning_message is None,
    {
        Config {
            enable_git: default_enable_git(),
            use_emojis: default_use_emojis(),
            enable_background: false,
            warn_high_initial_context_threshold: default_warn_threshold(),
            symbols: Vec::new(),
            threshold_green: default_threshold_green(),
            threshold_yellow: default_threshold_yellow(),
            threshold_orange: default_threshold_orange(),
            colors: None,
            visual: None,
            format: default_format(),
            light_background: None,
            warning_message: None,
        }
    }
}

/// The built-in symbol for `key`: an emoji form and a plain form; empty for
/// an unknown key.
pub open spec fn builtin_symbol(key: Seq<char>, emojis: bool) -> Seq<char> {
    if key == "cwd"@ {
        if emojis { "📁 "@ } else { "cwd:"@ }
    } else if key == "time"@ {
        if emojis { "⏱ "@ } else { ""@ }
    } else if key == "context"@ {
        if emojis { "🧠 "@ } else { "ctx:"@ }
    } else if key == "git_warning"@ {
        if emojis { " ⚠"@ } else { ""@ }
    } else if key == "git_clean"@ {
        if emojis { "✓ "@ } else { ""@ }
    } else if key == "delta"@ {
        if emojis { "Σ "@ } else { "Δ "@ }
    } else if key == "cost"@ {
        if emojis { "💰 $"@ } else { "$"@ }
    } else if key == "cache"@ {
        if emojis { "🗄 "@ } else { "cache:"@ }
    } else {
        ""@
    }
}

/// The value of the first override for `key`.
pub open spec fn lookup_symbol(pairs: Seq<(String, String)>, key: Seq<char>) -> Option<Seq<char>>
    decreases pairs.len(),
{
    if pairs.len() == 0 {
        None
    } else if pairs[0].0@ == key {
        Some(pairs[0].1@)
    } else {
        lookup_symbol(pairs.drop_first(), key)
    }
}

/// The symbol shown for `key`: the user's override if there is one, else the
/// built-in symbol of the emoji mode.
pub open spec fn symbol_text(key: Seq<char>, config: &Config) -> Seq<char> {
    match lookup_symbol(config.symbols@, key) {
        Some(v) => v,
        None => builtin_symbol(key, config.use_emojis),
    }
}

fn pick(emojis: bool, emoji: &str, plain: &str) -> (r: String)
    ensures
        r@ == if emojis { emoji@ } else { plain@ },
{
    if emojis { owned(emoji) } else { owned(plain) }
}

fn builtin(key: &str, emojis: bool) -> (r: String)
    ensures
        r@ == builtin_symbol(key@, emojis),
{
    let k = chars_of(key);
    if chars_eq(&k, &chars_of("cwd")) {
        pick(emojis, "📁 ", "cwd:")
    } else if chars_eq(&k, &chars_of("time")) {
        pick(emojis, "⏱ ", "")
    } else if chars_eq(&k, &chars_of("context")) {
        pick(emojis, "🧠 ", "ctx:")
    } else if chars_eq(&k, &chars_of("git_warning")) {
        pick(emojis, " ⚠", "")
    } else if chars_eq(&k, &chars_of("git_clean")) {
        pick(emojis, "✓ ", "")
    } else if chars_eq(&k, &chars_of("delta")) {
        pick(emojis, "Σ ", "Δ ")
    } else if chars_eq(&k, &chars_of("cost")) {
        pick(emojis, "💰 $", "$")
    } else if chars_eq(&k, &chars_of("cache")) {
        pick(emojis, "🗄 ", "cache:")
    } else {
        owned("")
    }
}

/// The symbol shown for `key`; an override always wins over the built-in
/// symbols of either mode.
pub fn get_symbol(key: &str, config: &Config) -> (r: String)
    ensures
        r@ == symbol_text(key@, config),
        lookup_symbol(config.symbols@, key@) matches Some(v) ==> r@ == v,
{
    let k = chars_of(key);
    let mut i: usize = 0;
    assert(config.symbols@.subrange(0, config.symbols@.len() as int) =~= config.symbols@);
    while i < config.symbols.len()
        invariant
            i <= config.symbols@.len(),
            k@ == key@,
            lookup_symbol(config.symbols@, key@) == lookup_symbol(
                config.symbols@.subrange(i as int, config.symbols@.len() as int),
                key@,
            ),
        decreases config.symbols@.len() - i,
    {
        let ghost rest = config.symbols@.subrange(i as int, config.symbols@.len() as int);
        assert(rest[0] == config.symbols@[i as int]);
        let name = chars_of(config.symbols[i].0.as_str());
        if chars_eq(&name, &k) {
            return config.symbols[i].1.clone();
        }
        assert(rest.drop_first() =~= config.symbols@.subrange(i + 1, config.symbols@.len() as int));
        i = i + 1;
    }
    builtin(key, config.use_emojis)
}

} // verus!
