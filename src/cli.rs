//! Command-line choices and the decisions they drive.
use vstd::prelude::*;
use crate::text::{chars_of, chars_eq};

verus! {

/// When to emit color codes.
#[derive(Clone, Copy, Debug, PartialEq, Eq)]
pub enum ColorMode {
    Auto,
    Always,
    Never,
}

/// Which background the terminal has.
#[derive(Clone, Copy, Debug, PartialEq, Eq)]
pub enum BackgroundMode {
    Auto,
    Light,
    Dark,
}

/// The command-line options.
pub struct Args {
    pub print_config: bool,
    pub detect_background: bool,
    pub config_path: Option<String>,
    pub color: ColorMode,
    pub background: BackgroundMode,
    pub no_git: bool,
}

/// Whether color output is on: forced by the mode, else off when `NO_COLOR`
/// is set, else as `CLICOLOR_FORCE` says (`1` forces it), else as `CLICOLOR`
/// says (`0` turns it off), else on for a terminal.
pub open spec fn color_decision(
    mode: ColorMode,
    no_color_set: bool,
    clicolor_force: Option<Seq<char>>,
    clicolor: Option<Seq<char>>,
    stdout_is_terminal: bool,
) -> bool {
    match mode {
        ColorMode::Always => true,
        ColorMode::Never => false,
        ColorMode::Auto => if no_color_set {
            false
        } else if clicolor_force is Some {
            clicolor_force->0 == "1"@
        } else if clicolor is Some {
            clicolor->0 != "0"@
        } else {
            stdout_is_terminal
        },
    }
}

pub fn color_enabled(
    mode: ColorMode,
    no_color_set: bool,
    clicolor_force: Option<String>,
    clicolor: Option<String>,
    stdout_is_terminal: bool,
) -> (r: bool)
    ensures
        r == color_decision(
            mode,
            no_color_set,
            match clicolor_force { Some(v) => Some(v@), None => None },
            match clicolor { Some(v) => Some(v@), None => None },
            stdout_is_terminal,
        ),
{
    match mode {
        ColorMode::Always => true,
        ColorMode::Never => false,
        ColorMode::Auto => {
            if no_color_set {
                false
            } else if let Some(v) = clicolor_force {
                chars_eq(&chars_of(v.as_str()), &chars_of("1"))
            } else if let Some(v) = clicolor {
                !chars_eq(&chars_of(v.as_str()), &chars_of("0"))
            } else {
                stdout_is_terminal
            }
        },
    }
}

/// Whether the background is light: forced by the mode, else the
/// configured setting, dark when unset.
pub fn is_light_background(mode: BackgroundMode, configured: Option<bool>) -> (r: bool)
    ensures
        r == match mode {
            BackgroundMode::Light => true,
            BackgroundMode::Dark => false,
            BackgroundMode::Auto => configured == Some(true),
        },
{
    match mode {
        BackgroundMode::Light => true,
        BackgroundMode::Dark => false,
        BackgroundMode::Auto => match configured {
            Some(b) => b,
            None => false,
        },
    }
}

} // verus!
