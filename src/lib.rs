//! Renders a one-line, colorized status bar for an AI coding session from a
//! parsed session description and a user configuration.
//!
//! Fractional quantities are held as fixed-point integers: percentages in
//! hundredths of a percent (basis points), costs in thousandths of a dollar.
pub mod cli;
pub mod color;
pub mod config;
pub mod git;
pub mod hsl;
pub mod path;
pub mod render;
pub mod text;
pub mod types;

pub use cli::{color_enabled, is_light_background, Args, BackgroundMode, ColorMode};
pub use color::{
    adjust_colors_for_background, color_from_spec, commit_warning_color, get_colors, gradient_green_to_red,
    parse_color, validate_colors, ColorSpec, Colors,
};
pub use config::{
    default_enable_git, default_format, default_threshold_green, default_threshold_orange,
    default_threshold_yellow, default_use_emojis, default_warn_threshold, get_symbol, Config,
    Visual,
};
pub use git::{format_duration, format_duration_ms};
pub use hsl::hsl_to_rgb;
pub use path::abbreviate_path;
pub use render::{
    build_replacements, fox_head, fox_tail, paint_with, render_ctx, render_formatted, render_git,
    render_status, render_warning,
};
pub use types::{ContextWindow, Cost, CurrentUsage, Model, StatusInput, Workspace};
