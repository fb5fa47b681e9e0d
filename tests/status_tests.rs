use foxtail::git::{
    git_start, git_step, parse_commit_timestamp, sum_numstat, GitAction, GitEvent, GitState,
};
use foxtail::{
    color_enabled, is_light_background, BackgroundMode, ColorMode,
    abbreviate_path, adjust_colors_for_background, commit_warning_color, default_format,
    format_duration, format_duration_ms, get_colors, get_symbol, gradient_green_to_red,
    paint_with, parse_color, render_formatted, render_status, render_warning, validate_colors,
    ColorSpec, Colors, Config, ContextWindow, Cost, CurrentUsage, Model, StatusInput, Visual,
    Workspace,
};

fn input(duration_ms: u64, used_bp: u32, usage: Option<CurrentUsage>) -> StatusInput {
    StatusInput {
        cwd: "/tmp".to_string(),
        model: Model {
            display_name: "M".to_string(),
        },
        workspace: Workspace {
            current_dir: "/home/user/project".to_string(),
        },
        cost: Cost {
            total_cost_usd: 1234,
            total_duration_ms: duration_ms,
            total_lines_added: 7,
            total_lines_removed: 3,
        },
        context_window: ContextWindow {
            context_window_size: 200_000,
            used_percentage: used_bp,
            remaining_percentage: 10_000 - used_bp,
            current_usage: usage,
        },
    }
}

fn emoji_config(symbols: Vec<(String, String)>) -> Config {
    Config {
        enable_git: true,
        use_emojis: true,
        warn_high_initial_context_threshold: 2000,
        symbols,
        enable_background: false,
        threshold_green: 100,
        threshold_yellow: 500,
        threshold_orange: 1000,
        colors: None,
        visual: None,
        format: default_format(),
        light_background: None,
        warning_message: None,
    }
}

#[test]
fn test_abbreviate_path_simple() {
    assert_eq!(abbreviate_path("/home/user/project"), "/h/u/project");
}

#[test]
fn test_hsl_percent_parsing() {
    let spec = ColorSpec::Hsl("hsl(30, 100%, 50%)".to_string());
    let rgb = parse_color(&spec).unwrap();
    assert_eq!(rgb.0, rgb.0);
}

#[test]
fn test_warning_message_customization_plain() {
    let mut d = input(30_000, 4200, None);
    d.workspace.current_dir = "/tmp".to_string();
    d.cost.total_cost_usd = 0;
    let cfg = Config {
        warning_message: Some("warn {used_pct}% {used_k}k/{total_k}k".to_string()),
        ..Default::default()
    };
    let out = render_warning(&d, &cfg, (0, 0, 0), false, false);
    assert!(out.contains("warn 42.0% 84k/200k"));
}

#[test]
fn test_abbreviate_path_hidden_dirs() {
    assert_eq!(abbreviate_path("/home/user/.config/app"), "/h/u/.c/app");
    assert_eq!(abbreviate_path("/home/.local/.cache/data"), "/h/.l/.c/data");
}

#[test]
fn test_abbreviate_path_single_component() {
    assert_eq!(abbreviate_path("/project"), "/project");
    assert_eq!(abbreviate_path("project"), "project");
}

#[test]
fn test_abbreviate_path_root() {
    assert_eq!(abbreviate_path("/"), "/");
}

#[test]
fn test_format_duration_ms_seconds() {
    assert_eq!(format_duration_ms(5000), "5s");
    assert_eq!(format_duration_ms(45000), "45s");
}

#[test]
fn test_format_duration_ms_minutes() {
    assert_eq!(format_duration_ms(60000), "1m");
    assert_eq!(format_duration_ms(125000), "2m");
    assert_eq!(format_duration_ms(3540000), "59m");
}

#[test]
fn test_format_duration_ms_hours() {
    assert_eq!(format_duration_ms(3600000), "1h0m");
    assert_eq!(format_duration_ms(5400000), "1h30m");
    assert_eq!(format_duration_ms(7200000), "2h0m");
}

#[test]
fn test_format_duration_ms_days() {
    assert_eq!(format_duration_ms(86400000), "1d0h");
    assert_eq!(format_duration_ms(90000000), "1d1h");
}

#[test]
fn test_get_symbol_with_emojis() {
    let config = emoji_config(Vec::new());
    assert_eq!(get_symbol("cwd", &config), "📁 ");
    assert_eq!(get_symbol("time", &config), "⏱ ");
    assert_eq!(get_symbol("context", &config), "🧠 ");
    assert_eq!(get_symbol("git_warning", &config), " ⚠");
    assert_eq!(get_symbol("git_clean", &config), "✓ ");
    assert_eq!(get_symbol("delta", &config), "Σ ");
    assert_eq!(get_symbol("cost", &config), "💰 $");
    assert_eq!(get_symbol("cache", &config), "🗄 ");
}

#[test]
fn test_get_symbol_without_emojis() {
    let config = Config::default();
    assert_eq!(get_symbol("cwd", &config), "cwd:");
    assert_eq!(get_symbol("time", &config), "");
    assert_eq!(get_symbol("context", &config), "ctx:");
    assert_eq!(get_symbol("git_warning", &config), "");
    assert_eq!(get_symbol("git_clean", &config), "");
    assert_eq!(get_symbol("delta", &config), "Δ ");
    assert_eq!(get_symbol("cost", &config), "$");
    assert_eq!(get_symbol("cache", &config), "cache:");
}

#[test]
fn test_get_symbol_with_custom_overrides() {
    let symbols = vec![
        ("cwd".to_string(), "DIR:".to_string()),
        ("cost".to_string(), "¢".to_string()),
    ];
    let config = emoji_config(symbols);
    assert_eq!(get_symbol("cwd", &config), "DIR:");
    assert_eq!(get_symbol("cost", &config), "¢");
    assert_eq!(get_symbol("time", &config), "⏱ ");
    assert_eq!(get_symbol("context", &config), "🧠 ");
}

#[test]
fn test_get_symbol_unknown_key() {
    let config = Config::default();
    assert_eq!(get_symbol("unknown", &config), "");
}

#[test]
fn test_commit_warning_color_green() {
    let colors = Colors::default();
    let bg_rgb = parse_color(&colors.background).unwrap();
    let color = commit_warning_color(10, bg_rgb, false);
    assert_eq!(color, (83, 254, 80));
}

#[test]
fn test_commit_warning_color_yellow() {
    let colors = Colors::default();
    let bg_rgb = parse_color(&colors.background).unwrap();
    let color = commit_warning_color(150, bg_rgb, false);
    assert_eq!(color, (132, 250, 80));
}

#[test]
fn test_commit_warning_color_orange() {
    let colors = Colors::default();
    let bg_rgb = parse_color(&colors.background).unwrap();
    let color = commit_warning_color(600, bg_rgb, false);
    assert_eq!(color, (255, 208, 80));
}

#[test]
fn test_commit_warning_color_red() {
    let colors = Colors::default();
    let bg_rgb = parse_color(&colors.background).unwrap();
    let color = commit_warning_color(9001, bg_rgb, false);
    assert_eq!(color, (255, 80, 80));
}

#[test]
fn test_config_default() {
    let config = Config::default();
    assert!(config.enable_git);
    assert!(!config.use_emojis);
    assert_eq!(config.warn_high_initial_context_threshold, 2000);
    assert!(config.symbols.is_empty());
}

#[test]
fn short_hex_equals_doubled_hex() {
    let short = parse_color(&ColorSpec::Hex("#f80".to_string()));
    let long = parse_color(&ColorSpec::Hex("#ff8800".to_string()));
    assert_eq!(short, long);
    assert_eq!(short, Some((255, 136, 0)));
    assert_eq!(parse_color(&ColorSpec::Hex("f80".to_string())), Some((255, 136, 0)));
    assert_eq!(parse_color(&ColorSpec::Hex("#FF8c00".to_string())), Some((255, 140, 0)));
}

#[test]
fn malformed_hex_is_rejected() {
    assert_eq!(parse_color(&ColorSpec::Hex("#ff88".to_string())), None);
    assert_eq!(parse_color(&ColorSpec::Hex("#gg8800".to_string())), None);
    assert_eq!(parse_color(&ColorSpec::Hex("".to_string())), None);
}

#[test]
fn rgb_needs_three_components() {
    assert_eq!(parse_color(&ColorSpec::Rgb(vec![1, 2, 3])), Some((1, 2, 3)));
    assert_eq!(parse_color(&ColorSpec::Rgb(vec![1, 2])), None);
    assert_eq!(parse_color(&ColorSpec::Rgb(vec![1, 2, 3, 4])), None);
}

#[test]
fn hsl_converts_exactly() {
    let orange = parse_color(&ColorSpec::Hsl("hsl(30, 100%, 50%)".to_string()));
    assert_eq!(orange, Some((255, 127, 0)));
    let red = parse_color(&ColorSpec::Hsl("  hsl( 0 , 100 , 50 ) ".to_string()));
    assert_eq!(red, Some((255, 0, 0)));
    let blue = parse_color(&ColorSpec::Hsl("hsl(240, 100%, 50%)".to_string()));
    assert_eq!(blue, Some((0, 0, 255)));
    let grey = parse_color(&ColorSpec::Hsl("hsl(0, 0%, 60%)".to_string()));
    assert_eq!(grey, Some((153, 153, 153)));
    let green = parse_color(&ColorSpec::Hsl("hsl(120.5, 60.25%, 30%)".to_string()));
    assert!(green.is_some());
}

#[test]
fn malformed_hsl_is_rejected() {
    assert_eq!(parse_color(&ColorSpec::Hsl("hsl(30, 100%)".to_string())), None);
    assert_eq!(parse_color(&ColorSpec::Hsl("hsl(30, x%, 50%)".to_string())), None);
    assert_eq!(parse_color(&ColorSpec::Hsl("rgb(30, 100%, 50%)".to_string())), None);
    assert_eq!(parse_color(&ColorSpec::Hsl("hsl(30, 100%, 50%".to_string())), None);
}

#[test]
fn gradient_hits_its_stops() {
    assert_eq!(gradient_green_to_red(0, (0, 0, 0), false), (80, 255, 80));
    assert_eq!(gradient_green_to_red(5000, (0, 0, 0), false), (255, 240, 80));
    assert_eq!(gradient_green_to_red(10000, (0, 0, 0), false), (255, 80, 80));
    assert_eq!(gradient_green_to_red(0, (0, 0, 0), true), (0, 150, 0));
    assert_eq!(gradient_green_to_red(5000, (0, 0, 0), true), (200, 180, 0));
    assert_eq!(gradient_green_to_red(10000, (0, 0, 0), true), (180, 0, 0));
    assert_eq!(gradient_green_to_red(20000, (0, 0, 0), true), (180, 0, 0));
    assert_eq!(gradient_green_to_red(2500, (0, 0, 0), true), (100, 165, 0));
}

#[test]
fn abbreviate_path_edges() {
    assert_eq!(abbreviate_path(""), "");
    assert_eq!(abbreviate_path("a/./b/../c"), "a/b/c");
    assert_eq!(abbreviate_path("./x/y"), "x/y");
    assert_eq!(abbreviate_path("//usr//local"), "/u/local");
}

#[test]
fn negative_durations_count_as_zero() {
    assert_eq!(format_duration(-5), "0s");
    assert_eq!(format_duration(3661), "1h1m");
    assert_eq!(format_duration(90061), "1d1h");
}

#[test]
fn default_palette_by_background() {
    let dark = get_colors(None, false);
    assert_eq!(parse_color(&dark.model), Some((255, 255, 255)));
    assert_eq!(parse_color(&dark.background), Some((240, 160, 80)));
    let light = get_colors(None, true);
    assert_eq!(parse_color(&light.cost), Some((0, 0, 0)));
    assert_eq!(parse_color(&light.separator), Some((220, 100, 0)));
}

#[test]
fn adjusting_keeps_readable_colors() {
    let mut c = Colors::default();
    c.model = ColorSpec::Rgb(vec![10, 10, 10]);
    c.cwd = ColorSpec::Rgb(vec![250, 250, 250]);
    let dark = adjust_colors_for_background(c.clone(), false);
    assert_eq!(parse_color(&dark.model), Some((255, 255, 255)));
    assert_eq!(parse_color(&dark.cwd), Some((250, 250, 250)));
    let light = adjust_colors_for_background(c, true);
    assert_eq!(parse_color(&light.model), Some((10, 10, 10)));
    assert_eq!(parse_color(&light.cwd), Some((0, 0, 0)));
    assert_eq!(parse_color(&light.background), Some((240, 160, 80)));
}

#[test]
fn invalid_palette_is_reported() {
    let mut c = Colors::default();
    assert_eq!(validate_colors(&c), Ok(()));
    c.time = ColorSpec::Rgb(vec![1, 2]);
    c.cost = ColorSpec::Hex("#zzz".to_string());
    assert_eq!(
        validate_colors(&c),
        Err("Invalid color specification: Rgb([1, 2])".to_string())
    );
}

#[test]
fn warning_uses_default_template() {
    let d = input(30_000, 4257, None);
    let out = render_warning(&d, &Config::default(), (0, 0, 0), false, false);
    assert_eq!(
        out,
        "⚠ Context warning: 42.6% in first minute (85k/200k tokens) ⚠"
    );
}

#[test]
fn warning_replaces_line_only_early_and_above_threshold() {
    let cfg = Config {
        warning_message: Some("WARN".to_string()),
        ..Default::default()
    };
    let colors = Colors::default();
    let early_high = input(30_000, 4200, None);
    assert_eq!(render_status(&early_high, &cfg, &colors, (0, 0, 0), false, false, None), "WARN");
    let early_low = input(30_000, 1000, None);
    assert_ne!(render_status(&early_low, &cfg, &colors, (0, 0, 0), false, false, None), "WARN");
    let late_high = input(60_000, 4200, None);
    assert_ne!(render_status(&late_high, &cfg, &colors, (0, 0, 0), false, false, None), "WARN");
}

#[test]
fn missing_cache_field_leaves_no_separator() {
    let cfg = Config::default();
    let colors = Colors::default();
    let d = input(90_000, 1000, None);
    let out = render_formatted("{model} | {cache} | {cost}", &d, &cfg, &colors, (0, 0, 0), false, false, None);
    assert_eq!(out, "M | $1.234");
}

#[test]
fn plain_formatted_line() {
    let cfg = Config::default();
    let colors = Colors::default();
    let usage = CurrentUsage {
        input_tokens: 1,
        output_tokens: 2,
        cache_creation_input_tokens: 2500,
        cache_read_input_tokens: 12_600,
    };
    let d = input(3_600_000, 4250, Some(usage));
    let out = render_formatted(&cfg.format, &d, &cfg, &colors, (0, 0, 0), false, false, Some((120, 4, 1)));
    assert_eq!(
        out,
        ">> | M | cwd:/h/u/project | 1h0m | ctx:42% (85k) | 2m (+4 -1) | Δ +7 -3 | $1.234 | cache:r:13k w:2k | <<"
    );
}

#[test]
fn visual_overrides_and_unknown_placeholders() {
    let cfg = Config {
        visual: Some(Visual {
            head: Some("H".to_string()),
            tail: None,
            separator: Some(" / ".to_string()),
        }),
        ..Default::default()
    };
    let colors = Colors::default();
    let d = input(5_000, 0, None);
    let out = render_formatted("{head}|{nope}|{cwd}|{gitdelta}", &d, &cfg, &colors, (0, 0, 0), false, false, Some((5, 0, 0)));
    assert_eq!(out, "H / {nope} / cwd:/home/user/project / 5s");
}

#[test]
fn painting_wraps_text_in_escape_codes() {
    let spec = ColorSpec::Rgb(vec![1, 2, 3]);
    let plain = paint_with(&spec, "abc".to_string(), None, false);
    assert_eq!(plain, "abc");
    let painted = paint_with(&spec, "abc".to_string(), Some((9, 9, 9)), true);
    assert_ne!(painted, "abc");
    assert!(painted.contains("abc"));
    assert!(painted.contains("38;2;1;2;3"));
    assert!(painted.contains("48;2;9;9;9"));
}

#[test]
fn numstat_lines_are_summed() {
    assert_eq!(sum_numstat("10\t2\tsrc/a.rs\n-\t-\tlogo.png\n3\t0\tb.rs\n"), (13, 2));
    assert_eq!(sum_numstat(""), (0, 0));
    assert_eq!(sum_numstat("7\n5 x\n"), (0, 0));
    assert_eq!(sum_numstat("+4 1 a\r\n"), (4, 1));
}

#[test]
fn commit_timestamps_are_read() {
    assert_eq!(parse_commit_timestamp(" 1700000000\n"), Some(1_700_000_000));
    assert_eq!(parse_commit_timestamp("-5"), Some(-5));
    assert_eq!(parse_commit_timestamp("-9223372036854775808"), Some(i64::MIN));
    assert_eq!(parse_commit_timestamp("9223372036854775808"), None);
    assert_eq!(parse_commit_timestamp(""), None);
    assert_eq!(parse_commit_timestamp("12a"), None);
}

#[test]
fn git_query_steps() {
    assert_eq!(git_start(false, false).1, GitAction::Report(None));
    assert_eq!(git_start(true, true).1, GitAction::Report(None));
    let (s, a) = git_start(true, false);
    assert_eq!(a, GitAction::ProbeRepo);
    let (s, a) = git_step(s, &GitEvent::Ran { success: true, stdout: ".git\n".to_string() });
    assert_eq!(a, GitAction::ReadLastCommit);
    let (s, a) = git_step(s, &GitEvent::Ran { success: true, stdout: "1700000000\n".to_string() });
    assert_eq!(a, GitAction::AgeOf(1_700_000_000));
    let (s, a) = git_step(s, &GitEvent::Age(Some(90)));
    assert_eq!(a, GitAction::ReadStatus);
    let (s2, a2) = git_step(s, &GitEvent::Ran { success: true, stdout: String::new() });
    assert_eq!((s2, a2), (GitState::Finished, GitAction::Report(Some((90, 0, 0)))));
    let (s, a) = git_step(s, &GitEvent::Ran { success: true, stdout: " M a.rs\n".to_string() });
    assert_eq!(a, GitAction::ReadDiff);
    let (_, a) = git_step(s, &GitEvent::Ran { success: true, stdout: "3\t1\ta.rs\n".to_string() });
    assert_eq!(a, GitAction::Report(Some((90, 3, 1))));
    let (_, a) = git_step(s, &GitEvent::Ran { success: false, stdout: String::new() });
    assert_eq!(a, GitAction::Report(Some((90, 0, 0))));
    let (_, a) = git_step(GitState::AwaitRepo, &GitEvent::SpawnFailed);
    assert_eq!(a, GitAction::Report(None));
}

#[test]
fn color_and_background_decisions() {
    assert!(color_enabled(ColorMode::Always, true, None, None, false));
    assert!(!color_enabled(ColorMode::Never, false, None, None, true));
    assert!(!color_enabled(ColorMode::Auto, true, Some("1".to_string()), None, true));
    assert!(color_enabled(ColorMode::Auto, false, Some("1".to_string()), None, false));
    assert!(!color_enabled(ColorMode::Auto, false, Some("2".to_string()), Some("1".to_string()), true));
    assert!(!color_enabled(ColorMode::Auto, false, None, Some("0".to_string()), true));
    assert!(color_enabled(ColorMode::Auto, false, None, Some("yes".to_string()), false));
    assert!(color_enabled(ColorMode::Auto, false, None, None, true));
    assert!(is_light_background(BackgroundMode::Light, Some(false)));
    assert!(!is_light_background(BackgroundMode::Dark, Some(true)));
    assert!(is_light_background(BackgroundMode::Auto, Some(true)));
    assert!(!is_light_background(BackgroundMode::Auto, None));
}

#[test]
fn disabled_git_leaves_field_empty() {
    let cfg = Config {
        enable_git: false,
        ..Default::default()
    };
    let colors = Colors::default();
    let d = input(90_000, 1000, None);
    let out = render_formatted("{model}|{gitdelta}", &d, &cfg, &colors, (0, 0, 0), false, false, Some((5, 1, 1)));
    assert_eq!(out, "M");
}

#[test]
fn only_one_leading_hash() {
    assert_eq!(parse_color(&ColorSpec::Hex("##f80".to_string())), None);
    assert_eq!(parse_color(&ColorSpec::Hex("+f+f+f".to_string())), None);
}

#[test]
fn hsl_numbers_of_any_length() {
    let long_hue = parse_color(&ColorSpec::Hsl("hsl(1234567, 100%, 50%)".to_string()));
    assert!(long_hue.is_some());
    let fine = parse_color(&ColorSpec::Hsl("hsl(0, 50.1234567%, 50%)".to_string()));
    assert_eq!(fine, parse_color(&ColorSpec::Hsl("hsl(0, 50.123456%, 50%)".to_string())));
    assert!(fine.is_some());
    let wide = parse_color(&ColorSpec::Hsl("hsl(0, 0%, 123456789%)".to_string()));
    assert_eq!(wide, Some((255, 255, 255)));
    let huge_hue = parse_color(&ColorSpec::Hsl("hsl(360000000000000000000000, 100%, 50%)".to_string()));
    assert_eq!(huge_hue, Some((255, 0, 0)));
    assert_eq!(
        parse_color(&ColorSpec::Hsl("hsl(1e2, 50%, 50%)".to_string())),
        parse_color(&ColorSpec::Hsl("hsl(100, 50%, 50%)".to_string()))
    );
    assert_eq!(
        parse_color(&ColorSpec::Hsl("hsl(2.4E+2, 1E2%, 5000e-2%)".to_string())),
        Some((0, 0, 255))
    );
    assert_eq!(
        parse_color(&ColorSpec::Hsl("hsl(0, 0%, 6e-99999999999999999999999)".to_string())),
        Some((0, 0, 0))
    );
    assert_eq!(
        parse_color(&ColorSpec::Hsl("hsl(36e99999999999999999999999, 100%, 50%)".to_string())),
        Some((255, 0, 0))
    );
    assert_eq!(parse_color(&ColorSpec::Hsl("hsl(1e, 50%, 50%)".to_string())), None);
    assert_eq!(parse_color(&ColorSpec::Hsl("hsl(e2, 50%, 50%)".to_string())), None);
}

#[test]
fn invalid_message_escapes_like_debug() {
    let mut c = Colors::default();
    c.model = ColorSpec::Hex("a\"b\\c\n\u{1}".to_string());
    let expected = format!("Invalid color specification: {:?}", ColorSpec::Hex("a\"b\\c\n\u{1}".to_string()));
    assert_eq!(validate_colors(&c), Err(expected));
    c.model = ColorSpec::Hex("\u{85}e\u{301}".to_string());
    let expected = format!("Invalid color specification: {:?}", ColorSpec::Hex("\u{85}e\u{301}".to_string()));
    assert_eq!(validate_colors(&c), Err(expected));
    c.model = ColorSpec::Hsl("hsl(x)".to_string());
    assert_eq!(
        validate_colors(&c),
        Err("Invalid color specification: Hsl(\"hsl(x)\")".to_string())
    );
}

#[test]
fn painting_writes_exact_codes() {
    let spec = ColorSpec::Rgb(vec![1, 2, 3]);
    let painted = paint_with(&spec, "abc".to_string(), Some((9, 8, 7)), true);
    assert_eq!(painted, "\u{1b}[1;48;2;9;8;7;38;2;1;2;3mabc\u{1b}[0m");
    let no_bg = paint_with(&spec, "x".to_string(), None, true);
    assert_eq!(no_bg, "\u{1b}[1;38;2;1;2;3mx\u{1b}[0m");
}
