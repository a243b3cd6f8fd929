use loki::cli::{
    auto_wrap_label, empty_listing_outcome, parse_wheel_delta, permission_text, split_menu_path,
    Listing,
};
use loki::config::LokiConfig;
use loki::diagnose::explain_wait_window_timeout;
use loki::element::{AXElement, AppTarget, ElementFrame, WindowInfo};
use loki::error::LokiError;
use loki::input::{applescript_key_code, parse_combo_for_applescript, scroll_increments};
use loki::output::{
    flatten_tree, format_elements_text, format_tree_text, format_windows_text, frame_text,
    truncate, OutputFormat,
};
use loki::query::{
    auto_wrap_pattern, glob_matches, is_actionable, pick_click_target, role_matches, search_tree,
    ClickTarget, ElementQuery, WindowFilter,
};
use loki::targets::{resolve_relative_origin, targeting_hint, ArgInfo, CommandInfo};

// ───────────────────────── helpers ─────────────────────────

fn frame(x: f64, y: f64, width: f64, height: f64) -> ElementFrame {
    ElementFrame {
        x: x.to_bits(),
        y: y.to_bits(),
        width: width.to_bits(),
        height: height.to_bits(),
    }
}

fn render(bits: u64) -> String {
    format!("{:.0}", f64::from_bits(bits))
}

fn rendered_frame(f: &Option<ElementFrame>) -> Option<String> {
    f.as_ref().map(|f| {
        frame_text(
            &render(f.width),
            &render(f.height),
            &render(f.x),
            &render(f.y),
        )
    })
}

fn tree_frames(e: &AXElement, out: &mut Vec<Option<String>>) {
    out.push(rendered_frame(&e.frame));
    for c in &e.children {
        tree_frames(c, out);
    }
}

fn make_element(role: &str, title: Option<&str>) -> AXElement {
    AXElement {
        role: role.to_string(),
        subrole: None,
        title: title.map(|s| s.to_string()),
        value: None,
        description: None,
        identifier: None,
        frame: None,
        enabled: true,
        focused: false,
        path: vec![],
        children: vec![],
    }
}

fn make_tree() -> AXElement {
    AXElement {
        role: "AXWindow".to_string(),
        title: Some("Main".to_string()),
        children: vec![
            AXElement {
                role: "AXButton".to_string(),
                title: Some("OK".to_string()),
                path: vec![0],
                children: vec![],
                ..make_element("AXButton", Some("OK"))
            },
            AXElement {
                role: "AXButton".to_string(),
                title: Some("Cancel".to_string()),
                path: vec![1],
                children: vec![],
                ..make_element("AXButton", Some("Cancel"))
            },
            AXElement {
                role: "AXTextField".to_string(),
                title: Some("Name".to_string()),
                path: vec![2],
                children: vec![AXElement {
                    role: "AXStaticText".to_string(),
                    title: Some("placeholder".to_string()),
                    path: vec![2, 0],
                    children: vec![],
                    ..make_element("AXStaticText", Some("placeholder"))
                }],
                ..make_element("AXTextField", Some("Name"))
            },
        ],
        ..make_element("AXWindow", Some("Main"))
    }
}

fn title_filter(pattern: &str) -> WindowFilter {
    WindowFilter {
        title: Some(pattern.to_string()),
        ..Default::default()
    }
}

fn sample_window() -> WindowInfo {
    WindowInfo {
        window_id: 42,
        pid: 100,
        title: "Test Window".to_string(),
        bundle_id: Some("com.test.app".to_string()),
        frame: frame(0.0, 0.0, 800.0, 600.0),
        is_on_screen: true,
    }
}

fn sample_tree() -> AXElement {
    AXElement {
        role: "AXWindow".to_string(),
        subrole: None,
        title: Some("Untitled".to_string()),
        value: None,
        description: None,
        identifier: None,
        frame: Some(frame(0.0, 25.0, 1920.0, 1080.0)),
        enabled: true,
        focused: false,
        path: vec![],
        children: vec![AXElement {
            role: "AXScrollArea".to_string(),
            subrole: None,
            title: None,
            value: None,
            description: None,
            identifier: None,
            frame: Some(frame(0.0, 50.0, 1920.0, 1055.0)),
            enabled: true,
            focused: false,
            path: vec![0],
            children: vec![AXElement {
                role: "AXButton".to_string(),
                subrole: None,
                title: Some("OK".to_string()),
                value: None,
                description: None,
                identifier: None,
                frame: None,
                enabled: true,
                focused: false,
                path: vec![0, 0],
                children: vec![],
            }],
        }],
    }
}

fn pick_one(matches: &[AXElement]) -> &AXElement {
    match pick_click_target(matches) {
        ClickTarget::One(el) => el,
        other => panic!("expected one target, got {other:?}"),
    }
}

fn arg(id: &str, positional: bool) -> ArgInfo {
    ArgInfo {
        id: id.to_string(),
        positional,
    }
}

/// The parts of the command tree the targeting hint reads, as the command
/// line declares them.
fn command_tree() -> Vec<CommandInfo> {
    vec![
        CommandInfo {
            name: "screenshot".to_string(),
            args: vec![arg("window", false), arg("screen", false), arg("output", false)],
        },
        CommandInfo {
            name: "find".to_string(),
            args: vec![
                arg("window_id", true),
                arg("role", false),
                arg("title", false),
                arg("label", false),
                arg("id", false),
                arg("index", false),
                arg("require_match", false),
            ],
        },
        CommandInfo {
            name: "key".to_string(),
            args: vec![
                arg("combo", true),
                arg("pid", false),
                arg("bundle_id", false),
                arg("window", false),
            ],
        },
    ]
}

fn argv(args: &[&str]) -> Vec<String> {
    args.iter().map(|s| s.to_string()).collect()
}

// ───────────────────────── command line ─────────────────────────

#[test]
fn test_parse_wheel_delta_pair() {
    assert_eq!(parse_wheel_delta("0,300").unwrap(), (0, 300));
}

#[test]
fn test_parse_wheel_delta_negative_and_spaced() {
    assert_eq!(parse_wheel_delta("-40, -300").unwrap(), (-40, -300));
}

#[test]
fn test_parse_wheel_delta_rejects_bare_number() {
    let err = parse_wheel_delta("300").unwrap_err().message();
    assert!(err.contains("dX,dY"), "unhelpful error: {err}");
}

#[test]
fn test_parse_wheel_delta_rejects_non_numeric() {
    assert!(parse_wheel_delta("0,down").is_err());
    assert!(parse_wheel_delta("0,300,0").is_err());
    assert!(parse_wheel_delta("").is_err());
}

#[test]
fn test_split_menu_path_levels() {
    assert_eq!(split_menu_path("View>Theme", ">").unwrap(), ["View", "Theme"]);
}

#[test]
fn test_split_menu_path_trims_spaces_around_separator() {
    assert_eq!(split_menu_path("View > Theme", ">").unwrap(), ["View", "Theme"]);
}

#[test]
fn test_split_menu_path_custom_separator() {
    assert_eq!(split_menu_path("View/Theme", "/").unwrap(), ["View", "Theme"]);
}

#[test]
fn test_split_menu_path_rejects_empty() {
    assert!(split_menu_path("", ">").is_err());
    assert!(split_menu_path(">>", ">").is_err());
}

#[test]
fn test_auto_wrap_bare_literal() {
    assert_eq!(auto_wrap_label("Projects"), "*Projects*");
}

#[test]
fn test_auto_wrap_empty_string() {
    assert_eq!(auto_wrap_label(""), "");
}

#[test]
fn test_auto_wrap_star_suffix_passthrough() {
    assert_eq!(auto_wrap_label("Projects*"), "Projects*");
}

#[test]
fn test_auto_wrap_leading_star_passthrough() {
    assert_eq!(auto_wrap_label("*Projects*"), "*Projects*");
}

#[test]
fn test_auto_wrap_question_passthrough() {
    assert_eq!(auto_wrap_label("Proj?cts"), "Proj?cts");
}

#[test]
fn test_auto_wrap_bracket_passthrough() {
    assert_eq!(auto_wrap_label("[test]"), "[test]");
}

#[test]
fn test_auto_wrap_closing_bracket_wraps() {
    assert_eq!(auto_wrap_label("]"), "*]*");
}

#[test]
fn test_auto_wrap_unicode_emoji() {
    assert_eq!(auto_wrap_label("📋"), "*📋*");
}

#[test]
fn test_auto_wrap_whitespace() {
    assert_eq!(auto_wrap_label("  "), "*  *");
}

#[test]
fn test_wait_window_timeout_explains_itself() {
    let filter = WindowFilter {
        title: Some("loki-no-such-window-530".to_string()),
        bundle_id: None,
        pid: None,
        include_unnamed: true,
    };
    let err = explain_wait_window_timeout(&vec![sample_window()], &filter, 200);
    assert_eq!(err.exit_code(), 3);
    let text = err.message();
    assert!(text.contains("timed out after 200ms"));
    assert!(text.contains("waiting for title glob \"*loki-no-such-window-530*\""));
    assert!(text.contains("seen:"));
    assert!(text.contains("--timeout"));
}

#[test]
fn test_click_relative_without_target_fails() {
    let r = resolve_relative_origin(true, None, None, &vec![], &vec![]);
    assert!(r.unwrap_err().message().contains("--relative needs a frame"));
}

#[test]
fn test_drag_relative_without_target_fails() {
    let r = resolve_relative_origin(true, None, None, &vec![sample_window()], &vec!["0,0".to_string()]);
    assert!(r.unwrap_err().message().contains("--relative needs a frame"));
}

#[test]
fn test_wheel_relative_without_target_fails() {
    let r = resolve_relative_origin(true, None, None, &vec![], &vec![]);
    let err = r.unwrap_err();
    assert_eq!(err.exit_code(), 1);
    assert!(err.message().contains("--relative needs a frame"));
}

#[test]
fn test_relative_error_offers_bundle_id() {
    let r = resolve_relative_origin(true, None, None, &vec![], &vec![]);
    assert!(r.unwrap_err().message().contains("--bundle-id"));
}

#[test]
fn test_wheel_rejects_bare_number_delta() {
    assert!(parse_wheel_delta("300").unwrap_err().message().contains("dX,dY"));
}

#[test]
fn test_wheel_rejects_non_numeric_delta() {
    assert!(parse_wheel_delta("0,down").is_err());
}

#[test]
fn test_menu_state_empty_path_rejected() {
    let err = split_menu_path(">>", ">").unwrap_err();
    assert!(err.message().contains("empty menu path"));
}

#[test]
fn test_wrong_targeting_flag_names_the_accepted_ones() {
    let hint = targeting_hint(
        true,
        &Some("--pid".to_string()),
        &argv(&["screenshot", "--pid", "123"]),
        &command_tree(),
    );
    assert!(hint
        .unwrap()
        .contains("note: `loki screenshot` targets with --window"));
}

#[test]
fn test_targeting_hint_names_a_positional_target() {
    let hint = targeting_hint(
        true,
        &Some("--bundle-id".to_string()),
        &argv(&["find", "--bundle-id", "com.example.NotARealApp"]),
        &command_tree(),
    );
    assert!(hint.unwrap().contains("note: `loki find` targets with <WINDOW_ID>"));
}

#[test]
fn test_no_targeting_hint_for_unrelated_flag() {
    let hint = targeting_hint(
        true,
        &Some("--nonsense".to_string()),
        &argv(&["key", "cmd+s", "--nonsense"]),
        &command_tree(),
    );
    assert!(hint.is_none());
}

#[test]
fn test_check_permission_text() {
    assert!(permission_text(true, false).contains("Accessibility permission:"));
    assert!(permission_text(false, false).contains("Accessibility permission:"));
}

#[test]
fn test_windows_with_filter() {
    let filter = WindowFilter {
        bundle_id: Some("com.nonexistent.fake.app.12345".to_string()),
        ..Default::default()
    };
    let windows = loki::driver::select_windows(&vec![sample_window()], &filter);
    assert!(windows.is_empty());
    let detail = loki::diagnose::explain_empty_windows(&vec![sample_window()], &filter);
    let out = empty_listing_outcome(Listing::Windows, false, OutputFormat::Json, detail);
    assert!(out.is_none());
}

// ───────────────────────── configuration ─────────────────────────

#[test]
fn test_default_timeout() {
    let config = LokiConfig::default();
    assert_eq!(config.timeout_ms, 5000);
}

// ───────────────────────── app targets ─────────────────────────

#[test]
fn test_parse_numeric_as_pid() {
    match AppTarget::parse("1234") {
        AppTarget::Pid(pid) => assert_eq!(pid, 1234),
        other => panic!("expected Pid, got {other:?}"),
    }
}

#[test]
fn test_parse_zero_as_pid() {
    match AppTarget::parse("0") {
        AppTarget::Pid(pid) => assert_eq!(pid, 0),
        other => panic!("expected Pid(0), got {other:?}"),
    }
}

#[test]
fn test_parse_absolute_path() {
    match AppTarget::parse("/Applications/TextEdit.app") {
        AppTarget::Path(p) => assert_eq!(p, "/Applications/TextEdit.app"),
        other => panic!("expected Path, got {other:?}"),
    }
}

#[test]
fn test_parse_relative_dot_app() {
    match AppTarget::parse("TextEdit.app") {
        AppTarget::Path(p) => assert_eq!(p, "TextEdit.app"),
        other => panic!("expected Path, got {other:?}"),
    }
}

#[test]
fn test_parse_path_with_slash() {
    match AppTarget::parse("some/path/to/app") {
        AppTarget::Path(p) => assert_eq!(p, "some/path/to/app"),
        other => panic!("expected Path, got {other:?}"),
    }
}

#[test]
fn test_parse_bundle_id() {
    match AppTarget::parse("com.apple.TextEdit") {
        AppTarget::BundleId(bid) => assert_eq!(bid, "com.apple.TextEdit"),
        other => panic!("expected BundleId, got {other:?}"),
    }
}

#[test]
fn test_parse_plain_name_as_bundle_id() {
    match AppTarget::parse("Calculator") {
        AppTarget::BundleId(bid) => assert_eq!(bid, "Calculator"),
        other => panic!("expected BundleId, got {other:?}"),
    }
}

#[test]
fn test_app_target_parse_pid() {
    match AppTarget::parse("1234") {
        AppTarget::Pid(pid) => assert_eq!(pid, 1234),
        other => panic!("expected Pid, got {other:?}"),
    }
}

#[test]
fn test_app_target_parse_path() {
    match AppTarget::parse("/Applications/TextEdit.app") {
        AppTarget::Path(p) => assert_eq!(p, "/Applications/TextEdit.app"),
        other => panic!("expected Path, got {other:?}"),
    }
}

#[test]
fn test_app_target_parse_path_relative() {
    match AppTarget::parse("TextEdit.app") {
        AppTarget::Path(p) => assert_eq!(p, "TextEdit.app"),
        other => panic!("expected Path, got {other:?}"),
    }
}

#[test]
fn test_app_target_parse_bundle_id() {
    match AppTarget::parse("com.apple.TextEdit") {
        AppTarget::BundleId(bid) => assert_eq!(bid, "com.apple.TextEdit"),
        other => panic!("expected BundleId, got {other:?}"),
    }
}

// ───────────────────────── errors ─────────────────────────

#[test]
fn test_exit_code_permission_denied() {
    assert_eq!(LokiError::PermissionDenied.exit_code(), 2);
}

#[test]
fn test_exit_code_timeout() {
    assert_eq!(LokiError::Timeout(5000).exit_code(), 3);
}

#[test]
fn test_exit_code_defaults_to_1() {
    assert_eq!(LokiError::ElementNotFound("x".into()).exit_code(), 1);
    assert_eq!(LokiError::WindowNotFound("x".into()).exit_code(), 1);
    assert_eq!(LokiError::AppNotFound("x".into()).exit_code(), 1);
    assert_eq!(LokiError::LaunchFailed("x".into()).exit_code(), 1);
    assert_eq!(LokiError::InputError("x".into()).exit_code(), 1);
    assert_eq!(LokiError::ScreenshotFailed("x".into()).exit_code(), 1);
    assert_eq!(LokiError::Platform("x".into()).exit_code(), 1);
}

#[test]
fn test_display_messages() {
    assert_eq!(
        LokiError::ElementNotFound("btn".into()).message(),
        "element not found: btn"
    );
    assert_eq!(
        LokiError::WindowNotFound("main".into()).message(),
        "window not found: main"
    );
    assert_eq!(LokiError::Timeout(3000).message(), "timed out after 3000ms");
    assert_eq!(
        LokiError::PermissionDenied.message(),
        "permission denied — grant Accessibility access in System Settings"
    );
}

#[test]
fn test_io_error_conversion() {
    let io_err = std::io::Error::new(std::io::ErrorKind::NotFound, "file missing");
    let loki_err: LokiError = io_err.into();
    assert_eq!(loki_err.exit_code(), 1);
    assert!(loki_err.message().contains("file missing"));
}

// ───────────────────────── output ─────────────────────────

#[test]
fn test_format_windows_text_empty() {
    assert_eq!(format_windows_text(&vec![], &vec![], &vec![]), "No windows found.");
}

#[test]
fn test_format_windows_text_has_header() {
    let w = sample_window();
    let output = format_windows_text(
        &vec![w.clone()],
        &vec![render(w.frame.width)],
        &vec![render(w.frame.height)],
    );
    assert!(output.starts_with("WID"));
    assert!(output.contains("Test Window"));
}

#[test]
fn test_format_tree_text_indentation() {
    let tree = sample_tree();
    let mut frames = Vec::new();
    tree_frames(&tree, &mut frames);
    let output = format_tree_text(&tree, &frames);
    let lines: Vec<&str> = output.lines().collect();
    assert_eq!(lines.len(), 3);
    assert!(lines[0].starts_with("AXWindow"));
    assert!(lines[0].contains("\"Untitled\""));
    assert!(lines[0].contains("1920x1080"));
    assert!(lines[1].starts_with("  AXScrollArea"));
    assert!(lines[2].starts_with("    AXButton"));
    assert!(lines[2].contains("\"OK\""));
}

#[test]
fn test_format_elements_text_empty() {
    assert_eq!(format_elements_text(&vec![], &vec![]), "No elements found.");
}

#[test]
fn test_format_elements_text_with_items() {
    let elements = vec![AXElement {
        role: "AXButton".to_string(),
        subrole: None,
        title: Some("OK".to_string()),
        value: None,
        description: None,
        identifier: Some("btn-ok".to_string()),
        frame: Some(frame(10.0, 20.0, 80.0, 30.0)),
        enabled: true,
        focused: false,
        path: vec![0, 1],
        children: vec![],
    }];
    let frames: Vec<Option<String>> = elements.iter().map(|e| rendered_frame(&e.frame)).collect();
    let output = format_elements_text(&elements, &frames);
    assert!(output.contains("AXButton"));
    assert!(output.contains("\"OK\""));
    assert!(output.contains("id=btn-ok"));
    assert!(output.contains("80x30 at 10,20"));
    assert!(output.contains("[0.1]"));
}

#[test]
fn test_flatten_tree() {
    let tree = sample_tree();
    let flat = flatten_tree(&tree);
    assert_eq!(flat.len(), 3);
    assert_eq!(flat[0].role, "AXWindow");
    assert_eq!(flat[1].role, "AXScrollArea");
    assert_eq!(flat[2].role, "AXButton");
    assert!(flat[0].children.is_empty());
}

#[test]
fn test_truncate_ascii_unchanged() {
    assert_eq!(truncate("hello", 40), "hello");
}

#[test]
fn test_truncate_ascii_long() {
    let input = "a".repeat(42);
    let result = truncate(&input, 40);
    assert_eq!(result, "a".repeat(37) + "...");
    assert_eq!(result.len(), 40);
}

#[test]
fn test_truncate_shorter_than_max() {
    assert_eq!(truncate("hi", 40), "hi");
}

#[test]
fn test_truncate_exactly_max() {
    let input = "a".repeat(40);
    assert_eq!(truncate(&input, 40), input);
}

#[test]
fn test_truncate_one_byte_over() {
    let input = "a".repeat(41);
    assert_eq!(truncate(&input, 40), "a".repeat(37) + "...");
}

#[test]
fn test_truncate_empty() {
    assert_eq!(truncate("", 40), "");
}

#[test]
fn test_truncate_em_dash_at_boundary() {
    let input = format!("{}—xy", "a".repeat(36));
    assert_eq!(input.len(), 41);
    let result = truncate(&input, 40);
    assert!(result.ends_with("..."));
    assert!(result.len() <= 40);
    assert!(std::str::from_utf8(result.as_bytes()).is_ok());
    let em_bytes = "—".as_bytes();
    let has_any = result
        .as_bytes()
        .windows(1)
        .any(|w| em_bytes.contains(&w[0]));
    if has_any {
        assert!(result.contains("—"));
    }
}

#[test]
fn test_truncate_emoji_4byte_at_boundary() {
    let input = format!("{}🎉bc", "a".repeat(35));
    assert_eq!(input.len(), 41);
    let result = truncate(&input, 40);
    assert!(result.ends_with("..."));
    assert!(result.len() <= 40);
    assert!(std::str::from_utf8(result.as_bytes()).is_ok());
}

#[test]
fn test_truncate_cjk_at_boundary() {
    let input = format!("{}日本語", "a".repeat(36));
    assert_eq!(input.len(), 45);
    let result = truncate(&input, 40);
    assert!(result.ends_with("..."));
    assert!(result.len() <= 40);
    assert!(std::str::from_utf8(result.as_bytes()).is_ok());
}

#[test]
fn test_truncate_all_multibyte_no_regression() {
    let input = "日".repeat(20);
    assert_eq!(input.len(), 60);
    let result = truncate(&input, 40);
    assert!(result.ends_with("..."));
    assert!(result.len() <= 40);
    assert!(std::str::from_utf8(result.as_bytes()).is_ok());
}

#[test]
fn test_truncate_panic_regression_real_title() {
    let input = "Title with — em dash and 🎉 emoji padding pad pad";
    let result = truncate(input, 40);
    assert!(result.ends_with("..."));
    assert!(result.len() <= 40);
    assert!(std::str::from_utf8(result.as_bytes()).is_ok());
}

// ───────────────────────── text matching ─────────────────────────

#[test]
fn test_glob_matches_exact() {
    assert!(glob_matches("Finder", "Finder"));
    assert!(!glob_matches("Finder", "Safari"));
}

#[test]
fn test_glob_matches_wildcard() {
    assert!(glob_matches("Find*", "Finder"));
    assert!(glob_matches("*der", "Finder"));
    assert!(glob_matches("*ind*", "Finder"));
}

#[test]
fn test_glob_matches_question_mark() {
    assert!(glob_matches("Find?r", "Finder"));
    assert!(!glob_matches("Find?", "Finder"));
}

#[test]
fn test_glob_invalid_falls_back_to_substring() {
    assert!(glob_matches("[invalid", "[invalid pattern"));
}

#[test]
fn test_glob_matches_is_case_insensitive() {
    assert!(glob_matches("save", "Save"));
    assert!(glob_matches("SAVE", "save"));
    assert!(glob_matches("*ash-md*", "ASH-MD — README.md"));
    assert!(glob_matches("Find?R", "finder"));
    assert!(!glob_matches("Finder", "Safari"));
}

#[test]
fn test_glob_invalid_fallback_also_folds_case() {
    assert!(glob_matches("[INVALID", "an [invalid pattern"));
}

#[test]
fn test_glob_case_folding_is_ascii_only() {
    assert!(!glob_matches("café", "CAFÉ"));
    assert!(glob_matches("caf*", "CAFÉ"));
}

#[test]
fn test_glob_alphabetic_char_ranges_relax() {
    assert!(glob_matches("[a-z]", "Q"));
    assert!(glob_matches("[A-Z]", "q"));
    assert!(!glob_matches("[0-9]", "q"));
    assert!(glob_matches("[0-9]", "7"));
}

#[test]
fn test_identifier_stays_case_sensitive_exact() {
    let mut el = make_element("AXButton", Some("Save"));
    el.identifier = Some("btn-ok".to_string());

    let exact = ElementQuery {
        identifier: Some("btn-ok".to_string()),
        ..Default::default()
    };
    assert!(exact.matches(&el));

    let wrong_case = ElementQuery {
        identifier: Some("BTN-OK".to_string()),
        ..Default::default()
    };
    assert!(!wrong_case.matches(&el));
}

#[test]
fn test_query_title_and_label_fold_case() {
    let el = make_element("AXButton", Some("Save"));
    let by_title = ElementQuery {
        title: Some("save".to_string()),
        ..Default::default()
    };
    assert!(by_title.matches(&el));

    let mut webview_text = make_element("AXStaticText", None);
    webview_text.value = Some("Settings".to_string());
    let by_label = ElementQuery {
        label: Some("settings".to_string()),
        ..Default::default()
    };
    assert!(by_label.matches(&webview_text));
}

#[test]
fn test_query_value_and_description_fold_case() {
    let mut el = make_element("AXStaticText", None);
    el.value = Some("Ready".to_string());
    el.description = Some("Status Line".to_string());

    let by_value = ElementQuery {
        value: Some("ready".to_string()),
        ..Default::default()
    };
    assert!(by_value.matches(&el));

    let by_desc = ElementQuery {
        description: Some("STATUS*".to_string()),
        ..Default::default()
    };
    assert!(by_desc.matches(&el));
}

#[test]
fn test_window_title_matches_substring() {
    assert!(title_filter("ash-md").matches_title("ash-md — README.md"));
    assert!(title_filter("ash-md").matches_title("ash-md"));
    assert!(!title_filter("ash-md").matches_title("Safari"));
}

#[test]
fn test_window_title_glob_passthrough_anchors() {
    assert!(title_filter("ash-md*").matches_title("ash-md — README.md"));
    assert!(!title_filter("*README.md").matches_title("ash-md — README.md.bak"));
    assert!(title_filter("ash-m[d]").matches_title("ash-md"));
    assert!(!title_filter("ash-m[d]").matches_title("ash-md — README.md"));
}

#[test]
fn test_window_title_absent_pattern_matches_all() {
    assert!(WindowFilter::default().matches_title("anything"));
    assert!(WindowFilter::default().matches_title(""));
}

#[test]
fn test_window_title_is_case_insensitive() {
    assert!(title_filter("ash-md").matches_title("ASH-MD"));
    assert!(title_filter("ASH-MD").matches_title("ash-md — README.md"));
    assert!(!title_filter("ASH-MD*").matches_title("the ash-md window"));
}

#[test]
fn test_effective_title_pattern_reports_the_wrap() {
    assert_eq!(
        title_filter("ash-md").effective_title_pattern().unwrap(),
        "*ash-md*"
    );
    assert_eq!(
        title_filter("ash-md*").effective_title_pattern().unwrap(),
        "ash-md*"
    );
    assert_eq!(WindowFilter::default().effective_title_pattern(), None);
}

#[test]
fn test_auto_wrap_pattern_empty_stays_empty() {
    assert_eq!(auto_wrap_pattern(""), "");
}

#[test]
fn test_role_matches_exact() {
    assert!(role_matches("AXButton", "AXButton"));
    assert!(role_matches("AXWindow", "AXWindow"));
}

#[test]
fn test_role_matches_without_prefix() {
    assert!(role_matches("button", "AXButton"));
    assert!(role_matches("window", "AXWindow"));
    assert!(role_matches("textfield", "AXTextField"));
}

#[test]
fn test_role_matches_case_insensitive() {
    assert!(role_matches("BUTTON", "AXButton"));
    assert!(role_matches("axbutton", "AXButton"));
    assert!(role_matches("Button", "AXButton"));
}

#[test]
fn test_role_matches_mismatch() {
    assert!(!role_matches("button", "AXTextField"));
    assert!(!role_matches("AXWindow", "AXButton"));
}

#[test]
fn test_query_matches_empty_matches_all() {
    let q = ElementQuery::default();
    assert!(q.matches(&make_element("AXButton", Some("OK"))));
    assert!(q.matches(&make_element("AXWindow", None)));
}

#[test]
fn test_query_matches_role_only() {
    let q = ElementQuery {
        role: Some("button".to_string()),
        ..Default::default()
    };
    assert!(q.matches(&make_element("AXButton", Some("OK"))));
    assert!(!q.matches(&make_element("AXTextField", Some("name"))));
}

#[test]
fn test_query_matches_title_glob() {
    let q = ElementQuery {
        title: Some("Untitled*".to_string()),
        ..Default::default()
    };
    assert!(q.matches(&make_element("AXWindow", Some("Untitled"))));
    assert!(q.matches(&make_element("AXWindow", Some("Untitled — Edited"))));
    assert!(!q.matches(&make_element("AXWindow", Some("Document 1"))));
    assert!(!q.matches(&make_element("AXWindow", None)));
}

#[test]
fn test_query_matches_and_logic() {
    let q = ElementQuery {
        role: Some("button".to_string()),
        title: Some("OK".to_string()),
        ..Default::default()
    };
    assert!(q.matches(&make_element("AXButton", Some("OK"))));
    assert!(!q.matches(&make_element("AXButton", Some("Cancel"))));
    assert!(!q.matches(&make_element("AXTextField", Some("OK"))));
}

#[test]
fn test_query_matches_identifier() {
    let mut el = make_element("AXButton", Some("OK"));
    el.identifier = Some("btn-ok".to_string());

    let q = ElementQuery {
        identifier: Some("btn-ok".to_string()),
        ..Default::default()
    };
    assert!(q.matches(&el));

    let q2 = ElementQuery {
        identifier: Some("btn-cancel".to_string()),
        ..Default::default()
    };
    assert!(!q2.matches(&el));
}

#[test]
fn test_query_matches_label_on_value_only() {
    let mut el = make_element("AXStaticText", None);
    el.value = Some("Settings".to_string());

    let q_label = ElementQuery {
        label: Some("Settings".to_string()),
        ..Default::default()
    };
    assert!(q_label.matches(&el));

    let q_title = ElementQuery {
        title: Some("Settings".to_string()),
        ..Default::default()
    };
    assert!(!q_title.matches(&el));
}

#[test]
fn test_query_matches_label_on_title() {
    let el = make_element("AXStaticText", Some("Settings"));
    let q = ElementQuery {
        label: Some("Settings".to_string()),
        ..Default::default()
    };
    assert!(q.matches(&el));
}

#[test]
fn test_query_matches_label_on_description() {
    let mut el = make_element("AXStaticText", None);
    el.description = Some("Settings".to_string());
    let q = ElementQuery {
        label: Some("Settings".to_string()),
        ..Default::default()
    };
    assert!(q.matches(&el));
}

#[test]
fn test_query_matches_label_on_identifier() {
    let mut el = make_element("AXStaticText", None);
    el.identifier = Some("Settings".to_string());
    let q = ElementQuery {
        label: Some("Settings".to_string()),
        ..Default::default()
    };
    assert!(q.matches(&el));
}

#[test]
fn test_query_matches_label_glob_wildcard() {
    let mut el = make_element("AXStaticText", None);
    el.value = Some("ordis-dev".to_string());
    let q = ElementQuery {
        label: Some("ordis*".to_string()),
        ..Default::default()
    };
    assert!(q.matches(&el));
}

#[test]
fn test_query_matches_label_none_of_four_fields() {
    let el = make_element("AXGroup", None);
    let q = ElementQuery {
        label: Some("anything".to_string()),
        ..Default::default()
    };
    assert!(!q.matches(&el));
}

#[test]
fn test_is_actionable_covers_click_targets_not_captions() {
    assert!(is_actionable("AXButton"));
    assert!(is_actionable("AXMenuItem"));
    assert!(is_actionable("AXTextField"));
    assert!(is_actionable("AXCheckBox"));
    assert!(is_actionable("button"));
    assert!(!is_actionable("AXStaticText"));
    assert!(!is_actionable("AXGroup"));
    assert!(!is_actionable("AXImage"));
}

#[test]
fn test_pick_click_target_prefers_button_over_caption() {
    let mut caption = make_element("AXStaticText", Some("Save As:"));
    caption.identifier = Some("nameFieldLabel".to_string());
    let button = make_element("AXButton", Some("Save"));

    let matches = [caption, button];
    let picked = pick_one(&matches);
    assert_eq!(picked.role, "AXButton");
    assert_eq!(picked.title.as_deref(), Some("Save"));
}

#[test]
fn test_pick_click_target_ambiguous_actionable_refuses() {
    let matches = vec![
        make_element("AXButton", Some("Save")),
        make_element("AXStaticText", Some("Save As:")),
        make_element("AXButton", Some("Save All")),
    ];
    match pick_click_target(&matches) {
        ClickTarget::Ambiguous(candidates) => {
            assert_eq!(candidates.len(), 2);
            assert!(candidates.iter().all(|c| c.role == "AXButton"));
        }
        other => panic!("expected ambiguity, got {other:?}"),
    }
}

#[test]
fn test_pick_click_target_all_static_keeps_first_match() {
    let mut outer = make_element("AXGroup", None);
    outer.value = Some("Settings".to_string());
    let mut inner = make_element("AXStaticText", None);
    inner.value = Some("Settings".to_string());

    let matches = [outer, inner];
    let picked = pick_one(&matches);
    assert_eq!(picked.role, "AXGroup");
}

#[test]
fn test_pick_click_target_single_match_unchanged() {
    let matches = [make_element("AXStaticText", Some("only"))];
    let picked = pick_one(&matches);
    assert_eq!(picked.title.as_deref(), Some("only"));
}

#[test]
fn test_pick_click_target_empty_is_none() {
    assert!(matches!(pick_click_target(&[]), ClickTarget::NoMatch));
}

#[test]
fn test_pick_click_target_index_query_stays_deterministic() {
    let tree = make_tree();
    let q = ElementQuery {
        role: Some("statictext".to_string()),
        index: Some(0),
        ..Default::default()
    };
    let results = search_tree(&tree, &q);
    assert_eq!(results.len(), 1);
    assert_eq!(pick_one(&results).role, "AXStaticText");
}

#[test]
fn test_search_tree_by_role() {
    let tree = make_tree();
    let q = ElementQuery {
        role: Some("button".to_string()),
        ..Default::default()
    };
    let results = search_tree(&tree, &q);
    assert_eq!(results.len(), 2);
    assert_eq!(results[0].title.as_deref(), Some("OK"));
    assert_eq!(results[1].title.as_deref(), Some("Cancel"));
}

#[test]
fn test_search_tree_by_index() {
    let tree = make_tree();
    let q = ElementQuery {
        role: Some("button".to_string()),
        index: Some(1),
        ..Default::default()
    };
    let results = search_tree(&tree, &q);
    assert_eq!(results.len(), 1);
    assert_eq!(results[0].title.as_deref(), Some("Cancel"));
}

#[test]
fn test_search_tree_max_depth() {
    let tree = make_tree();
    let q = ElementQuery {
        role: Some("statictext".to_string()),
        max_depth: Some(1),
        ..Default::default()
    };
    let results = search_tree(&tree, &q);
    assert_eq!(results.len(), 0);

    let q2 = ElementQuery {
        role: Some("statictext".to_string()),
        ..Default::default()
    };
    let results2 = search_tree(&tree, &q2);
    assert_eq!(results2.len(), 1);
}

#[test]
fn test_search_tree_by_label_value() {
    let mut text_el = make_element("AXStaticText", None);
    text_el.value = Some("ordis".to_string());
    text_el.path = vec![0];

    let tree = AXElement {
        children: vec![text_el],
        ..make_element("AXWindow", Some("Webview"))
    };

    let q_label = ElementQuery {
        label: Some("ordis".to_string()),
        ..Default::default()
    };
    let results = search_tree(&tree, &q_label);
    assert_eq!(results.len(), 1);
    assert_eq!(results[0].value.as_deref(), Some("ordis"));

    let q_title = ElementQuery {
        title: Some("ordis".to_string()),
        ..Default::default()
    };
    let results_title = search_tree(&tree, &q_title);
    assert_eq!(results_title.len(), 0);
}

// ───────────────────────── input ─────────────────────────

#[test]
fn test_scroll_increments_sum_to_delta() {
    let increments = scroll_increments(300, 7);
    assert_eq!(increments.len(), 7);
    assert_eq!(increments.iter().sum::<i32>(), 300);
}

#[test]
fn test_scroll_increments_single_step_is_whole_delta() {
    assert_eq!(scroll_increments(-300, 1), vec![-300]);
}

#[test]
fn test_scroll_increments_preserve_sign() {
    let increments = scroll_increments(-10, 4);
    assert_eq!(increments.iter().sum::<i32>(), -10);
    assert!(increments.iter().all(|&d| d <= 0));
}

#[test]
fn test_scroll_increments_zero_steps_still_delivers_delta() {
    assert_eq!(scroll_increments(120, 0), vec![120]);
}

#[test]
fn test_scroll_increments_zero_delta_is_all_zero() {
    assert_eq!(scroll_increments(0, 3), vec![0, 0, 0]);
}

#[test]
fn test_parse_combo_single_key() {
    let (key, mods) = parse_combo_for_applescript("a").unwrap();
    assert_eq!(key, "a");
    assert!(mods.is_empty());
}

#[test]
fn test_parse_combo_cmd_key() {
    let (key, mods) = parse_combo_for_applescript("cmd+s").unwrap();
    assert_eq!(key, "s");
    assert_eq!(mods, vec!["command down"]);
}

#[test]
fn test_parse_combo_multiple_modifiers() {
    let (key, mods) = parse_combo_for_applescript("ctrl+shift+a").unwrap();
    assert_eq!(key, "a");
    assert!(mods.contains(&"control down".to_string()));
    assert!(mods.contains(&"shift down".to_string()));
}

#[test]
fn test_parse_combo_special_key() {
    let (key, mods) = parse_combo_for_applescript("cmd+enter").unwrap();
    assert_eq!(key, "enter");
    assert_eq!(mods, vec!["command down"]);
}

#[test]
fn test_parse_combo_modifier_aliases() {
    let (_, mods) = parse_combo_for_applescript("command+a").unwrap();
    assert_eq!(mods, vec!["command down"]);

    let (_, mods) = parse_combo_for_applescript("control+a").unwrap();
    assert_eq!(mods, vec!["control down"]);

    let (_, mods) = parse_combo_for_applescript("option+a").unwrap();
    assert_eq!(mods, vec!["option down"]);

    let (_, mods) = parse_combo_for_applescript("alt+a").unwrap();
    assert_eq!(mods, vec!["option down"]);

    let (_, mods) = parse_combo_for_applescript("opt+a").unwrap();
    assert_eq!(mods, vec!["option down"]);

    let (_, mods) = parse_combo_for_applescript("super+a").unwrap();
    assert_eq!(mods, vec!["command down"]);
}

#[test]
fn test_parse_combo_named_keys_have_codes() {
    assert!(applescript_key_code("tab").is_some());
    assert!(applescript_key_code("space").is_some());
    assert!(applescript_key_code("escape").is_some());
    assert!(applescript_key_code("esc").is_some());
    assert!(applescript_key_code("delete").is_some());
    assert!(applescript_key_code("backspace").is_some());
    assert!(applescript_key_code("up").is_some());
    assert!(applescript_key_code("down").is_some());
    assert!(applescript_key_code("left").is_some());
    assert!(applescript_key_code("right").is_some());
    assert!(applescript_key_code("enter").is_some());
    assert!(applescript_key_code("return").is_some());
    assert!(applescript_key_code("f1").is_some());
    assert!(applescript_key_code("f12").is_some());
}

#[test]
fn test_parse_combo_unknown_key() {
    let (key, _) = parse_combo_for_applescript("cmd+unicorn").unwrap();
    assert_eq!(key, "unicorn");
    assert!(applescript_key_code(&key).is_none());
}

#[test]
fn test_parse_combo_empty() {
    assert!(parse_combo_for_applescript("").is_err());
}

#[test]
fn test_parse_combo_no_key_only_modifier() {
    assert!(parse_combo_for_applescript("cmd").is_err());
}

#[test]
fn test_parse_combo_multiple_non_modifier_keys() {
    assert!(parse_combo_for_applescript("a+b").is_err());
}

#[test]
fn test_window_takes_precedence_over_bundle_id() {
    let lookup = loki::targets::target_lookup(None, Some(99999999), &Some("com.apple.Finder".to_string()));
    assert_eq!(lookup, loki::targets::TargetLookup::WindowOwner(99999999));
    // Resolving that window fails on the window, not on the bundle ID.
    let err = loki::targets::find_window_ref(&vec![sample_window()], 99999999).unwrap_err();
    assert!(err.message().contains("window not found"));
}

#[test]
fn test_pid_takes_precedence_over_bundle_id() {
    let lookup = loki::targets::target_lookup(
        Some(999999),
        None,
        &Some("com.example.NotARealApp".to_string()),
    );
    assert_eq!(lookup, loki::targets::TargetLookup::Pid(999999));
}
