use loki::capture::{bgra_to_rgba, cgimage_to_png, png_outcome};
use loki::cli::{
    element_query, wait_timeout, wait_window_filter,
    app_info_target, click_suffix, empty_listing_outcome, frontmost_or_error, permission_text,
    window_by_title, Listing,
};
use loki::config::default_timeout;
use loki::diagnose::{explain_empty_find, explain_empty_windows, explain_wait_window_timeout};
use loki::driver::{first_window, select_windows};
use loki::element::{child_path, descends, role_or_unknown, AXElement, AppInfo, AppTarget, ElementFrame, WindowInfo, WindowRef};
use loki::error::LokiError;
use loki::input::{
    click_plan, drag_plan, key_combo_script, keystroke_script, wheel_plan, MouseEventKind,
    MouseStep, WheelStep,
};
use loki::output::{format_app_info_text, frame_text, truncate, OutputFormat};
use loki::process::{
    bundle_id_from_lsappinfo, bundle_id_from_mdls, get_app_info, is_front_application,
    kill_arguments, launch_arguments, launch_failure, pids_from_lsappinfo, process_name_from_ps,
    window_bundle_id_from_lsappinfo,
};
use loki::query::{auto_wrap_pattern, glob_matches, role_matches, search_tree, ElementQuery, WindowFilter};
use loki::targets::{
    find_window_ref, no_ax_window, pick_ax_window, resolve_relative_origin, targeting_hint,
    ArgInfo, CommandInfo,
};
use loki::driver::{wait_step, WaitAction};
use loki::menu::{MenuItem, MenuState};
use loki::targets::{target_lookup, TargetLookup};
use loki::text::i32_to_decimal;

fn window(id: u32, pid: u32, title: &str, bundle: Option<&str>, on_screen: bool) -> WindowInfo {
    WindowInfo {
        window_id: id,
        pid,
        title: title.to_string(),
        bundle_id: bundle.map(|b| b.to_string()),
        frame: ElementFrame {
            x: (id as f64 * 10.0).to_bits(),
            y: 5.0f64.to_bits(),
            width: 100.0f64.to_bits(),
            height: 50.0f64.to_bits(),
        },
        is_on_screen: on_screen,
    }
}

fn element(role: &str, title: Option<&str>) -> AXElement {
    AXElement {
        role: role.to_string(),
        subrole: None,
        title: title.map(|s| s.to_string()),
        value: None,
        description: None,
        identifier: None,
        frame: None,
        enabled: true,
        focused: false,
        path: vec![],
        children: vec![],
    }
}

// ───────────────────────── laws on concrete values ─────────────────────────

#[test]
fn auto_wrap_twice_is_wrap_once() {
    for p in ["Projects", "", "a*", "[x]", "  "] {
        let once = auto_wrap_pattern(p);
        assert_eq!(auto_wrap_pattern(&once), once);
    }
}

#[test]
fn empty_query_matches_any_element() {
    let q = ElementQuery::default();
    assert!(q.matches(&element("AXGroup", None)));
    assert!(q.matches(&element("", Some(""))));
}

#[test]
fn label_matches_whatever_title_matches() {
    let mut e = element("AXStaticText", None);
    e.description = Some("Status".to_string());
    let by_title = ElementQuery { title: Some("stat*".to_string()), ..Default::default() };
    let by_label = ElementQuery { label: Some("stat*".to_string()), ..Default::default() };
    assert!(by_title.matches(&e));
    assert!(by_label.matches(&e));
}

#[test]
fn role_comparison_is_symmetric() {
    assert_eq!(role_matches("button", "AXButton"), role_matches("AXButton", "button"));
    assert_eq!(role_matches("AXRow", "AXCell"), role_matches("AXCell", "AXRow"));
    assert!(role_matches("AXSlider", "AXSlider"));
}

#[test]
fn search_results_all_match_and_empty_search_finds_every_node() {
    let mut root = element("AXWindow", Some("w"));
    let mut group = element("AXGroup", None);
    group.children = vec![element("AXButton", Some("a")), element("AXButton", Some("b"))];
    root.children = vec![group, element("AXButton", Some("c"))];
    let q = ElementQuery { role: Some("button".to_string()), ..Default::default() };
    let found = search_tree(&root, &q);
    assert_eq!(found.len(), 3);
    assert!(found.iter().all(|e| q.matches(e)));
    let all = search_tree(&root, &ElementQuery::default());
    let flat = loki::output::flatten_tree(&root);
    assert_eq!(all.len(), flat.len());
    for (a, b) in all.iter().zip(flat.iter()) {
        assert_eq!(a.role, b.role);
        assert_eq!(a.title, b.title);
    }
}

#[test]
fn search_is_the_flattened_tree_filtered_by_the_query() {
    let mut root = element("AXWindow", Some("w"));
    let mut group = element("AXGroup", Some("b-group"));
    group.children = vec![element("AXButton", Some("a")), element("AXButton", Some("b"))];
    root.children = vec![group, element("AXButton", Some("c")), element("AXStaticText", Some("b"))];
    let q = ElementQuery { title: Some("b*".to_string()), ..Default::default() };
    let found: Vec<(String, Option<String>)> =
        search_tree(&root, &q).into_iter().map(|e| (e.role, e.title)).collect();
    let expected: Vec<(String, Option<String>)> = loki::output::flatten_tree(&root)
        .into_iter()
        .filter(|e| q.matches(e))
        .map(|e| (e.role, e.title))
        .collect();
    assert_eq!(found, expected);
    assert_eq!(found.len(), 3);
}

#[test]
fn relaxing_a_filter_keeps_windows() {
    let w = window(1, 10, "Notes", Some("com.apple.Notes"), true);
    let f = WindowFilter {
        title: Some("note".to_string()),
        bundle_id: Some("com.apple.Notes".to_string()),
        pid: Some(10),
        include_unnamed: false,
    };
    assert!(f.matches(&w));
    for relaxed in [
        WindowFilter { include_unnamed: true, ..f.clone() },
        WindowFilter { title: None, ..f.clone() },
        WindowFilter { bundle_id: None, ..f.clone() },
        WindowFilter { pid: None, ..f.clone() },
    ] {
        assert!(relaxed.matches(&w));
    }
}

#[test]
fn truncate_stays_within_max_bytes() {
    for max in 3..12 {
        let r = truncate("héllo wörld 🎉 again", max);
        assert!(r.len() <= max, "{r:?} longer than {max}");
    }
    // Below three bytes the ellipsis alone does not fit.
    assert_eq!(truncate("abcdef", 2), "...");
}

#[test]
fn timeout_detail_keeps_exit_code() {
    let e = LokiError::TimeoutDetail { timeout_ms: 10, detail: "x".to_string() };
    assert_eq!(e.exit_code(), LokiError::Timeout(10).exit_code());
    assert_eq!(e.message(), "timed out after 10ms\nx");
}

#[test]
fn pid_text_round_trips_to_pid_target() {
    for pid in [0u32, 7, 4242, u32::MAX] {
        match AppTarget::parse(&pid.to_string()) {
            AppTarget::Pid(p) => assert_eq!(p, pid),
            other => panic!("expected Pid, got {other:?}"),
        }
    }
}

#[test]
fn scroll_steps_differ_by_at_most_one() {
    let inc = loki::input::scroll_increments(-300, 7);
    for w in inc.windows(2) {
        assert!(w[0].abs() >= w[1].abs() && w[0].abs() - w[1].abs() <= 1);
    }
}

// ───────────────────────── diagnostics ─────────────────────────

#[test]
fn empty_find_on_empty_tree_names_the_webview_cause() {
    let w = WindowRef { window_id: 7, pid: 99 };
    let q = ElementQuery { role: Some("button".to_string()), ..Default::default() };
    let text = explain_empty_find(&vec![], &w, &q);
    assert_eq!(
        text,
        "no element matched role \"button\"\n  searched: 0 elements in window 7 (pid 99)\n  the window's tree is empty — wrong window id, or a WKWebView/Electron UI that the AX API does not expose (screenshot + coordinate clicks instead)"
    );
}

#[test]
fn empty_find_reports_highest_valid_index() {
    let w = WindowRef { window_id: 1, pid: 2 };
    let all = vec![element("AXButton", Some("a")), element("AXButton", Some("b"))];
    let q = ElementQuery { role: Some("button".to_string()), index: Some(5), ..Default::default() };
    let text = explain_empty_find(&all, &w, &q);
    assert!(text.starts_with("no element matched role \"button\" + index 5\n"));
    assert!(text.ends_with(
        "  2 element(s) matched the rest of the query — --index is 0-based, so the highest valid one here is 1"
    ));
}

#[test]
fn empty_find_names_roles_that_matched_the_text() {
    let w = WindowRef { window_id: 1, pid: 2 };
    let all = vec![
        element("AXStaticText", Some("Save")),
        element("AXLink", Some("Save")),
        element("AXStaticText", Some("Save as")),
    ];
    let q = ElementQuery {
        role: Some("button".to_string()),
        title: Some("Save*".to_string()),
        ..Default::default()
    };
    let text = explain_empty_find(&all, &w, &q);
    assert!(text.ends_with("  3 element(s) matched the text but not the role — they are: AXLink, AXStaticText"));
}

#[test]
fn empty_find_lists_roles_present_when_role_is_absent() {
    let w = WindowRef { window_id: 1, pid: 2 };
    let all = vec![element("AXGroup", None), element("AXImage", None), element("AXGroup", None)];
    let q = ElementQuery { role: Some("slider".to_string()), ..Default::default() };
    let text = explain_empty_find(&all, &w, &q);
    assert!(text.ends_with("  no element has that role; roles present: AXGroup, AXImage"));
}

#[test]
fn empty_find_reports_near_miss_under_another_field() {
    let w = WindowRef { window_id: 1, pid: 2 };
    let mut e = element("AXStaticText", None);
    e.value = Some("Hello World".to_string());
    let q = ElementQuery { title: Some("*world*".to_string()), ..Default::default() };
    let text = explain_empty_find(&vec![e], &w, &q);
    assert!(text.contains("  near-miss (some text field contains \"world\"): AXStaticText \"Hello World\""));
    assert!(text.ends_with("--label also matches AXValue (webview text)"));
}

#[test]
fn empty_find_says_when_no_text_contains_needle() {
    let w = WindowRef { window_id: 1, pid: 2 };
    let q = ElementQuery { label: Some("zzz".to_string()), ..Default::default() };
    let text = explain_empty_find(&vec![element("AXButton", Some("OK"))], &w, &q);
    assert!(text.contains("no element's text contains \"zzz\""));
}

#[test]
fn empty_windows_on_empty_list() {
    let f = WindowFilter::default();
    let text = explain_empty_windows(&vec![], &f);
    assert_eq!(
        text,
        "no window matched any window\n  searched: 0 windows (0 titled, 0 untitled, excluded without --all)\n  the window list itself is empty — no app has an on-screen window, or screen access is not granted (`loki check-permission`)"
    );
}

#[test]
fn empty_windows_points_at_all_flag() {
    let all = vec![window(1, 10, "", Some("com.x"), true)];
    let f = WindowFilter { bundle_id: Some("com.x".to_string()), ..Default::default() };
    let text = explain_empty_windows(&all, &f);
    assert!(text.ends_with("  1 window(s) match the rest of the query but have an empty title — `--all` would have included them"));
}

#[test]
fn empty_windows_names_the_excluding_flag() {
    let all = vec![window(1, 10, "Editor", Some("com.a"), true), window(2, 11, "Browser", Some("com.b"), true)];
    let f = WindowFilter {
        title: Some("Editor".to_string()),
        bundle_id: Some("com.b".to_string()),
        ..Default::default()
    };
    let text = explain_empty_windows(&all, &f);
    assert!(text.contains(
        "no window satisfies all of them together, though each is satisfiable alone: dropping --title matches 1, dropping --bundle-id matches 1 — the flags are describing different windows"
    ));
    let g = WindowFilter {
        title: Some("Editor".to_string()),
        pid: Some(77),
        ..Default::default()
    };
    let text = explain_empty_windows(&all, &g);
    assert!(text.contains("  dropping --pid would have matched 1 window(s) — that flag is the one excluding everything"));
    assert!(text.contains("  no window belongs to pid 77"));
}

#[test]
fn empty_windows_offers_near_miss_bundle_ids() {
    let all = vec![
        window(1, 10, "A", Some("com.apple.Notes"), true),
        window(2, 10, "B", Some("com.apple.Notes"), true),
    ];
    let f = WindowFilter { bundle_id: Some("Notes".to_string()), ..Default::default() };
    let text = explain_empty_windows(&all, &f);
    assert!(text.contains("  no window belongs to \"Notes\" — near-miss bundle-ids present: \"com.apple.Notes\""));
}

#[test]
fn empty_windows_reports_anchoring_near_miss() {
    let all = vec![window(1, 10, "the ash-md window", None, true)];
    let f = WindowFilter { title: Some("ash-md*".to_string()), ..Default::default() };
    let text = explain_empty_windows(&all, &f);
    assert!(text.ends_with(
        "  near-miss (contains \"ash-md\" but the glob above did not match): \"the ash-md window\""
    ));
}

#[test]
fn empty_windows_samples_titles_when_glob_matches_nothing() {
    let all = vec![
        window(1, 10, "One", None, true),
        window(2, 10, "Two", None, true),
        window(3, 10, "Three", None, true),
        window(4, 10, "Four", None, true),
    ];
    let f = WindowFilter { title: Some("zebra".to_string()), ..Default::default() };
    let text = explain_empty_windows(&all, &f);
    assert!(text.ends_with("Titles present: \"One\", \"Two\", \"Three\", …"));
}

#[test]
fn wait_timeout_counts_bundle_windows_and_near_misses() {
    let all = vec![
        window(1, 10, "ash-md — README", Some("COM.Ash"), true),
        window(2, 10, "", Some("com.ash"), true),
    ];
    let f = WindowFilter {
        title: Some("*ASH-MD".to_string()),
        bundle_id: Some("com.ash".to_string()),
        pid: None,
        include_unnamed: true,
    };
    match explain_wait_window_timeout(&all, &f, 1500) {
        LokiError::TimeoutDetail { timeout_ms, detail } => {
            assert_eq!(timeout_ms, 1500);
            let lines: Vec<&str> = detail.lines().collect();
            assert_eq!(lines[0], "waiting for title glob \"*ASH-MD\" + bundle-id \"com.ash\"");
            assert_eq!(lines[1], "  seen: 2 windows (1 titled)");
            assert_eq!(lines[2], "  2 of them belong to \"com.ash\"");
            assert_eq!(lines[3], "  near-miss (contains \"ASH-MD\" but the glob above did not match): \"ash-md — README\"");
            assert!(lines[4].starts_with("  hint: a freshly built"));
        }
        other => panic!("expected a detailed timeout, got {other:?}"),
    }
}

#[test]
fn empty_listing_outcomes() {
    match empty_listing_outcome(Listing::Elements, true, OutputFormat::Text, "d".to_string()) {
        Some(Err(LokiError::ElementNotFound(m))) => assert_eq!(m, "d"),
        other => panic!("unexpected {other:?}"),
    }
    match empty_listing_outcome(Listing::Windows, true, OutputFormat::Json, "d".to_string()) {
        Some(Err(LokiError::WindowNotFound(m))) => assert_eq!(m, "d"),
        other => panic!("unexpected {other:?}"),
    }
    match empty_listing_outcome(Listing::Windows, false, OutputFormat::Text, "d".to_string()) {
        Some(Ok(t)) => assert_eq!(t, "No windows found: d"),
        other => panic!("unexpected {other:?}"),
    }
    assert!(empty_listing_outcome(Listing::Elements, false, OutputFormat::Json, "d".to_string()).is_none());
}

// ───────────────────────── targets ─────────────────────────

#[test]
fn targeting_hint_for_command_without_targets() {
    let cmds = vec![CommandInfo { name: "windows-x".to_string(), args: vec![] }];
    let hint = targeting_hint(true, &Some("--window=3".to_string()), &vec!["windows-x".to_string()], &cmds);
    assert_eq!(hint.unwrap(), "note: `loki windows-x` takes no targeting flags");
}

#[test]
fn targeting_hint_only_for_unknown_argument() {
    let cmds = vec![CommandInfo {
        name: "key".to_string(),
        args: vec![ArgInfo { id: "pid".to_string(), positional: false }],
    }];
    assert!(targeting_hint(false, &Some("--pid".to_string()), &vec!["key".to_string()], &cmds).is_none());
    assert!(targeting_hint(true, &None, &vec!["key".to_string()], &cmds).is_none());
    assert!(targeting_hint(true, &Some("--pid".to_string()), &vec!["other".to_string()], &cmds).is_none());
    assert_eq!(
        targeting_hint(true, &Some("--bundle-id".to_string()), &vec!["key".to_string()], &cmds).unwrap(),
        "note: `loki key` targets with --pid"
    );
}

#[test]
fn window_ref_lookup() {
    let all = vec![window(5, 50, "a", None, true), window(6, 60, "b", None, true)];
    let r = find_window_ref(&all, 6).unwrap();
    assert_eq!((r.window_id, r.pid), (6, 60));
    assert_eq!(find_window_ref(&all, 9).unwrap_err().message(), "window not found: window_id=9");
}

#[test]
fn relative_origin_choices() {
    let all = vec![
        window(1, 10, "Main", None, true),
        window(2, 10, "", None, true),
        window(3, 20, "Solo", None, true),
        window(4, 20, "Hidden", None, false),
    ];
    let pos: Vec<String> = all
        .iter()
        .map(|w| format!("{},{}", f64::from_bits(w.frame.x), f64::from_bits(w.frame.y)))
        .collect();
    assert_eq!(resolve_relative_origin(false, Some(10), Some(1), &all, &pos).unwrap(), None);
    assert_eq!(resolve_relative_origin(true, Some(20), Some(2), &all, &pos).unwrap().unwrap().x, 20.0f64.to_bits());
    assert_eq!(resolve_relative_origin(true, Some(20), None, &all, &pos).unwrap().unwrap().x, 30.0f64.to_bits());
    let none = resolve_relative_origin(true, Some(30), None, &all, &pos).unwrap_err().message();
    assert_eq!(none, "input error: --relative: PID 30 has no on-screen window to resolve coordinates against");
    let many = resolve_relative_origin(true, Some(10), None, &all, &pos).unwrap_err().message();
    assert_eq!(
        many,
        "input error: --relative: PID 10 has 2 on-screen windows — name one with --window:\n  --window 1 — \"Main\" at 10,5\n  --window 2 — \"<untitled>\" at 20,5"
    );
    assert!(resolve_relative_origin(true, None, Some(9), &all, &pos).unwrap_err().message().contains("window_id=9"));
}

#[test]
fn ax_window_pick_prefers_exact_title() {
    let titles = vec![Some("Other".to_string()), None, Some("Doc".to_string())];
    assert_eq!(pick_ax_window(&titles, "Doc"), Some(2));
    assert_eq!(pick_ax_window(&titles, "Missing"), Some(0));
    assert_eq!(pick_ax_window(&vec![], "Doc"), None);
    assert_eq!(
        no_ax_window("Doc", 12).message(),
        "window not found: no AX window with title 'Doc' for PID 12"
    );
}

#[test]
fn window_selection_and_title_lookup() {
    let all = vec![
        window(1, 10, "", None, true),
        window(2, 10, "Report — draft", Some("com.w"), true),
        window(3, 11, "report final", Some("com.w"), true),
    ];
    let f = WindowFilter { title: Some("report".to_string()), ..Default::default() };
    let picked = select_windows(&all, &f);
    assert_eq!(picked.iter().map(|w| w.window_id).collect::<Vec<_>>(), vec![2, 3]);
    assert_eq!(first_window(&all, &f).unwrap().window_id, 2);
    let untitled = WindowFilter { include_unnamed: true, pid: Some(10), ..Default::default() };
    assert_eq!(select_windows(&all, &untitled).len(), 2);
    assert_eq!(window_by_title("final", &all).unwrap(), 3);
    assert_eq!(
        window_by_title("nothing", &all).unwrap_err().message(),
        "window not found: no window matching title 'nothing'"
    );
}

#[test]
fn menu_fallback_to_frontmost() {
    assert_eq!(frontmost_or_error(Some(44)).unwrap(), 44);
    assert!(frontmost_or_error(None).unwrap_err().message().contains("no frontmost app"));
}

#[test]
fn app_info_target_precedence() {
    assert_eq!(app_info_target(&Some("t".to_string()), Some(5), &Some("b".to_string())).unwrap(), "5");
    assert_eq!(app_info_target(&Some("t".to_string()), None, &Some("b".to_string())).unwrap(), "b");
    assert_eq!(app_info_target(&Some("t".to_string()), None, &None).unwrap(), "t");
    assert!(app_info_target(&None, None, &None).is_err());
}

// ───────────────────────── input plans ─────────────────────────

#[test]
fn click_plans() {
    assert_eq!(
        click_plan(true, true),
        vec![
            MouseStep { kind: MouseEventKind::LeftDown, click_state: 1 },
            MouseStep { kind: MouseEventKind::LeftUp, click_state: 1 },
            MouseStep { kind: MouseEventKind::LeftDown, click_state: 2 },
            MouseStep { kind: MouseEventKind::LeftUp, click_state: 2 },
        ]
    );
    assert_eq!(click_plan(false, true)[0].kind, MouseEventKind::RightDown);
    assert_eq!(click_plan(false, false).len(), 2);
    assert_eq!(click_suffix(true, true), " (double)");
    assert_eq!(click_suffix(false, true), " (right)");
    assert_eq!(click_suffix(false, false), "");
}

#[test]
fn drag_plan_reaches_destination() {
    let p = drag_plan(0);
    assert_eq!(
        p,
        vec![MouseEventKind::Moved, MouseEventKind::LeftDown, MouseEventKind::LeftDragged, MouseEventKind::LeftUp]
    );
    assert_eq!(drag_plan(10).len(), 13);
}

#[test]
fn wheel_plan_negates_and_splits() {
    let p = wheel_plan(0, 300, 2);
    assert_eq!(p, vec![WheelStep { axes: 1, wheel1: -150, wheel2: 0 }, WheelStep { axes: 1, wheel1: -150, wheel2: 0 }]);
    let q = wheel_plan(-5, 7, 2);
    assert_eq!(q, vec![WheelStep { axes: 2, wheel1: -4, wheel2: 3 }, WheelStep { axes: 2, wheel1: -3, wheel2: 2 }]);
    assert_eq!(wheel_plan(i32::MIN, 0, 2).len(), 2);
}

#[test]
fn applescript_for_text_and_combos() {
    assert_eq!(
        keystroke_script("say \"hi\" \\"),
        "tell application \"System Events\" to keystroke \"say \\\"hi\\\" \\\\\""
    );
    assert_eq!(
        key_combo_script("cmd+s").unwrap(),
        "tell application \"System Events\" to keystroke \"s\" using {command down}"
    );
    assert_eq!(key_combo_script("tab").unwrap(), "tell application \"System Events\" to key code 48");
    assert!(key_combo_script("unicorn").unwrap_err().message().contains("unknown key: unicorn"));
}

#[test]
fn roles_and_combos_compare_ignoring_ascii_case() {
    assert!(role_matches("BUTTON", "AXButton"));
    assert!(role_matches("axbutton", "AXBUTTON"));
    assert!(!role_matches("BUTTONS", "AXButton"));
    assert!(loki::query::is_actionable("axbutton"));
    assert!(!loki::query::is_actionable("AXGroup"));
    let (key, mods) = loki::input::parse_combo_for_applescript("CMD + S").unwrap();
    assert_eq!(key, "s");
    assert_eq!(mods, vec!["command down".to_string()]);
    assert_eq!(
        key_combo_script("Ctrl+Shift+TAB").unwrap(),
        "tell application \"System Events\" to key code 48 using {control down, shift down}"
    );
}

#[test]
fn plain_text_is_quoted_unchanged() {
    let lines = explain_empty_windows(&vec![], &WindowFilter { bundle_id: Some("com.x.Y-1".to_string()), ..Default::default() });
    assert!(lines.contains("\"com.x.Y-1\""), "{lines}");
}

// ───────────────────────── screenshots ─────────────────────────

#[test]
fn bgra_pixels_become_rgba() {
    let raw = [1u8, 2, 3, 4, 9, 9, 9, 9];
    assert_eq!(bgra_to_rgba(&raw, 1, 2, 4, 32).unwrap(), vec![3, 2, 1, 4, 9, 9, 9, 9]);
    // A row that the source does not reach stays transparent black.
    assert_eq!(bgra_to_rgba(&raw, 1, 3, 4, 32).unwrap()[8..], [0, 0, 0, 0]);
    assert_eq!(
        bgra_to_rgba(&raw, 1, 2, 4, 24).unwrap_err().message(),
        "screenshot failed: unexpected bits_per_pixel: 24 (expected 32)"
    );
}

#[test]
fn screenshot_encodes_png() {
    let raw = [10u8, 20, 30, 255, 40, 50, 60, 255];
    let png = cgimage_to_png(&raw, 2, 1, 8, 32).unwrap();
    assert_eq!(&png[..8], &[0x89, b'P', b'N', b'G', 0x0d, 0x0a, 0x1a, 0x0a]);
    assert_ne!(png, raw.to_vec());
    match png_outcome(Err("boom".to_string())) {
        Err(LokiError::ScreenshotFailed(m)) => assert_eq!(m, "PNG encoding failed: boom"),
        other => panic!("unexpected {other:?}"),
    }
}

#[test]
fn screenshot_encoder_refusal_is_reported() {
    // The PNG encoder refuses an image of zero width.
    match cgimage_to_png(&[], 0, 1, 0, 32) {
        Err(LokiError::ScreenshotFailed(m)) => assert!(m.starts_with("PNG encoding failed: "), "{m}"),
        other => panic!("unexpected {other:?}"),
    }
}

#[test]
fn plain_title_matches_as_substring_and_empty_title_only_empty() {
    let f = WindowFilter { title: Some("Ash-MD".to_string()), ..Default::default() };
    assert!(f.matches_title("ash-md — README.md"));
    assert!(f.matches_title("x ASH-MD y"));
    assert!(!f.matches_title("ash md"));
    let e = WindowFilter { title: Some(String::new()), ..Default::default() };
    assert!(e.matches_title(""));
    assert!(!e.matches_title("anything"));
    assert!(glob_matches("", ""));
    assert!(!glob_matches("", "a"));
}

#[test]
fn command_flags_build_queries_timeouts_and_filters() {
    let q = element_query(
        &Some("button".to_string()),
        &Some("OK".to_string()),
        &Some("Projects".to_string()),
        &Some("ok-id".to_string()),
        Some(2),
    );
    assert_eq!(q.role.as_deref(), Some("button"));
    assert_eq!(q.title.as_deref(), Some("OK"));
    assert_eq!(q.label.as_deref(), Some("*Projects*"));
    assert_eq!(q.identifier.as_deref(), Some("ok-id"));
    assert_eq!(q.index, Some(2));
    assert!(q.value.is_none() && q.description.is_none() && q.max_depth.is_none());
    let bare = element_query(&None, &None, &Some("a*".to_string()), &None, None);
    assert_eq!(bare.label.as_deref(), Some("a*"));
    assert_eq!(wait_timeout(Some(250), 5000), 250);
    assert_eq!(wait_timeout(None, 5000), 5000);
    let f = wait_window_filter(&Some("Doc".to_string()), &None);
    assert_eq!(f.title.as_deref(), Some("Doc"));
    assert!(f.bundle_id.is_none() && f.pid.is_none() && f.include_unnamed);
}

// ───────────────────────── processes ─────────────────────────

#[test]
fn launch_and_kill_arguments() {
    let args = vec!["--flag".to_string()];
    assert_eq!(
        launch_arguments(&AppTarget::BundleId("com.x".to_string()), &args).unwrap(),
        vec!["-b", "com.x", "--args", "--flag"]
    );
    assert_eq!(launch_arguments(&AppTarget::Path("/A.app".to_string()), &vec![]).unwrap(), vec!["/A.app"]);
    assert!(launch_arguments(&AppTarget::Pid(3), &vec![]).unwrap_err().message().contains("cannot launch by PID"));
    assert_eq!(kill_arguments(12, true), vec!["-KILL", "12"]);
    assert_eq!(kill_arguments(12, false), vec!["-TERM", "12"]);
    assert_eq!(launch_failure("  nope \n").message(), "launch failed: nope");
}

#[test]
fn tool_output_parsing() {
    assert_eq!(pids_from_lsappinfo("\"pid\"=123\n\"pid\" = 0\nnoise\n\"pid\"=\"45\""), vec![123, 45]);
    assert_eq!(bundle_id_from_lsappinfo("\"bundleid\"=\"com.apple.Finder\"").unwrap(), "com.apple.Finder");
    assert!(window_bundle_id_from_lsappinfo("\"bundleid\"=[ NULL ]").is_none());
    assert_eq!(process_name_from_ps("/Applications/Foo.app/Contents/MacOS/Foo\n").unwrap(), "Foo");
    assert!(bundle_id_from_mdls("(null)").is_none());
    assert_eq!(bundle_id_from_mdls(" com.x.y \n").unwrap(), "com.x.y");
    assert!(is_front_application("\"StatusLabel\"={ \"label\"=\"LSFrontApplication\" }"));
    assert!(!is_front_application(""));
}

#[test]
fn app_info_from_lookups() {
    let info = get_app_info(&AppTarget::Pid(9), &[9, 10], None, Some("com.z".to_string()), true).unwrap();
    assert_eq!(info.name, "pid:9");
    assert_eq!(info.bundle_id.as_deref(), Some("com.z"));
    assert!(get_app_info(&AppTarget::BundleId("b".to_string()), &[], None, None, false)
        .unwrap_err()
        .message()
        .starts_with("app not found: "));
    let text = format_app_info_text(&AppInfo { pid: 3, bundle_id: None, name: "Calc".to_string(), is_active: false });
    assert_eq!(text, "PID:       3\nName:      Calc\nActive:    no");
}

// ───────────────────────── tree walking and small helpers ─────────────────────────

#[test]
fn tree_walk_helpers() {
    assert!(descends(None, 100));
    assert!(descends(Some(2), 1));
    assert!(!descends(Some(2), 2));
    assert_eq!(child_path(&vec![0, 3], 1), vec![0, 3, 1]);
    assert_eq!(role_or_unknown(None), "AXUnknown");
    assert_eq!(role_or_unknown(Some("AXRow".to_string())), "AXRow");
}

#[test]
fn wrappers_compute_rather_than_echo() {
    // Roles compare after Unicode lowercasing.
    assert!(role_matches("ÉCRAN", "AXécran"));
    // Debug quoting escapes the quotes inside a pattern it reports.
    let w = WindowRef { window_id: 1, pid: 1 };
    let q = ElementQuery { role: Some("a\"b".to_string()), ..Default::default() };
    assert!(explain_empty_find(&vec![], &w, &q).starts_with("no element matched role \"a\\\"b\"\n"));
    assert!(glob_matches("a?c", "ABC"));
    assert_eq!(i32_to_decimal(-42), "-42");
    assert_eq!(frame_text("1", "2", "3", "4"), "(1x2 at 3,4)");
    assert_eq!(default_timeout(), 5000);
    assert_eq!(permission_text(false, true), "Accessibility permission prompt opened. Grant access and re-run.");
}

// ───────────────────────── menus ─────────────────────────

fn titles(ts: &[Option<&str>]) -> Vec<Option<String>> {
    ts.iter().map(|t| t.map(|s| s.to_string())).collect()
}

#[test]
fn menu_level_matches_exact_first_then_loosely() {
    let items = titles(&[Some("Save As…"), Some("Save"), None, Some("Export...")]);
    assert_eq!(loki::menu::menu_item_index(&items, "Save"), Some(1));
    assert_eq!(loki::menu::menu_item_index(&items, "Save As"), Some(0));
    assert_eq!(loki::menu::menu_item_index(&items, "save as…"), Some(0));
    assert_eq!(loki::menu::menu_item_index(&items, "EXPORT"), Some(3));
    assert_eq!(loki::menu::menu_item_index(&items, "Ex*"), Some(3));
    assert_eq!(loki::menu::menu_item_index(&items, "Print"), None);
    assert_eq!(
        loki::menu::menu_item_missing("Print", &items).message(),
        "element not found: no menu item matches 'Print' — available: Save As…, Save, Export..."
    );
}

#[test]
fn menu_walk_never_presses_a_leaf() {
    assert!(!loki::menu::open_to_populate(false, true));
    assert!(!loki::menu::open_to_populate(true, false));
    assert!(loki::menu::open_to_populate(true, true));
}

#[test]
fn menu_state_text_shows_marks_and_suffixes() {
    let item = |title: &str, mark: Option<&str>, enabled: bool, sub: bool| MenuItem {
        title: title.to_string(),
        mark: mark.map(|m| m.to_string()),
        enabled,
        has_submenu: sub,
    };
    let children = vec![
        item("Light", Some("✓"), true, false),
        item("", None, true, false),
        item("Dark", None, true, false),
        item("System", Some(""), false, false),
    ];
    let state = MenuState {
        item: item("Theme", None, true, true),
        children: loki::menu::without_separators(&children),
    };
    assert_eq!(
        loki::menu::menu_state_text(&state),
        "Theme (submenu)\n  ✓ Light\n    Dark\n    System (disabled)"
    );
}

#[test]
fn ambiguous_click_lists_candidates() {
    let e = loki::cli::ambiguous_click(2, 1573, "AXButton \"Cancel\"\nAXButton \"Save\"");
    assert_eq!(e.exit_code(), 1);
    assert_eq!(
        e.message(),
        "input error: ambiguous match: 2 clickable elements match in window 1573 — narrow with --role, --title or --id, or pin --label with a glob:\nAXButton \"Cancel\"\nAXButton \"Save\""
    );
}

#[test]
fn wait_steps() {
    assert_eq!(wait_step(true, 10_000, 100), WaitAction::Finish);
    assert_eq!(wait_step(false, 100, 100), WaitAction::GiveUp);
    assert_eq!(wait_step(false, 99, 100), WaitAction::Retry);
}

#[test]
fn target_lookup_without_flags_is_focused() {
    assert_eq!(target_lookup(None, None, &None), TargetLookup::Focused);
    assert_eq!(
        target_lookup(None, None, &Some("com.x".to_string())),
        TargetLookup::Bundle("com.x".to_string())
    );
}

#[test]
fn small_helpers_for_the_walks() {
    assert_eq!(
        loki::input::activate_script(321),
        "tell application \"System Events\" to set frontmost of (first process whose unix id is 321) to true"
    );
    let roles = titles(&[Some("AXMenuItem"), None, Some("AXMenu"), Some("AXMenu")]);
    assert_eq!(loki::menu::submenu_index(&roles), Some(2));
    assert_eq!(loki::menu::submenu_index(&titles(&[Some("AXButton")])), None);
    let marked = MenuItem { title: "A".to_string(), mark: Some("•".to_string()), enabled: true, has_submenu: false };
    let unmarked = MenuItem { title: "B".to_string(), mark: Some(String::new()), enabled: true, has_submenu: false };
    assert!(loki::menu::marked(&marked));
    assert!(!loki::menu::marked(&unmarked));
    let all = vec![window(4, 1, "Draft", None, true), window(5, 1, "Saved — notes.txt", None, true)];
    assert_eq!(loki::targets::window_title_of(&all, 5), "Saved — notes.txt");
    assert_eq!(loki::targets::window_title_of(&all, 6), "");
    let f = WindowFilter { title: Some("*.txt".to_string()), ..Default::default() };
    assert_eq!(loki::targets::window_if_titled(&all, 5, &f).unwrap().window_id, 5);
    assert!(loki::targets::window_if_titled(&all, 4, &f).is_none());
}

#[test]
fn window_title_commands_agree() {
    let all = vec![
        window(1, 1, "Inbox — Mail", None, true),
        window(2, 1, "", None, true),
        window(3, 2, "mail drafts", None, true),
    ];
    let f = WindowFilter { title: Some("mail".to_string()), include_unnamed: true, ..Default::default() };
    let listed: Vec<u32> = select_windows(&all, &f).iter().map(|w| w.window_id).collect();
    let titled: Vec<u32> = all.iter().filter(|w| f.matches_title(&w.title)).map(|w| w.window_id).collect();
    assert_eq!(listed, titled);
    assert_eq!(window_by_title("mail", &all).unwrap(), listed[0]);
}

#[test]
fn explained_lists_are_sorted_without_repeats() {
    let w = WindowRef { window_id: 1, pid: 2 };
    let all = vec![
        element("AXTextField", Some("Name")),
        element("AXCell", Some("Name")),
        element("AXTextField", Some("Name")),
    ];
    let q = ElementQuery { role: Some("button".to_string()), title: Some("Name".to_string()), ..Default::default() };
    assert!(explain_empty_find(&all, &w, &q).ends_with("they are: AXCell, AXTextField"));
}
