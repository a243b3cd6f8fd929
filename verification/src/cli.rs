//! The decisions and diagnostics of the command line: label wrapping, menu
//! paths, scroll deltas, target resolution, the targeting hint, and the
//! explanations printed when a search comes back empty.
use vstd::prelude::*;

use crate::driver::first_window;
use crate::element::WindowInfo;
use crate::error::LokiError;
use crate::output::OutputFormat;
use crate::query::{auto_wrap, auto_wrap_pattern, ElementQuery, WindowFilter};
use crate::text::{
    concat3, parse_i32, parse_i32_spec, split_once_char, split_once_str, split_pieces, split_str, trim, trim_str, u64_to_decimal, decimal,
};

verus! {

/// Wrap a bare `--label` pattern with substring globs so that `"Projects"` matches
/// any text field containing "Projects". Window `--title` filters get the same
/// treatment inside `WindowFilter::matches_title`.
pub fn auto_wrap_label(s: &str) -> (r: String)
    ensures
        r@ == auto_wrap(s@),
{
    auto_wrap_pattern(s)
}

/// The element query a search or wait command builds from its flags: the
/// role, title and identifier as given, the label wrapped for substring
/// matching, the index for `find`, and no other criterion or depth limit.
pub fn element_query(
    role: &Option<String>,
    title: &Option<String>,
    label: &Option<String>,
    id: &Option<String>,
    index: Option<usize>,
) -> (r: ElementQuery)
    ensures
        r.role == *role,
        r.title == *title,
        match *label {
            Some(l) => r.label matches Some(w) && w@ == auto_wrap(l@),
            None => r.label is None,
        },
        r.identifier == *id,
        r.value is None,
        r.description is None,
        r.index == index,
        r.max_depth is None,
{
    let wrapped = match label {
        Some(l) => Some(auto_wrap_label(l.as_str())),
        None => None,
    };
    ElementQuery {
        role: role.clone(),
        title: title.clone(),
        label: wrapped,
        identifier: id.clone(),
        value: None,
        description: None,
        index,
        max_depth: None,
    }
}

/// The timeout a wait command runs with: its own `--timeout` when given,
/// otherwise the global one.
pub fn wait_timeout(requested: Option<u64>, global_ms: u64) -> (r: u64)
    ensures
        r == match requested {
            Some(t) => t,
            None => global_ms,
        },
{
    match requested {
        Some(t) => t,
        None => global_ms,
    }
}

/// The filter `wait-window` polls with: its title and bundle ID, any PID, and
/// untitled windows included, so that it looks through the same windows as
/// `screenshot --window`.
pub fn wait_window_filter(title: &Option<String>, bundle_id: &Option<String>) -> (r: WindowFilter)
    ensures
        r.title == *title,
        r.bundle_id == *bundle_id,
        r.pid is None,
        r.include_unnamed,
{
    WindowFilter { title: title.clone(), bundle_id: bundle_id.clone(), pid: None, include_unnamed: true }
}

// ───────────────────────── menu paths ─────────────────────────

/// The trimmed, non-empty pieces among the first `k` of `pieces`.
pub open spec fn nonempty_trimmed(pieces: Seq<Seq<char>>, k: int) -> Seq<Seq<char>>
    decreases k,
{
    if k <= 0 || k > pieces.len() {
        Seq::empty()
    } else if trim(pieces[k - 1]).len() > 0 {
        nonempty_trimmed(pieces, k - 1).push(trim(pieces[k - 1]))
    } else {
        nonempty_trimmed(pieces, k - 1)
    }
}

/// The levels of a menu path: the pieces between separators, trimmed, with
/// empty ones dropped.
pub open spec fn menu_levels(path: Seq<char>, separator: Seq<char>) -> Seq<Seq<char>> {
    let pieces = split_pieces(path, separator);
    nonempty_trimmed(pieces, pieces.len() as int)
}

/// Split a menu path like `"View>Theme"` into its levels.
pub fn split_menu_path(path: &str, separator: &str) -> (r: Result<Vec<String>, LokiError>)
    ensures
        match r {
            Ok(v) => menu_levels(path@, separator@).len() > 0 && crate::text::views(v@) == menu_levels(
                path@,
                separator@,
            ),
            Err(e) => menu_levels(path@, separator@).len() == 0 && (e matches LokiError::InputError(m)
                && m@ == "empty menu path '"@ + path@ + "'"@),
        },
{
    let pieces = split_str(path, separator);
    let ghost ps = split_pieces(path@, separator@);
    let mut segments: Vec<String> = Vec::new();
    let mut i: usize = 0;
    while i < pieces.len()
        invariant
            i <= pieces@.len(),
            pieces@.len() == ps.len(),
            ps == split_pieces(path@, separator@),
            forall|k: int| 0 <= k < pieces@.len() ==> #[trigger] pieces@[k]@ == ps[k],
            crate::text::views(segments@) == nonempty_trimmed(ps, i as int),
        decreases pieces@.len() - i,
    {
        let t = trim_str(pieces[i].as_str());
        if !t.as_str().is_empty() {
            segments.push(t);
            proof {
                assert(crate::text::views(segments@) =~= crate::text::views(segments@.drop_last()).push(
                    trim(ps[i as int]),
                ));
            }
        }
        i += 1;
    }
    if segments.len() == 0 {
        return Err(LokiError::InputError(concat3("empty menu path '", path, "'")));
    }
    Ok(segments)
}

// ───────────────────────── scroll deltas ─────────────────────────

/// The message a malformed scroll delta is refused with.
pub open spec fn bad_delta_message(delta: Seq<char>) -> Seq<char> {
    "invalid scroll delta '"@ + delta
        + "' — expected dX,dY in pixels, e.g. '0,300' to scroll down"@
}

/// A `dX,dY` pair: split at the first comma, each side trimmed and read as an `i32`.
pub open spec fn wheel_delta_of(delta: Seq<char>) -> Option<(i32, i32)> {
    match split_once_char(delta, ',') {
        Some((a, b)) => match (parse_i32_spec(trim(a)), parse_i32_spec(trim(b))) {
            (Some(dx), Some(dy)) => Some((dx, dy)),
            _ => None,
        },
        None => None,
    }
}

/// Parse a `dX,dY` scroll delta in pixels.
///
/// The pair is required rather than inferred from a bare number: `wheel 640 400
/// 300` has no honest reading — horizontal and vertical are equally plausible —
/// and guessing vertical would scroll the wrong axis silently.
pub fn parse_wheel_delta(delta: &str) -> (r: Result<(i32, i32), LokiError>)
    ensures
        match wheel_delta_of(delta@) {
            Some(p) => r == Ok::<(i32, i32), LokiError>(p),
            None => r matches Err(LokiError::InputError(m)) && m@ == bad_delta_message(delta@),
        },
{
    let parsed = match split_once_str(delta, ',') {
        Some((a, b)) => {
            let ta = trim_str(a.as_str());
            let tb = trim_str(b.as_str());
            match (parse_i32(ta.as_str()), parse_i32(tb.as_str())) {
                (Some(dx), Some(dy)) => Some((dx, dy)),
                _ => None,
            }
        },
        None => None,
    };
    match parsed {
        Some(p) => Ok(p),
        None => Err(
            LokiError::InputError(
                concat3(
                    "invalid scroll delta '",
                    delta,
                    "' — expected dX,dY in pixels, e.g. '0,300' to scroll down",
                ),
            ),
        ),
    }
}

// ───────────────────────── targets ─────────────────────────

/// The target `app-info` looks up: `--pid` first, then `--bundle-id`, then the
/// positional target.
pub fn app_info_target(target: &Option<String>, pid: Option<u32>, bundle_id: &Option<String>) -> (r:
    Result<String, LokiError>)
    ensures
        match (pid, bundle_id, target) {
            (Some(p), _, _) => r matches Ok(s) && s@ == decimal(p as nat),
            (None, Some(b), _) => r matches Ok(s) && s@ == b@,
            (None, None, Some(t)) => r matches Ok(s) && s@ == t@,
            (None, None, None) => r matches Err(LokiError::InputError(m)) && m@
                == "specify a target, --pid, or --bundle-id"@,
        },
{
    if let Some(p) = pid {
        Ok(u64_to_decimal(p as u64))
    } else if let Some(b) = bundle_id {
        Ok(b.clone())
    } else if let Some(t) = target {
        Ok(t.clone())
    } else {
        Err(LokiError::InputError(String::from_str("specify a target, --pid, or --bundle-id")))
    }
}

// ───────────────────────── empty results ─────────────────────────

/// What a listing command lists.
#[derive(Debug, Clone, Copy, PartialEq, Eq, Structural)]
pub enum Listing {
    Windows,
    Elements,
}

/// What a listing command answers when its listing came back empty, given the
/// explanation `detail`: with `--require-match`, the not-found error carrying
/// it; otherwise, as text, `No windows found: …` / `No elements found: …`; as
/// JSON, `None` — the empty listing itself is printed, so `jq length` polls
/// keep working.
pub fn empty_listing_outcome(
    listing: Listing,
    require_match: bool,
    format: OutputFormat,
    detail: String,
) -> (r: Option<Result<String, LokiError>>)
    ensures
        require_match ==> match listing {
            Listing::Windows => r matches Some(Err(LokiError::WindowNotFound(m))) && m@ == detail@,
            Listing::Elements => r matches Some(Err(LokiError::ElementNotFound(m))) && m@ == detail@,
        },
        !require_match && format == OutputFormat::Text ==> match listing {
            Listing::Windows => r matches Some(Ok(t)) && t@ == "No windows found: "@ + detail@,
            Listing::Elements => r matches Some(Ok(t)) && t@ == "No elements found: "@ + detail@,
        },
        !require_match && format == OutputFormat::Json ==> r is None,
{
    if require_match {
        return match listing {
            Listing::Windows => Some(Err(LokiError::WindowNotFound(detail))),
            Listing::Elements => Some(Err(LokiError::ElementNotFound(detail))),
        };
    }
    match format {
        OutputFormat::Text => {
            let mut t = match listing {
                Listing::Windows => own_str("No windows found: "),
                Listing::Elements => own_str("No elements found: "),
            };
            t.append(detail.as_str());
            Some(Ok(t))
        },
        OutputFormat::Json => None,
    }
}

fn own_str(s: &str) -> (r: String)
    ensures
        r@ == s@,
{
    crate::text::own(s)
}

/// The text answer of the permission commands: `granted` says whether the
/// accessibility permission is held; `requested` whether the user was just
/// asked for it.
pub fn permission_text(granted: bool, requested: bool) -> (r: String)
    ensures
        granted ==> r@ == "Accessibility permission: granted"@,
        !granted && !requested ==> r@
            == "Accessibility permission: denied\nGrant access in System Settings > Privacy & Security > Accessibility"@,
        !granted && requested ==> r@ == "Accessibility permission prompt opened. Grant access and re-run."@,
{
    if granted {
        own_str("Accessibility permission: granted")
    } else if requested {
        own_str("Accessibility permission prompt opened. Grant access and re-run.")
    } else {
        own_str(
            "Accessibility permission: denied\nGrant access in System Settings > Privacy & Security > Accessibility",
        )
    }
}

/// How a click is described after its coordinates: ` (double)`, ` (right)` or
/// nothing; a double click wins over a right one.
pub fn click_suffix(double: bool, right: bool) -> (r: &'static str)
    ensures
        double ==> r@ == " (double)"@,
        !double && right ==> r@ == " (right)"@,
        !double && !right ==> r@.len() == 0,
{
    proof {
        reveal_strlit("");
    }
    if double {
        " (double)"
    } else if right {
        " (right)"
    } else {
        ""
    }
}

// ───────────────────────── windows named by title ─────────────────────────

/// The windows of `ws` whose title matches the pattern `t` as `--title`
/// matches, untitled windows included, in listing order.
pub open spec fn titled_like(ws: Seq<WindowInfo>, t: Seq<char>) -> Seq<WindowInfo>
    decreases ws.len(),
{
    if ws.len() == 0 {
        Seq::empty()
    } else {
        let rest = titled_like(ws.drop_last(), t);
        if crate::query::glob_match(auto_wrap(t), ws.last().title@) {
            rest.push(ws.last())
        } else {
            rest
        }
    }
}

/// The ID of the first window of the system list `windows` whose title
/// matches `title` (as `--title` matches, untitled windows included), or the
/// not-found error.
pub fn window_by_title(title: &str, windows: &Vec<WindowInfo>) -> (r: Result<u32, LokiError>)
    ensures
        ({
            let ps = titled_like(windows@, title@);
            if ps.len() > 0 {
                r == Ok::<u32, LokiError>(ps[0].window_id)
            } else {
                r matches Err(LokiError::WindowNotFound(m)) && m@ == "no window matching title '"@ + title@
                    + "'"@
            }
        }),
{
    let filter = WindowFilter {
        title: Some(own_str(title)),
        bundle_id: None,
        pid: None,
        include_unnamed: true,
    };
    proof {
        crate::laws::law_window_title_matching_is_shared(windows@, filter);
    }
    match first_window(windows, &filter) {
        Some(w) => Ok(w.window_id),
        None => Err(LokiError::WindowNotFound(concat3("no window matching title '", title, "'"))),
    }
}

// ───────────────────────── the app a menu belongs to ─────────────────────────

/// The PID whose menu bar to walk when no targeting flag named one: the
/// frontmost app's, or the error saying that there is none.
pub fn frontmost_or_error(frontmost: Option<u32>) -> (r: Result<i32, LokiError>)
    ensures
        match frontmost {
            Some(p) => r == Ok::<i32, LokiError>(p as i32),
            None => r matches Err(LokiError::AppNotFound(m)) && m@
                == "no frontmost app — specify --pid, --bundle-id, or --window"@,
        },
{
    match frontmost {
        Some(p) => Ok(p as i32),
        None => Err(LokiError::AppNotFound(own_str("no frontmost app — specify --pid, --bundle-id, or --window"))),
    }
}

// ───────────────────────── clicking an element ─────────────────────────

/// The refusal when several actionable elements match a click: how many, in
/// which window, how to narrow the query, and the candidates as `find` lists
/// them (`listing`).
pub fn ambiguous_click(count: usize, window_id: u32, listing: &str) -> (r: LokiError)
    ensures
        r matches LokiError::InputError(m) && m@ == "ambiguous match: "@ + decimal(count as nat)
            + " clickable elements match in window "@ + decimal(window_id as nat)
            + " — narrow with --role, --title or --id, or pin --label with a glob:\n"@ + listing@,
{
    let mut m = own_str("ambiguous match: ");
    m.append(crate::text::usize_to_decimal(count).as_str());
    m.append(" clickable elements match in window ");
    m.append(crate::text::usize_to_decimal(window_id as usize).as_str());
    m.append(" — narrow with --role, --title or --id, or pin --label with a glob:\n");
    m.append(listing);
    LokiError::InputError(m)
}

} // verus!
