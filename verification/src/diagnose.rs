//! Explanations printed when a search comes back empty or a wait runs out:
//! what was actually searched, and which relaxation of the query would have hit.
//!
//! Each explanation is a function of the listing it is measured against (the
//! unfiltered window list, or the unfiltered element list of a window) and of
//! the query; the caller fetches the listing.
use vstd::prelude::*;

use crate::element::{AXElement, WindowInfo, WindowRef};
use crate::error::LokiError;
use crate::query::{
    auto_wrap, empty_query, query_matches, title_passes, window_passes, ElementQuery, WindowFilter,
};
use crate::text::{
    contains_seq, debug_quote, debug_quoted, decimal, insert_sorted_unique, join, join_strings,
    lemma_sorted_of, own, sorted_of, str_contains, strictly_sorted, to_lowercase, trim_char,
    trim_char_str, unicode_lowercase, usize_to_decimal, views,
};

verus! {

// ───────────────────────── shared pieces ─────────────────────────

/// The first `n` items of `s`, or all of them when there are fewer.
pub open spec fn at_most<A>(s: Seq<A>, n: int) -> Seq<A> {
    if s.len() <= n {
        s
    } else {
        s.take(n)
    }
}

/// The criteria joined with `" + "`, or `fallback` when there are none.
pub open spec fn described(parts: Seq<Seq<char>>, fallback: Seq<char>) -> Seq<char> {
    if parts.len() == 0 {
        fallback
    } else {
        join(parts, " + "@)
    }
}

fn describe(parts: &Vec<String>, fallback: &str) -> (r: String)
    ensures
        r@ == described(views(parts@), fallback@),
{
    if parts.len() == 0 {
        own(fallback)
    } else {
        join_strings(parts, " + ")
    }
}

/// `prefix` followed by `s` in debug quotes.
fn labelled_quote(prefix: &str, s: &str) -> (r: String)
    ensures
        r@ == prefix@ + debug_quoted(s@),
{
    let mut r = own(prefix);
    let q = debug_quote(s);
    r.append(q.as_str());
    r
}

/// The window criteria a diagnostic names: the glob actually matched against
/// titles, the bundle ID and, when `with_pid`, the PID.
pub open spec fn window_wanted(f: WindowFilter, with_pid: bool) -> Seq<Seq<char>> {
    let a = match f.title {
        Some(t) => seq!["title glob "@ + debug_quoted(auto_wrap(t@))],
        None => Seq::empty(),
    };
    let b = match f.bundle_id {
        Some(id) => a.push("bundle-id "@ + debug_quoted(id@)),
        None => a,
    };
    match f.pid {
        Some(p) => if with_pid {
            b.push("pid "@ + decimal(p as nat))
        } else {
            b
        },
        None => b,
    }
}

fn window_wanted_exec(f: &WindowFilter, with_pid: bool) -> (r: Vec<String>)
    ensures
        views(r@) == window_wanted(*f, with_pid),
{
    let mut parts: Vec<String> = Vec::new();
    if let Some(p) = f.effective_title_pattern() {
        parts.push(labelled_quote("title glob ", p.as_str()));
    }
    if let Some(id) = &f.bundle_id {
        parts.push(labelled_quote("bundle-id ", id.as_str()));
    }
    if with_pid {
        if let Some(p) = f.pid {
            let mut s = own("pid ");
            let d = usize_to_decimal(p as usize);
            s.append(d.as_str());
            parts.push(s);
        }
    }
    proof {
        assert(views(parts@) =~= window_wanted(*f, with_pid));
    }
    parts
}

// ───────────────────────── counting windows ─────────────────────────

/// How many of `ws` have a non-empty title.
pub open spec fn titled_count(ws: Seq<WindowInfo>) -> nat
    decreases ws.len(),
{
    if ws.len() == 0 {
        0
    } else {
        titled_count(ws.drop_last()) + if ws.last().title@.len() > 0 {
            1nat
        } else {
            0nat
        }
    }
}

/// How many of `ws` belong to the bundle ID `id`, compared ignoring ASCII case.
pub open spec fn bundle_count(ws: Seq<WindowInfo>, id: Seq<char>) -> nat
    decreases ws.len(),
{
    if ws.len() == 0 {
        0
    } else {
        bundle_count(ws.drop_last(), id) + if (ws.last().bundle_id matches Some(b)
            && crate::text::ascii_lower(b@) == crate::text::ascii_lower(id)) {
            1nat
        } else {
            0nat
        }
    }
}

fn count_titled(ws: &Vec<WindowInfo>) -> (r: usize)
    ensures
        r == titled_count(ws@),
        r <= ws@.len(),
{
    let mut n: usize = 0;
    let mut i: usize = 0;
    while i < ws.len()
        invariant
            i <= ws@.len(),
            n <= i,
            n == titled_count(ws@.take(i as int)),
        decreases ws@.len() - i,
    {
        proof {
            assert(ws@.take(i + 1).drop_last() =~= ws@.take(i as int));
        }
        if !ws[i].title.as_str().is_empty() {
            n += 1;
        }
        i += 1;
    }
    proof {
        assert(ws@.take(i as int) =~= ws@);
    }
    n
}

fn count_bundle(ws: &Vec<WindowInfo>, id: &str) -> (r: usize)
    ensures
        r == bundle_count(ws@, id@),
{
    let mut n: usize = 0;
    let mut i: usize = 0;
    while i < ws.len()
        invariant
            i <= ws@.len(),
            n <= i,
            n == bundle_count(ws@.take(i as int), id@),
        decreases ws@.len() - i,
    {
        proof {
            assert(ws@.take(i + 1).drop_last() =~= ws@.take(i as int));
        }
        if let Some(b) = &ws[i].bundle_id {
            if crate::text::eq_ignore_ascii_case(b.as_str(), id) {
                n += 1;
            }
        }
        i += 1;
    }
    proof {
        assert(ws@.take(i as int) =~= ws@);
    }
    n
}

// ───────────────────────── a wait for a window that ran out ─────────────────────────

/// The debug-quoted titles, in listing order, of the titled windows whose
/// lowercased title contains `lowered`.
pub open spec fn titles_containing(ws: Seq<WindowInfo>, lowered: Seq<char>) -> Seq<Seq<char>>
    decreases ws.len(),
{
    if ws.len() == 0 {
        Seq::empty()
    } else {
        let rest = titles_containing(ws.drop_last(), lowered);
        let t = ws.last().title@;
        if t.len() > 0 && contains_seq(unicode_lowercase(t), lowered) {
            rest.push(debug_quoted(t))
        } else {
            rest
        }
    }
}

/// The closing hint of a window wait that ran out.
pub open spec fn wait_hint() -> Seq<char> {
    "  hint: a freshly built or newly copied .app can take 15s+ to open its first window (macOS scans a new binary on first launch) — retry with a longer --timeout"@
}

/// The lines explaining a window wait that ran out, measured against the
/// window list `ws` as it stood (untitled windows included).
pub open spec fn wait_lines(ws: Seq<WindowInfo>, f: WindowFilter) -> Seq<Seq<char>> {
    let head = seq![
        "waiting for "@ + described(window_wanted(f, false), "any window"@),
        "  seen: "@ + decimal(ws.len()) + " windows ("@ + decimal(titled_count(ws))
            + " titled)"@,
    ];
    let with_bundle = match f.bundle_id {
        Some(id) => head.push(
            "  "@ + decimal(bundle_count(ws, id@)) + " of them belong to "@ + debug_quoted(id@),
        ),
        None => head,
    };
    let with_near = match f.title {
        Some(raw) => {
            let needle = trim_char(raw@, '*');
            let near = at_most(titles_containing(ws, unicode_lowercase(needle)), 3);
            if near.len() > 0 {
                with_bundle.push(
                    "  near-miss (contains "@ + debug_quoted(needle)
                        + " but the glob above did not match): "@ + join(near, ", "@),
                )
            } else {
                with_bundle
            }
        },
        None => with_bundle,
    };
    with_near.push(wait_hint())
}

fn near_titles(ws: &Vec<WindowInfo>, lowered: &str) -> (r: Vec<String>)
    ensures
        views(r@) == titles_containing(ws@, lowered@),
{
    let mut near: Vec<String> = Vec::new();
    let mut i: usize = 0;
    while i < ws.len()
        invariant
            i <= ws@.len(),
            views(near@) == titles_containing(ws@.take(i as int), lowered@),
        decreases ws@.len() - i,
    {
        proof {
            assert(ws@.take(i + 1).drop_last() =~= ws@.take(i as int));
        }
        let t = ws[i].title.as_str();
        if !t.is_empty() {
            let lt = to_lowercase(t);
            if str_contains(lt.as_str(), lowered) {
                near.push(debug_quote(t));
                proof {
                    assert(views(near@) =~= views(near@.drop_last()).push(near@.last()@));
                }
            }
        }
        i += 1;
    }
    proof {
        assert(ws@.take(i as int) =~= ws@);
    }
    near
}

/// Turn a `wait-window` timeout into something diagnosable: the glob actually
/// matched against, the window list as it stood when time ran out, any loose
/// near-miss, and the launch-latency trap that is the usual cause (a freshly
/// built `.app` can take well over 10s to show its window).
///
/// `all` is the window list as it stood, untitled windows included.
pub fn explain_wait_window_timeout(all: &Vec<WindowInfo>, filter: &WindowFilter, timeout_ms: u64) -> (r:
    LokiError)
    ensures
        r matches LokiError::TimeoutDetail { timeout_ms: t, detail: d } && t == timeout_ms && d@
            == join(wait_lines(all@, *filter), "\n"@),
{
    let titled = count_titled(all);
    let wanted = window_wanted_exec(filter, false);
    let mut lines: Vec<String> = Vec::new();
    let mut l0 = own("waiting for ");
    l0.append(describe(&wanted, "any window").as_str());
    lines.push(l0);
    let mut l1 = own("  seen: ");
    l1.append(usize_to_decimal(all.len()).as_str());
    l1.append(" windows (");
    l1.append(usize_to_decimal(titled).as_str());
    l1.append(" titled)");
    lines.push(l1);
    proof {
        assert(views(lines@) =~= seq![
            "waiting for "@ + described(window_wanted(*filter, false), "any window"@),
            "  seen: "@ + decimal(all@.len()) + " windows ("@ + decimal(titled_count(all@))
                + " titled)"@,
        ]);
    }
    if let Some(id) = &filter.bundle_id {
        let n = count_bundle(all, id.as_str());
        let mut l = own("  ");
        l.append(usize_to_decimal(n).as_str());
        l.append(" of them belong to ");
        l.append(debug_quote(id.as_str()).as_str());
        lines.push(l);
    }
    if let Some(raw) = &filter.title {
        let needle = trim_char_str(raw.as_str(), '*');
        let lowered = to_lowercase(needle.as_str());
        let mut near = near_titles(all, lowered.as_str());
        let ghost full = views(near@);
        near.truncate(3);
        proof {
            assert(views(near@) =~= at_most(full, 3));
        }
        if near.len() > 0 {
            let mut l = own("  near-miss (contains ");
            l.append(debug_quote(needle.as_str()).as_str());
            l.append(" but the glob above did not match): ");
            l.append(join_strings(&near, ", ").as_str());
            lines.push(l);
        }
    }
    lines.push(
        own(
            "  hint: a freshly built or newly copied .app can take 15s+ to open its first window (macOS scans a new binary on first launch) — retry with a longer --timeout",
        ),
    );
    proof {
        assert(views(lines@) =~= wait_lines(all@, *filter));
    }
    LokiError::TimeoutDetail { timeout_ms, detail: join_strings(&lines, "\n") }
}

// ───────────────────────── an empty window listing ─────────────────────────

/// Appends `more` to `lines`.
fn push_all(lines: &mut Vec<String>, more: Vec<String>)
    ensures
        views(final(lines)@) == views(old(lines)@) + views(more@),
{
    let mut more = more;
    let ghost m = more@;
    lines.append(&mut more);
    proof {
        assert(views(lines@) =~= views(old(lines)@) + views(m));
    }
}

/// How many of `ws` pass the filter `f`.
pub open spec fn passing_count(ws: Seq<WindowInfo>, f: WindowFilter) -> nat
    decreases ws.len(),
{
    if ws.len() == 0 {
        0
    } else {
        passing_count(ws.drop_last(), f) + if window_passes(f, ws.last()) {
            1nat
        } else {
            0nat
        }
    }
}

fn count_passing(ws: &Vec<WindowInfo>, f: &WindowFilter) -> (r: usize)
    ensures
        r == passing_count(ws@, *f),
{
    let mut n: usize = 0;
    let mut i: usize = 0;
    while i < ws.len()
        invariant
            i <= ws@.len(),
            n <= i,
            n == passing_count(ws@.take(i as int), *f),
        decreases ws@.len() - i,
    {
        proof {
            assert(ws@.take(i + 1).drop_last() =~= ws@.take(i as int));
        }
        if f.matches(&ws[i]) {
            n += 1;
        }
        i += 1;
    }
    proof {
        assert(ws@.take(i as int) =~= ws@);
    }
    n
}

/// The filter with `include_unnamed` set.
pub open spec fn with_unnamed(f: WindowFilter) -> WindowFilter {
    WindowFilter { include_unnamed: true, ..f }
}

/// One candidate relaxation: when the flag was given and dropping it lets
/// windows through, its name and how many.
pub open spec fn relax_hit(
    ws: Seq<WindowInfo>,
    name: Seq<char>,
    given: bool,
    relaxed: WindowFilter,
    acc: Seq<(Seq<char>, nat)>,
) -> Seq<(Seq<char>, nat)> {
    if given && passing_count(ws, relaxed) > 0 {
        acc.push((name, passing_count(ws, relaxed)))
    } else {
        acc
    }
}

/// Each typed flag whose removal alone would let windows through, in the
/// order `--title`, `--bundle-id`, `--pid`, with the count it lets through.
pub open spec fn relax_hits(ws: Seq<WindowInfo>, f: WindowFilter) -> Seq<(Seq<char>, nat)> {
    let a = relax_hit(ws, "--title"@, f.title is Some, WindowFilter { title: None, ..f }, Seq::empty());
    let b = relax_hit(ws, "--bundle-id"@, f.bundle_id is Some, WindowFilter { bundle_id: None, ..f }, a);
    relax_hit(ws, "--pid"@, f.pid is Some, WindowFilter { pid: None, ..f }, b)
}

/// How many of the flags `--title`, `--bundle-id`, `--pid` were given.
pub open spec fn flags_given(f: WindowFilter) -> nat {
    (if f.title is Some { 1nat } else { 0nat }) + (if f.bundle_id is Some { 1nat } else { 0nat })
        + (if f.pid is Some { 1nat } else { 0nat })
}

/// `"dropping NAME matches N"` for each hit.
pub open spec fn hit_phrases(hits: Seq<(Seq<char>, nat)>) -> Seq<Seq<char>> {
    hits.map_values(|h: (Seq<char>, nat)| "dropping "@ + h.0 + " matches "@ + decimal(h.1))
}

/// The line naming the flag (or the combination of flags) doing the excluding.
pub open spec fn relaxation_lines(ws: Seq<WindowInfo>, f: WindowFilter) -> Seq<Seq<char>> {
    let hits = relax_hits(ws, f);
    if flags_given(f) > 1 && hits.len() == 1 {
        seq![
            "  dropping "@ + hits[0].0 + " would have matched "@ + decimal(hits[0].1)
                + " window(s) — that flag is the one excluding everything"@,
        ]
    } else if flags_given(f) > 1 && hits.len() > 1 {
        seq![
            "  no window satisfies all of them together, though each is satisfiable alone: "@
                + join(hit_phrases(hits), ", "@) + " — the flags are describing different windows"@,
        ]
    } else {
        Seq::empty()
    }
}

fn relaxation_lines_exec(ws: &Vec<WindowInfo>, f: &WindowFilter) -> (r: Vec<String>)
    ensures
        views(r@) == relaxation_lines(ws@, *f),
{
    let mut names: Vec<&'static str> = Vec::new();
    let mut counts: Vec<usize> = Vec::new();
    let mut given: usize = 0;
    let ghost mut hits: Seq<(Seq<char>, nat)> = Seq::empty();
    if f.title.is_some() {
        given += 1;
        let mut r = f.duplicate();
        r.title = None;
        let n = count_passing(ws, &r);
        if n > 0 {
            names.push("--title");
            counts.push(n);
        }
        proof {
            hits = relax_hit(ws@, "--title"@, true, r, hits);
        }
    }
    if f.bundle_id.is_some() {
        given += 1;
        let mut r = f.duplicate();
        r.bundle_id = None;
        let n = count_passing(ws, &r);
        if n > 0 {
            names.push("--bundle-id");
            counts.push(n);
        }
        proof {
            hits = relax_hit(ws@, "--bundle-id"@, true, r, hits);
        }
    }
    if f.pid.is_some() {
        given += 1;
        let mut r = f.duplicate();
        r.pid = None;
        let n = count_passing(ws, &r);
        if n > 0 {
            names.push("--pid");
            counts.push(n);
        }
        proof {
            hits = relax_hit(ws@, "--pid"@, true, r, hits);
        }
    }
    proof {
        assert(hits =~= relax_hits(ws@, *f));
        assert(given == flags_given(*f));
        assert(names@.len() == hits.len() && counts@.len() == hits.len());
        assert(forall|k: int| 0 <= k < hits.len() ==> #[trigger] names@[k]@ == hits[k].0 && counts@[k] == hits[k].1);
    }
    let mut out: Vec<String> = Vec::new();
    if given > 1 && names.len() == 1 {
        let mut l = own("  dropping ");
        l.append(names[0]);
        l.append(" would have matched ");
        l.append(usize_to_decimal(counts[0]).as_str());
        l.append(" window(s) — that flag is the one excluding everything");
        out.push(l);
    } else if given > 1 && names.len() > 1 {
        let mut phrases: Vec<String> = Vec::new();
        let mut k: usize = 0;
        while k < names.len()
            invariant
                k <= names@.len(),
                names@.len() == hits.len(),
                counts@.len() == hits.len(),
                forall|j: int| 0 <= j < hits.len() ==> #[trigger] names@[j]@ == hits[j].0 && counts@[j] == hits[j].1,
                views(phrases@) == hit_phrases(hits.take(k as int)),
            decreases names@.len() - k,
        {
            let mut p = own("dropping ");
            p.append(names[k]);
            p.append(" matches ");
            p.append(usize_to_decimal(counts[k]).as_str());
            let ghost before = views(phrases@);
            phrases.push(p);
            proof {
                assert(names@[k as int]@ == hits[k as int].0 && counts@[k as int] == hits[k as int].1);
                assert(hits.take(k + 1) =~= hits.take(k as int).push(hits[k as int]));
                assert(views(phrases@) =~= before.push(phrases@.last()@));
                assert(hit_phrases(hits.take(k + 1)) =~= hit_phrases(hits.take(k as int)).push(
                    "dropping "@ + hits[k as int].0 + " matches "@ + decimal(hits[k as int].1),
                ));
            }
            k += 1;
        }
        proof {
            assert(hits.take(k as int) =~= hits);
        }
        let mut l = own("  no window satisfies all of them together, though each is satisfiable alone: ");
        l.append(join_strings(&phrases, ", ").as_str());
        l.append(" — the flags are describing different windows");
        out.push(l);
    }
    proof {
        assert(views(out@) =~= relaxation_lines(ws@, *f));
    }
    out
}

/// The debug-quoted bundle IDs of `ws` that loosely resemble `needle`: the
/// lowercased ID contains it, or it contains the lowercased ID.
pub open spec fn near_bundle_set(ws: Seq<WindowInfo>, needle: Seq<char>) -> Set<Seq<char>>
    decreases ws.len(),
{
    if ws.len() == 0 {
        Set::empty()
    } else {
        let rest = near_bundle_set(ws.drop_last(), needle);
        match ws.last().bundle_id {
            Some(b) => if contains_seq(unicode_lowercase(b@), needle) || contains_seq(
                needle,
                unicode_lowercase(b@),
            ) {
                rest.insert(debug_quoted(b@))
            } else {
                rest
            },
            None => rest,
        }
    }
}

/// The line about a `--bundle-id` that no window carries, if it is one.
pub open spec fn bundle_lines(ws: Seq<WindowInfo>, f: WindowFilter) -> Seq<Seq<char>> {
    match f.bundle_id {
        Some(id) => if bundle_count(ws, id@) == 0 {
            let near = at_most(sorted_of(near_bundle_set(ws, unicode_lowercase(id@))), 3);
            if near.len() == 0 {
                seq![
                    "  no window belongs to "@ + debug_quoted(id@)
                        + "; if the app is running it has not opened a window yet — `wait-window --bundle-id` (exit 3) rather than polling `windows`"@,
                ]
            } else {
                seq![
                    "  no window belongs to "@ + debug_quoted(id@)
                        + " — near-miss bundle-ids present: "@ + join(near, ", "@),
                ]
            }
        } else {
            Seq::empty()
        },
        None => Seq::empty(),
    }
}

fn bundle_lines_exec(ws: &Vec<WindowInfo>, f: &WindowFilter) -> (r: Vec<String>)
    ensures
        views(r@) == bundle_lines(ws@, *f),
{
    let mut out: Vec<String> = Vec::new();
    if let Some(id) = &f.bundle_id {
        if count_bundle(ws, id.as_str()) == 0 {
            let needle = to_lowercase(id.as_str());
            let mut near: Vec<String> = Vec::new();
            let mut i: usize = 0;
            while i < ws.len()
                invariant
                    i <= ws@.len(),
                    strictly_sorted(views(near@)),
                    views(near@).to_set() == near_bundle_set(ws@.take(i as int), needle@),
                decreases ws@.len() - i,
            {
                proof {
                    assert(ws@.take(i + 1).drop_last() =~= ws@.take(i as int));
                }
                if let Some(b) = &ws[i].bundle_id {
                    let lb = to_lowercase(b.as_str());
                    if str_contains(lb.as_str(), needle.as_str()) || str_contains(
                        needle.as_str(),
                        lb.as_str(),
                    ) {
                        insert_sorted_unique(&mut near, debug_quote(b.as_str()));
                    }
                }
                i += 1;
            }
            proof {
                assert(ws@.take(i as int) =~= ws@);
                lemma_sorted_of(views(near@));
            }
            let ghost full = views(near@);
            near.truncate(3);
            proof {
                assert(views(near@) =~= at_most(full, 3));
            }
            let mut l = own("  no window belongs to ");
            l.append(debug_quote(id.as_str()).as_str());
            if near.len() == 0 {
                l.append(
                    "; if the app is running it has not opened a window yet — `wait-window --bundle-id` (exit 3) rather than polling `windows`",
                );
            } else {
                l.append(" — near-miss bundle-ids present: ");
                l.append(join_strings(&near, ", ").as_str());
            }
            out.push(l);
        }
    }
    proof {
        assert(views(out@) =~= bundle_lines(ws@, *f));
    }
    out
}

/// Whether some window of `ws` belongs to the process `pid`.
pub open spec fn has_pid(ws: Seq<WindowInfo>, pid: u32) -> bool {
    exists|i: int| 0 <= i < ws.len() && #[trigger] ws[i].pid == pid
}

/// The line about a `--pid` that no window carries, if it is one.
pub open spec fn pid_lines(ws: Seq<WindowInfo>, f: WindowFilter) -> Seq<Seq<char>> {
    match f.pid {
        Some(p) => if !has_pid(ws, p) {
            seq![
                "  no window belongs to pid "@ + decimal(p as nat)
                    + " — the process may have exited, or the pid is stale (re-resolve it with `loki app-info`)"@,
            ]
        } else {
            Seq::empty()
        },
        None => Seq::empty(),
    }
}

fn pid_lines_exec(ws: &Vec<WindowInfo>, f: &WindowFilter) -> (r: Vec<String>)
    ensures
        views(r@) == pid_lines(ws@, *f),
{
    let mut out: Vec<String> = Vec::new();
    if let Some(p) = f.pid {
        let mut found = false;
        let mut i: usize = 0;
        while i < ws.len()
            invariant
                i <= ws@.len(),
                found == exists|k: int| 0 <= k < i && #[trigger] ws@[k].pid == p,
            decreases ws@.len() - i,
        {
            if ws[i].pid == p {
                found = true;
            }
            i += 1;
        }
        if !found {
            let mut l = own("  no window belongs to pid ");
            l.append(usize_to_decimal(p as usize).as_str());
            l.append(
                " — the process may have exited, or the pid is stale (re-resolve it with `loki app-info`)",
            );
            out.push(l);
        }
    }
    proof {
        assert(views(out@) =~= pid_lines(ws@, *f));
    }
    out
}

/// The debug-quoted titles the filter's glob rejected although they carry
/// `lowered` (an anchoring near-miss).
pub open spec fn near_title_set(ws: Seq<WindowInfo>, f: WindowFilter, lowered: Seq<char>) -> Set<
    Seq<char>,
>
    decreases ws.len(),
{
    if ws.len() == 0 {
        Set::empty()
    } else {
        let rest = near_title_set(ws.drop_last(), f, lowered);
        let t = ws.last().title@;
        if t.len() > 0 && !title_passes(f, t) && contains_seq(unicode_lowercase(t), lowered) {
            rest.insert(debug_quoted(t))
        } else {
            rest
        }
    }
}

/// Whether the filter's title glob alone matches some titled window.
pub open spec fn title_hits(ws: Seq<WindowInfo>, f: WindowFilter) -> bool {
    exists|i: int| 0 <= i < ws.len() && ws[i].title@.len() > 0 && #[trigger] title_passes(f, ws[i].title@)
}

/// The debug-quoted non-empty titles of `ws`, in listing order.
pub open spec fn quoted_titles(ws: Seq<WindowInfo>) -> Seq<Seq<char>>
    decreases ws.len(),
{
    if ws.len() == 0 {
        Seq::empty()
    } else {
        let rest = quoted_titles(ws.drop_last());
        if ws.last().title@.len() > 0 {
            rest.push(debug_quoted(ws.last().title@))
        } else {
            rest
        }
    }
}

/// The line about the title: an anchoring near-miss, or, when the title glob
/// matches nothing at all, a sample of the titles present.
pub open spec fn title_lines(ws: Seq<WindowInfo>, f: WindowFilter) -> Seq<Seq<char>> {
    match f.title {
        Some(raw) => {
            let needle = trim_char(raw@, '*');
            let near = at_most(sorted_of(near_title_set(ws, f, unicode_lowercase(needle))), 3);
            if near.len() == 0 && !title_hits(ws, f) {
                let sample = at_most(quoted_titles(ws), 3);
                let line = "  no window title contains "@ + debug_quoted(needle)
                    + " — matching is case-insensitive, so this is not a case problem; the window may not be open yet (`wait-window --title`, exit 3). Titles present: "@
                    + join(sample, ", "@);
                if titled_count(ws) > sample.len() {
                    seq![line + ", …"@]
                } else {
                    seq![line]
                }
            } else if near.len() > 0 {
                seq![
                    "  near-miss (contains "@ + debug_quoted(needle)
                        + " but the glob above did not match): "@ + join(near, ", "@),
                ]
            } else {
                Seq::empty()
            }
        },
        None => Seq::empty(),
    }
}

fn sample_titles(ws: &Vec<WindowInfo>) -> (r: Vec<String>)
    ensures
        views(r@) == quoted_titles(ws@),
{
    let mut out: Vec<String> = Vec::new();
    let mut i: usize = 0;
    while i < ws.len()
        invariant
            i <= ws@.len(),
            views(out@) == quoted_titles(ws@.take(i as int)),
        decreases ws@.len() - i,
    {
        proof {
            assert(ws@.take(i + 1).drop_last() =~= ws@.take(i as int));
        }
        if !ws[i].title.as_str().is_empty() {
            out.push(debug_quote(ws[i].title.as_str()));
            proof {
                assert(views(out@) =~= views(out@.drop_last()).push(out@.last()@));
            }
        }
        i += 1;
    }
    proof {
        assert(ws@.take(i as int) =~= ws@);
    }
    out
}

fn title_lines_exec(ws: &Vec<WindowInfo>, f: &WindowFilter) -> (r: Vec<String>)
    ensures
        views(r@) == title_lines(ws@, *f),
{
    let mut out: Vec<String> = Vec::new();
    if let Some(raw) = &f.title {
        let needle = trim_char_str(raw.as_str(), '*');
        let lowered = to_lowercase(needle.as_str());
        let mut near: Vec<String> = Vec::new();
        let mut hit = false;
        let mut i: usize = 0;
        while i < ws.len()
            invariant
                i <= ws@.len(),
                strictly_sorted(views(near@)),
                views(near@).to_set() == near_title_set(ws@.take(i as int), *f, lowered@),
                hit == exists|k: int|
                    0 <= k < i && ws@[k].title@.len() > 0 && #[trigger] title_passes(*f, ws@[k].title@),
            decreases ws@.len() - i,
        {
            proof {
                assert(ws@.take(i + 1).drop_last() =~= ws@.take(i as int));
            }
            let t = ws[i].title.as_str();
            if !t.is_empty() {
                let passes = f.matches_title(t);
                if passes {
                    hit = true;
                } else {
                    let lt = to_lowercase(t);
                    if str_contains(lt.as_str(), lowered.as_str()) {
                        insert_sorted_unique(&mut near, debug_quote(t));
                    }
                }
            }
            i += 1;
        }
        proof {
            assert(ws@.take(i as int) =~= ws@);
            lemma_sorted_of(views(near@));
        }
        let ghost full = views(near@);
        near.truncate(3);
        proof {
            assert(views(near@) =~= at_most(full, 3));
        }
        if near.len() == 0 && !hit {
            let mut sample = sample_titles(ws);
            let ghost all_titles = views(sample@);
            sample.truncate(3);
            proof {
                assert(views(sample@) =~= at_most(all_titles, 3));
            }
            let titled = count_titled(ws);
            let mut l = own("  no window title contains ");
            l.append(debug_quote(needle.as_str()).as_str());
            l.append(
                " — matching is case-insensitive, so this is not a case problem; the window may not be open yet (`wait-window --title`, exit 3). Titles present: ",
            );
            l.append(join_strings(&sample, ", ").as_str());
            if titled > sample.len() {
                l.append(", …");
            }
            out.push(l);
        } else if near.len() > 0 {
            let mut l = own("  near-miss (contains ");
            l.append(debug_quote(needle.as_str()).as_str());
            l.append(" but the glob above did not match): ");
            l.append(join_strings(&near, ", ").as_str());
            out.push(l);
        }
    }
    proof {
        assert(views(out@) =~= title_lines(ws@, *f));
    }
    out
}

/// The opening line of the window explanation: what was searched.
pub open spec fn windows_searched(ws: Seq<WindowInfo>, f: WindowFilter) -> Seq<char> {
    let line = "  searched: "@ + decimal(ws.len()) + " windows ("@ + decimal(titled_count(ws))
        + " titled, "@ + decimal((ws.len() - titled_count(ws)) as nat) + " untitled"@;
    if f.include_unnamed {
        line + ")"@
    } else {
        line + ", excluded without --all"@ + ")"@
    }
}

/// The lines explaining an empty window listing, measured against the
/// unfiltered window list `ws` (untitled windows included).
pub open spec fn windows_lines(ws: Seq<WindowInfo>, f: WindowFilter) -> Seq<Seq<char>> {
    let head = seq![
        "no window matched "@ + described(window_wanted(f, true), "any window"@),
        windows_searched(ws, f),
    ];
    if ws.len() == 0 {
        head.push(
            "  the window list itself is empty — no app has an on-screen window, or screen access is not granted (`loki check-permission`)"@,
        )
    } else if !f.include_unnamed && passing_count(ws, with_unnamed(f)) > 0 {
        head.push(
            "  "@ + decimal(passing_count(ws, with_unnamed(f)))
                + " window(s) match the rest of the query but have an empty title — `--all` would have included them"@,
        )
    } else {
        head + relaxation_lines(ws, f) + bundle_lines(ws, f) + pid_lines(ws, f) + title_lines(ws, f)
    }
}

/// Turn an empty `windows` listing into something diagnosable: report what
/// was actually searched, and which *relaxation* of the query would have hit.
///
/// The causes it separates: a title the glob anchored past, a wrong
/// `--bundle-id`/`--pid`, a window that has not opened yet, and an untitled
/// window dropped because `--all` was not passed. `all` is the unfiltered
/// window list, untitled windows included.
pub fn explain_empty_windows(all: &Vec<WindowInfo>, filter: &WindowFilter) -> (r: String)
    ensures
        r@ == join(windows_lines(all@, *filter), "\n"@),
{
    let titled = count_titled(all);
    let wanted = window_wanted_exec(filter, true);
    let mut lines: Vec<String> = Vec::new();
    let mut l0 = own("no window matched ");
    l0.append(describe(&wanted, "any window").as_str());
    lines.push(l0);
    let mut l1 = own("  searched: ");
    l1.append(usize_to_decimal(all.len()).as_str());
    l1.append(" windows (");
    l1.append(usize_to_decimal(titled).as_str());
    l1.append(" titled, ");
    l1.append(usize_to_decimal(all.len() - titled).as_str());
    l1.append(" untitled");
    if !filter.include_unnamed {
        l1.append(", excluded without --all");
    }
    l1.append(")");
    lines.push(l1);
    let ghost head = views(lines@);
    proof {
        assert(head =~= seq![
            "no window matched "@ + described(window_wanted(*filter, true), "any window"@),
            windows_searched(all@, *filter),
        ]);
    }
    if all.len() == 0 {
        lines.push(
            own(
                "  the window list itself is empty — no app has an on-screen window, or screen access is not granted (`loki check-permission`)",
            ),
        );
        proof {
            assert(views(lines@) =~= windows_lines(all@, *filter));
        }
        return join_strings(&lines, "\n");
    }
    if !filter.include_unnamed {
        let mut relaxed = filter.duplicate();
        relaxed.include_unnamed = true;
        let n = count_passing(all, &relaxed);
        if n > 0 {
            let mut l = own("  ");
            l.append(usize_to_decimal(n).as_str());
            l.append(
                " window(s) match the rest of the query but have an empty title — `--all` would have included them",
            );
            lines.push(l);
            proof {
                assert(relaxed == with_unnamed(*filter));
                assert(views(lines@) =~= windows_lines(all@, *filter));
            }
            return join_strings(&lines, "\n");
        }
        proof {
            assert(relaxed == with_unnamed(*filter));
        }
    }
    push_all(&mut lines, relaxation_lines_exec(all, filter));
    push_all(&mut lines, bundle_lines_exec(all, filter));
    push_all(&mut lines, pid_lines_exec(all, filter));
    push_all(&mut lines, title_lines_exec(all, filter));
    proof {
        assert(views(lines@) =~= windows_lines(all@, *filter));
    }
    join_strings(&lines, "\n")
}

// ───────────────────────── an empty element search ─────────────────────────

/// The element criteria a diagnostic names.
pub open spec fn find_wanted(q: ElementQuery) -> Seq<Seq<char>> {
    let a = match q.role {
        Some(r) => seq!["role "@ + debug_quoted(r@)],
        None => Seq::empty(),
    };
    let b = match q.title {
        Some(t) => a.push("title "@ + debug_quoted(t@)),
        None => a,
    };
    let c = match q.label {
        Some(l) => b.push("label "@ + debug_quoted(l@)),
        None => b,
    };
    let d = match q.identifier {
        Some(i) => c.push("id "@ + debug_quoted(i@)),
        None => c,
    };
    match q.index {
        Some(i) => d.push("index "@ + decimal(i as nat)),
        None => d,
    }
}

fn find_wanted_exec(q: &ElementQuery) -> (r: Vec<String>)
    ensures
        views(r@) == find_wanted(*q),
{
    let mut parts: Vec<String> = Vec::new();
    if let Some(r) = &q.role {
        parts.push(labelled_quote("role ", r.as_str()));
    }
    if let Some(t) = &q.title {
        parts.push(labelled_quote("title ", t.as_str()));
    }
    if let Some(l) = &q.label {
        parts.push(labelled_quote("label ", l.as_str()));
    }
    if let Some(i) = &q.identifier {
        parts.push(labelled_quote("id ", i.as_str()));
    }
    if let Some(i) = q.index {
        let mut s = own("index ");
        s.append(usize_to_decimal(i).as_str());
        parts.push(s);
    }
    proof {
        assert(views(parts@) =~= find_wanted(*q));
    }
    parts
}

/// How many of `es` the query matches.
pub open spec fn match_count(es: Seq<AXElement>, q: ElementQuery) -> nat
    decreases es.len(),
{
    if es.len() == 0 {
        0
    } else {
        match_count(es.drop_last(), q) + if query_matches(q, es.last()) {
            1nat
        } else {
            0nat
        }
    }
}

/// The roles of the elements of `es` the query matches.
pub open spec fn matched_roles(es: Seq<AXElement>, q: ElementQuery) -> Set<Seq<char>>
    decreases es.len(),
{
    if es.len() == 0 {
        Set::empty()
    } else {
        let rest = matched_roles(es.drop_last(), q);
        if query_matches(q, es.last()) {
            rest.insert(es.last().role@)
        } else {
            rest
        }
    }
}

/// Counts the elements of `es` the query matches, and collects their roles
/// sorted and without repeats.
fn count_and_roles(es: &Vec<AXElement>, q: &ElementQuery) -> (r: (usize, Vec<String>))
    ensures
        r.0 == match_count(es@, *q),
        views(r.1@) == sorted_of(matched_roles(es@, *q)),
{
    let mut n: usize = 0;
    let mut roles: Vec<String> = Vec::new();
    let mut i: usize = 0;
    while i < es.len()
        invariant
            i <= es@.len(),
            n <= i,
            n == match_count(es@.take(i as int), *q),
            strictly_sorted(views(roles@)),
            views(roles@).to_set() == matched_roles(es@.take(i as int), *q),
        decreases es@.len() - i,
    {
        proof {
            assert(es@.take(i + 1).drop_last() =~= es@.take(i as int));
        }
        if q.matches(&es[i]) {
            n += 1;
            insert_sorted_unique(&mut roles, es[i].role.clone());
        }
        i += 1;
    }
    proof {
        assert(es@.take(i as int) =~= es@);
        lemma_sorted_of(views(roles@));
    }
    (n, roles)
}

/// The query with its role (and index) dropped: the text criteria alone.
pub open spec fn without_role(q: ElementQuery) -> ElementQuery {
    ElementQuery { role: None, index: None, ..q }
}

/// The query that asks for the role `role` and nothing else.
pub open spec fn role_only(role: Option<String>) -> ElementQuery {
    ElementQuery { role: role, ..empty_query() }
}

/// Whether the query names a text criterion (title, label or identifier).
pub open spec fn has_text(q: ElementQuery) -> bool {
    q.title is Some || q.label is Some || q.identifier is Some
}

/// The text a near-miss search looks for: the first of title, label and
/// identifier that is given, with `*` trimmed from both ends, lowercased.
pub open spec fn text_needle(q: ElementQuery) -> Seq<char> {
    let raw = match q.title {
        Some(t) => t@,
        None => match q.label {
            Some(l) => l@,
            None => match q.identifier {
                Some(i) => i@,
                None => Seq::empty(),
            },
        },
    };
    unicode_lowercase(trim_char(raw, '*'))
}

/// Whether the optional field is present and its lowercased text contains `needle`.
pub open spec fn field_hit(field: Option<String>, needle: Seq<char>) -> bool {
    field matches Some(s) && contains_seq(unicode_lowercase(s@), needle)
}

/// Whether any text field of `e` (title, value, description, identifier) contains `needle`.
pub open spec fn text_hit(e: AXElement, needle: Seq<char>) -> bool {
    field_hit(e.title, needle) || field_hit(e.value, needle) || field_hit(e.description, needle)
        || field_hit(e.identifier, needle)
}

/// The text an element is shown by: a non-empty title, else the value, else
/// the description, else nothing.
pub open spec fn element_label(e: AXElement) -> Seq<char> {
    match e.title {
        Some(t) if t@.len() > 0 => t@,
        _ => match e.value {
            Some(v) => v@,
            None => match e.description {
                Some(d) => d@,
                None => Seq::empty(),
            },
        },
    }
}

/// `ROLE "LABEL"` for each element of `es` whose text contains `needle`, in order.
pub open spec fn near_elements(es: Seq<AXElement>, needle: Seq<char>) -> Seq<Seq<char>>
    decreases es.len(),
{
    if es.len() == 0 {
        Seq::empty()
    } else {
        let rest = near_elements(es.drop_last(), needle);
        if text_hit(es.last(), needle) {
            rest.push(es.last().role@ + " "@ + debug_quoted(element_label(es.last())))
        } else {
            rest
        }
    }
}

fn field_hit_exec(field: &Option<String>, needle: &str) -> (r: bool)
    ensures
        r == field_hit(*field, needle@),
{
    match field {
        Some(s) => {
            let l = to_lowercase(s.as_str());
            str_contains(l.as_str(), needle)
        },
        None => false,
    }
}

fn element_label_exec(e: &AXElement) -> (r: String)
    ensures
        r@ == element_label(*e),
{
    if let Some(t) = &e.title {
        if !t.as_str().is_empty() {
            return t.clone();
        }
    }
    if let Some(v) = &e.value {
        return v.clone();
    }
    if let Some(d) = &e.description {
        return d.clone();
    }
    String::new()
}

fn near_elements_exec(es: &Vec<AXElement>, needle: &str) -> (r: Vec<String>)
    ensures
        views(r@) == near_elements(es@, needle@),
{
    let mut out: Vec<String> = Vec::new();
    let mut i: usize = 0;
    while i < es.len()
        invariant
            i <= es@.len(),
            views(out@) == near_elements(es@.take(i as int), needle@),
        decreases es@.len() - i,
    {
        proof {
            assert(es@.take(i + 1).drop_last() =~= es@.take(i as int));
        }
        let e = &es[i];
        if field_hit_exec(&e.title, needle) || field_hit_exec(&e.value, needle) || field_hit_exec(
            &e.description,
            needle,
        ) || field_hit_exec(&e.identifier, needle) {
            let mut entry = e.role.clone();
            entry.append(" ");
            let label = element_label_exec(e);
            entry.append(debug_quote(label.as_str()).as_str());
            let ghost before = views(out@);
            out.push(entry);
            proof {
                assert(views(out@) =~= before.push(out@.last()@));
            }
        }
        i += 1;
    }
    proof {
        assert(es@.take(i as int) =~= es@);
    }
    out
}

/// The lines reporting elements whose text carries the needle under a field
/// the query does not look at, or that none does.
pub open spec fn near_lines(es: Seq<AXElement>, needle: Seq<char>) -> Seq<Seq<char>> {
    let near = at_most(near_elements(es, needle), 3);
    if near.len() == 0 {
        seq![
            "  no element's text contains "@ + debug_quoted(needle)
                + " — matching is case-insensitive, so this is not a case problem (--id stays exact); the element may not be rendered yet: `wait-for` instead of `find`"@,
        ]
    } else {
        seq![
            "  near-miss (some text field contains "@ + debug_quoted(needle) + "): "@ + join(
                near,
                ", "@,
            ),
            "  hint: --title matches title/description/identifier; --label also matches AXValue (webview text)"@,
        ]
    }
}

/// The roles present among `es`.
pub open spec fn role_set(es: Seq<AXElement>) -> Set<Seq<char>> {
    matched_roles(es, empty_query())
}

/// The line naming the roles present, at most twelve of them.
pub open spec fn roles_present_line(es: Seq<AXElement>) -> Seq<char> {
    let roles = sorted_of(role_set(es));
    let line = "  no element has that role; roles present: "@ + join(at_most(roles, 12), ", "@);
    if roles.len() > 12 {
        line + ", …"@
    } else {
        line
    }
}

/// The lines explaining an empty element search in window `w`, measured
/// against the unfiltered element list `es` of that window.
pub open spec fn find_lines(es: Seq<AXElement>, w: WindowRef, q: ElementQuery) -> Seq<Seq<char>> {
    let head = seq![
        "no element matched "@ + described(find_wanted(q), "any element"@),
        "  searched: "@ + decimal(es.len()) + " elements in window "@ + decimal(w.window_id as nat)
            + " (pid "@ + decimal(w.pid as nat) + ")"@,
    ];
    let n = match_count(es, q);
    let n_text = match_count(es, without_role(q));
    if es.len() == 0 {
        head.push(
            "  the window's tree is empty — wrong window id, or a WKWebView/Electron UI that the AX API does not expose (screenshot + coordinate clicks instead)"@,
        )
    } else if q.index is Some && n > 0 {
        head.push(
            "  "@ + decimal(n)
                + " element(s) matched the rest of the query — --index is 0-based, so the highest valid one here is "@
                + decimal((n - 1) as nat),
        )
    } else if q.role is Some && has_text(q) && n_text > 0 {
        head.push(
            "  "@ + decimal(n_text) + " element(s) matched the text but not the role — they are: "@
                + join(sorted_of(matched_roles(es, without_role(q))), ", "@),
        )
    } else if q.role is Some && match_count(es, role_only(q.role)) == 0 {
        head.push(roles_present_line(es))
    } else if has_text(q) && text_needle(q).len() > 0 {
        head + near_lines(es, text_needle(q))
    } else {
        head
    }
}

/// Turn an empty `find` result into something diagnosable: report what was
/// actually searched and which *relaxation* of the query would have hit —
/// which is what separates a typo from an absent element.
///
/// The causes it distinguishes: a wrong `--role`, a wrong window, an element
/// not rendered yet, and an out-of-range `--index` (which empties a result set
/// that did match). `all` is the window's unfiltered element list.
pub fn explain_empty_find(all: &Vec<AXElement>, window: &WindowRef, query: &ElementQuery) -> (r: String)
    ensures
        r@ == join(find_lines(all@, *window, *query), "\n"@),
{
    let wanted = find_wanted_exec(query);
    let mut lines: Vec<String> = Vec::new();
    let mut l0 = own("no element matched ");
    l0.append(describe(&wanted, "any element").as_str());
    lines.push(l0);
    let mut l1 = own("  searched: ");
    l1.append(usize_to_decimal(all.len()).as_str());
    l1.append(" elements in window ");
    l1.append(usize_to_decimal(window.window_id as usize).as_str());
    l1.append(" (pid ");
    l1.append(usize_to_decimal(window.pid as usize).as_str());
    l1.append(")");
    lines.push(l1);
    let ghost head = views(lines@);
    proof {
        assert(head =~= seq![
            "no element matched "@ + described(find_wanted(*query), "any element"@),
            "  searched: "@ + decimal(all@.len()) + " elements in window "@ + decimal(
                window.window_id as nat,
            ) + " (pid "@ + decimal(window.pid as nat) + ")"@,
        ]);
    }
    if all.len() == 0 {
        lines.push(
            own(
                "  the window's tree is empty — wrong window id, or a WKWebView/Electron UI that the AX API does not expose (screenshot + coordinate clicks instead)",
            ),
        );
        proof {
            assert(views(lines@) =~= find_lines(all@, *window, *query));
        }
        return join_strings(&lines, "\n");
    }
    // `matches` does not look at the index, so this counts the matches of the
    // query without it.
    if query.index.is_some() {
        let (n, _) = count_and_roles(all, query);
        if n > 0 {
            let mut l = own("  ");
            l.append(usize_to_decimal(n).as_str());
            l.append(
                " element(s) matched the rest of the query — --index is 0-based, so the highest valid one here is ",
            );
            l.append(usize_to_decimal(n - 1).as_str());
            lines.push(l);
            proof {
                assert(views(lines@) =~= find_lines(all@, *window, *query));
            }
            return join_strings(&lines, "\n");
        }
    }
    let has_text = query.title.is_some() || query.label.is_some() || query.identifier.is_some();
    if query.role.is_some() && has_text {
        let mut relaxed = query.duplicate();
        relaxed.role = None;
        relaxed.index = None;
        proof {
            assert(relaxed == without_role(*query));
        }
        let (n, roles) = count_and_roles(all, &relaxed);
        if n > 0 {
            let mut l = own("  ");
            l.append(usize_to_decimal(n).as_str());
            l.append(" element(s) matched the text but not the role — they are: ");
            l.append(join_strings(&roles, ", ").as_str());
            lines.push(l);
            proof {
                assert(views(lines@) =~= find_lines(all@, *window, *query));
            }
            return join_strings(&lines, "\n");
        }
    }
    if query.role.is_some() {
        let mut role_query = ElementQuery::default();
        role_query.role = crate::text::clone_opt(&query.role);
        proof {
            assert(role_query == role_only(query.role));
        }
        let (n, _) = count_and_roles(all, &role_query);
        if n == 0 {
            let everything = ElementQuery::default();
            let (_, mut roles) = count_and_roles(all, &everything);
            let total = roles.len();
            let ghost full = views(roles@);
            roles.truncate(12);
            proof {
                assert(views(roles@) =~= at_most(full, 12));
            }
            let mut l = own("  no element has that role; roles present: ");
            l.append(join_strings(&roles, ", ").as_str());
            if total > 12 {
                l.append(", …");
            }
            lines.push(l);
            proof {
                assert(views(lines@) =~= find_lines(all@, *window, *query));
            }
            return join_strings(&lines, "\n");
        }
    }
    if has_text {
        let raw: &str = match &query.title {
            Some(t) => t.as_str(),
            None => match &query.label {
                Some(l) => l.as_str(),
                None => match &query.identifier {
                    Some(i) => i.as_str(),
                    None => "",
                },
            },
        };
        let trimmed = trim_char_str(raw, '*');
        let needle = to_lowercase(trimmed.as_str());
        proof {
            assert(needle@ == text_needle(*query));
        }
        if !needle.as_str().is_empty() {
            let mut near = near_elements_exec(all, needle.as_str());
            let ghost full = views(near@);
            near.truncate(3);
            proof {
                assert(views(near@) =~= at_most(full, 3));
            }
            if near.len() == 0 {
                let mut l = own("  no element's text contains ");
                l.append(debug_quote(needle.as_str()).as_str());
                l.append(
                    " — matching is case-insensitive, so this is not a case problem (--id stays exact); the element may not be rendered yet: `wait-for` instead of `find`",
                );
                lines.push(l);
            } else {
                let mut l = own("  near-miss (some text field contains ");
                l.append(debug_quote(needle.as_str()).as_str());
                l.append("): ");
                l.append(join_strings(&near, ", ").as_str());
                lines.push(l);
                lines.push(
                    own(
                        "  hint: --title matches title/description/identifier; --label also matches AXValue (webview text)",
                    ),
                );
            }
        }
    }
    proof {
        assert(views(lines@) =~= find_lines(all@, *window, *query));
    }
    join_strings(&lines, "\n")
}

} // verus!
