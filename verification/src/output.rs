//! Output formats and the parts of formatting that do not involve
//! floating-point coordinates: truncation, tree flattening, app info, and the
//! text lines for windows, elements and trees around a rendered frame.
use vstd::prelude::*;

use crate::element::{AXElement, AppInfo, WindowInfo, childless_copy_of, childless_copies};
use crate::text::{
    byte_len, chars_of, decimal, join, join_strings, lemma_utf8_len_take_mono,
    lemma_utf8_len_take_step, own, pad_end, pad_end_str, pad_start, pad_start_str, spaces,
    string_from_range, u64_to_decimal, usize_to_decimal, utf8_len, utf8_width_exec, views,
};

verus! {

/// Output format for CLI results.
#[derive(Debug, Clone, Copy, PartialEq, Eq, Structural)]
pub enum OutputFormat {
    Text,
    Json,
}

// ───────────────────────── truncation ─────────────────────────

/// `k` is the number of leading characters of `s` that fit in `budget` bytes:
/// they fit, and one more would not.
pub open spec fn fits_exactly(s: Seq<char>, budget: int, k: int) -> bool {
    &&& 0 <= k <= s.len()
    &&& utf8_len(s.take(k)) <= budget
    &&& (k == s.len() || utf8_len(s.take(k + 1)) > budget)
}

/// Only one count of leading characters fits exactly.
pub proof fn lemma_fits_exactly_unique(s: Seq<char>, budget: int, j: int, k: int)
    requires
        fits_exactly(s, budget, j),
        fits_exactly(s, budget, k),
    ensures
        j == k,
{
    if j < k {
        lemma_utf8_len_take_mono(s, j + 1, k);
    } else if k < j {
        lemma_utf8_len_take_mono(s, k + 1, j);
    }
}

/// The number of leading characters of `s` that fit exactly in `budget` bytes.
pub open spec fn fit_count(s: Seq<char>, budget: int) -> int {
    choose|k: int| fits_exactly(s, budget, k)
}

/// What `truncate(s, max)` returns.
pub open spec fn truncated(s: Seq<char>, max: nat) -> Seq<char> {
    if utf8_len(s) <= max {
        s
    } else {
        s.take(fit_count(s, if max >= 3 { max - 3 } else { 0 })) + seq!['.', '.', '.']
    }
}

/// Shorten `s` to at most `max` bytes of UTF-8: a string that fits is kept; a
/// longer one keeps the characters that fit in `max - 3` bytes (0 when `max`
/// is below 3) and ends in `...`. It never cuts a character in two.
pub fn truncate(s: &str, max: usize) -> (r: String)
    ensures
        utf8_len(s@) <= max ==> r@ == s@,
        utf8_len(s@) > max ==> exists|k: int|
            fits_exactly(s@, if max >= 3 { max - 3 } else { 0 }, k) && r@ == s@.take(k)
                + seq!['.', '.', '.'],
        r@ == truncated(s@, max as nat),
{
    if byte_len(s) <= max {
        return own(s);
    }
    let target = max.saturating_sub(3);
    let cs = chars_of(s);
    let mut k: usize = 0;
    let mut used: usize = 0;
    while k < cs.len() && utf8_width_exec(cs[k]) <= target - used
        invariant
            k <= cs@.len(),
            cs@ == s@,
            used == utf8_len(cs@.take(k as int)),
            used <= target,
        decreases cs@.len() - k,
    {
        proof {
            lemma_utf8_len_take_step(cs@, k as int);
        }
        used = used + utf8_width_exec(cs[k]);
        k += 1;
    }
    proof {
        if k < cs@.len() {
            lemma_utf8_len_take_step(cs@, k as int);
        }
        assert(fits_exactly(s@, target as int, k as int));
        lemma_fits_exactly_unique(s@, target as int, k as int, fit_count(s@, target as int));
    }
    let mut r = string_from_range(&cs, 0, k);
    r.append("...");
    proof {
        reveal_strlit("...");
        assert(cs@.subrange(0, k as int) =~= s@.take(k as int));
        assert("..."@ =~= seq!['.', '.', '.']);
    }
    r
}

// ───────────────────────── tree flattening ─────────────────────────

/// Every node of the tree under `e`, depth-first, parents before children.
pub open spec fn flat_nodes(e: AXElement) -> Seq<AXElement>
    decreases e, 1nat,
{
    seq![e] + flat_list(e.children@, e.children@.len() as int)
}

/// `flat_nodes` over the first `k` trees of `cs`, concatenated.
pub open spec fn flat_list(cs: Seq<AXElement>, k: int) -> Seq<AXElement>
    decreases cs, 0nat, k,
{
    if k <= 0 || k > cs.len() {
        Seq::empty()
    } else {
        flat_list(cs, k - 1) + flat_nodes(cs[k - 1])
    }
}

fn flatten_recursive(element: &AXElement, result: &mut Vec<AXElement>)
    ensures
        crate::query::appended_copies(final(result)@, old(result)@, flat_nodes(*element)),
    decreases element,
{
    let ghost before = result@;
    result.push(element.without_children());
    let ghost mid = result@;
    proof {
        assert(mid.take(before.len() as int) =~= before);
        assert(crate::query::appended_copies(mid, before, seq![*element]));
        assert(mid.take(mid.len() as int) =~= mid);
    }
    let n = element.children.len();
    let mut i: usize = 0;
    while i < n
        invariant
            i <= n,
            n == element.children@.len(),
            crate::query::appended_copies(result@, mid, flat_list(element.children@, i as int)),
        decreases n - i,
    {
        let ghost pre = result@;
        flatten_recursive(&element.children[i], result);
        proof {
            crate::query::lemma_appended_copies_trans(
                mid,
                pre,
                result@,
                flat_list(element.children@, i as int),
                flat_nodes(element.children@[i as int]),
            );
        }
        i += 1;
    }
    proof {
        crate::query::lemma_appended_copies_trans(
            before,
            mid,
            result@,
            seq![*element],
            flat_list(element.children@, n as int),
        );
    }
}

/// Flatten an AXElement tree to a list of all elements (depth-first), each
/// without its children.
pub fn flatten_tree(root: &AXElement) -> (r: Vec<AXElement>)
    ensures
        childless_copies(r@, flat_nodes(*root)),
{
    let mut result: Vec<AXElement> = Vec::new();
    flatten_recursive(root, &mut result);
    proof {
        let all = flat_nodes(*root);
        assert forall|i: int| 0 <= i < result@.len() implies childless_copy_of(#[trigger] result@[i], all[i]) by {
            assert(result@[0 + i] == result@[i]);
        }
    }
    result
}

// ───────────────────────── app info ─────────────────────────

/// The text form of an app's info: PID, name, bundle ID when known, and
/// whether it is the active app, one per line.
pub open spec fn app_info_text(info: AppInfo) -> Seq<char> {
    "PID:       "@ + decimal(info.pid as nat) + "\n"@ + "Name:      "@ + info.name@ + (match info.bundle_id {
        Some(b) => "\n"@ + "Bundle ID: "@ + b@,
        None => Seq::empty(),
    }) + "\n"@ + "Active:    "@ + (if info.is_active {
        "yes"@
    } else {
        "no"@
    })
}

/// Format app info as text.
pub fn format_app_info_text(info: &AppInfo) -> (r: String)
    ensures
        r@ == app_info_text(*info),
{
    let mut r = String::from_str("PID:       ");
    let pid = u64_to_decimal(info.pid as u64);
    r.append(pid.as_str());
    r.append("\n");
    r.append("Name:      ");
    r.append(info.name.as_str());
    if let Some(b) = &info.bundle_id {
        r.append("\n");
        r.append("Bundle ID: ");
        r.append(b.as_str());
    }
    r.append("\n");
    r.append("Active:    ");
    if info.is_active {
        r.append("yes");
    } else {
        r.append("no");
    }
    proof {
        assert(r@ =~= app_info_text(*info));
    }
    r
}

// ───────────────────────── window listings ─────────────────────────

/// The header line of a window listing.
pub open spec fn windows_header() -> Seq<char> {
    pad_end("WID"@, 8) + " "@ + pad_end("PID"@, 8) + " "@ + pad_end("TITLE"@, 40) + " "@ + pad_start(
        "W"@,
        6,
    ) + "x"@ + pad_end("H"@, 6)
}

/// The line of one window, given its width and height as rendered with no
/// decimals.
pub open spec fn window_row(w: WindowInfo, width: Seq<char>, height: Seq<char>) -> Seq<char> {
    pad_end(decimal(w.window_id as nat), 8) + " "@ + pad_end(decimal(w.pid as nat), 8) + " "@
        + pad_end(truncated(w.title@, 40), 40) + " "@ + pad_start(width, 6) + "x"@ + pad_end(height, 6)
}

/// The text listing of windows.
pub open spec fn windows_text(ws: Seq<WindowInfo>, widths: Seq<Seq<char>>, heights: Seq<Seq<char>>) -> Seq<char> {
    if ws.len() == 0 {
        "No windows found."@
    } else {
        join(
            seq![windows_header()] + Seq::new(ws.len(), |i: int| window_row(ws[i], widths[i], heights[i])),
            "\n"@,
        )
    }
}

/// Format a list of windows as text: a header, then one line per window with
/// its ID, PID, title (shortened to 40 bytes) and size. `widths[i]` and
/// `heights[i]` are the size of `windows[i]` rendered with no decimals.
pub fn format_windows_text(windows: &Vec<WindowInfo>, widths: &Vec<String>, heights: &Vec<String>) -> (r:
    String)
    requires
        widths@.len() == windows@.len(),
        heights@.len() == windows@.len(),
    ensures
        r@ == windows_text(windows@, views(widths@), views(heights@)),
{
    if windows.len() == 0 {
        return own("No windows found.");
    }
    let mut lines: Vec<String> = Vec::new();
    let mut h = pad_end_str("WID", 8);
    h.append(" ");
    h.append(pad_end_str("PID", 8).as_str());
    h.append(" ");
    h.append(pad_end_str("TITLE", 40).as_str());
    h.append(" ");
    h.append(pad_start_str("W", 6).as_str());
    h.append("x");
    h.append(pad_end_str("H", 6).as_str());
    lines.push(h);
    let mut i: usize = 0;
    while i < windows.len()
        invariant
            i <= windows@.len(),
            widths@.len() == windows@.len(),
            heights@.len() == windows@.len(),
            views(lines@) =~= seq![windows_header()] + Seq::new(
                i as nat,
                |k: int| window_row(windows@[k], views(widths@)[k], views(heights@)[k]),
            ),
        decreases windows@.len() - i,
    {
        let w = &windows[i];
        let mut l = pad_end_str(usize_to_decimal(w.window_id as usize).as_str(), 8);
        l.append(" ");
        l.append(pad_end_str(usize_to_decimal(w.pid as usize).as_str(), 8).as_str());
        l.append(" ");
        l.append(pad_end_str(truncate(w.title.as_str(), 40).as_str(), 40).as_str());
        l.append(" ");
        l.append(pad_start_str(widths[i].as_str(), 6).as_str());
        l.append("x");
        l.append(pad_end_str(heights[i].as_str(), 6).as_str());
        let ghost before = views(lines@);
        lines.push(l);
        proof {
            assert(views(widths@)[i as int] == widths@[i as int]@);
            assert(views(heights@)[i as int] == heights@[i as int]@);
            assert(views(lines@) =~= before.push(window_row(windows@[i as int], views(widths@)[i as int], views(heights@)[i as int])));
        }
        i += 1;
    }
    join_strings(&lines, "\n")
}

// ───────────────────────── element listings ─────────────────────────

/// `(WxH at X,Y)` from the four numbers of a frame, each rendered with no decimals.
pub open spec fn frame_text_of(w: Seq<char>, h: Seq<char>, x: Seq<char>, y: Seq<char>) -> Seq<char> {
    "("@ + w + "x"@ + h + " at "@ + x + ","@ + y + ")"@
}

/// How a frame is shown: `(WxH at X,Y)`, from its size and position rendered
/// with no decimals.
pub fn frame_text(w: &str, h: &str, x: &str, y: &str) -> (r: String)
    ensures
        r@ == frame_text_of(w@, h@, x@, y@),
{
    let mut r = own("(");
    r.append(w);
    r.append("x");
    r.append(h);
    r.append(" at ");
    r.append(x);
    r.append(",");
    r.append(y);
    r.append(")");
    r
}

/// The views of optional strings.
pub open spec fn opt_views(v: Seq<Option<String>>) -> Seq<Option<Seq<char>>> {
    v.map_values(|o: Option<String>| match o {
        Some(s) => Some(s@),
        None => None,
    })
}

/// The label an element is listed by: a non-empty title, else a non-empty description.
pub open spec fn listed_label(e: AXElement) -> Option<Seq<char>> {
    match e.title {
        Some(t) if t@.len() > 0 => Some(t@),
        _ => match e.description {
            Some(d) if d@.len() > 0 => Some(d@),
            _ => None,
        },
    }
}

/// The decimal forms of a tree path's indices.
pub open spec fn path_decimals(p: Seq<usize>) -> Seq<Seq<char>> {
    p.map_values(|i: usize| decimal(i as nat))
}

/// The parts of an element's line: role, quoted label, `id=…`, the rendered
/// frame, and the tree path `[a.b.c]`, each only where there is one.
pub open spec fn element_parts(e: AXElement, frame: Option<Seq<char>>) -> Seq<Seq<char>> {
    let a = seq![e.role@];
    let b = match listed_label(e) {
        Some(l) => a.push("\""@ + l + "\""@),
        None => a,
    };
    let c = match e.identifier {
        Some(id) => if id@.len() > 0 {
            b.push("id="@ + id@)
        } else {
            b
        },
        None => b,
    };
    let d = match frame {
        Some(f) => c.push(f),
        None => c,
    };
    if e.path@.len() > 0 {
        d.push("["@ + join(path_decimals(e.path@), "."@) + "]"@)
    } else {
        d
    }
}

/// The text listing of elements.
pub open spec fn elements_text(es: Seq<AXElement>, frames: Seq<Option<Seq<char>>>) -> Seq<char> {
    if es.len() == 0 {
        "No elements found."@
    } else {
        join(Seq::new(es.len(), |i: int| join(element_parts(es[i], frames[i]), " "@)), "\n"@)
    }
}

fn label_exec(e: &AXElement) -> (r: Option<String>)
    ensures
        match listed_label(*e) {
            Some(l) => r matches Some(s) && s@ == l,
            None => r is None,
        },
{
    if let Some(t) = &e.title {
        if !t.as_str().is_empty() {
            return Some(t.clone());
        }
    }
    if let Some(d) = &e.description {
        if !d.as_str().is_empty() {
            return Some(d.clone());
        }
    }
    None
}

fn path_text(p: &Vec<usize>) -> (r: String)
    ensures
        r@ == join(path_decimals(p@), "."@),
{
    let mut parts: Vec<String> = Vec::new();
    let mut i: usize = 0;
    while i < p.len()
        invariant
            i <= p@.len(),
            views(parts@) =~= path_decimals(p@.take(i as int)),
        decreases p@.len() - i,
    {
        let ghost before = views(parts@);
        parts.push(usize_to_decimal(p[i]));
        proof {
            assert(views(parts@) =~= before.push(decimal(p@[i as int] as nat)));
            assert(path_decimals(p@.take(i + 1)) =~= path_decimals(p@.take(i as int)).push(
                decimal(p@[i as int] as nat),
            ));
        }
        i += 1;
    }
    proof {
        assert(p@.take(i as int) =~= p@);
    }
    join_strings(&parts, ".")
}

fn element_line(e: &AXElement, frame: &Option<String>) -> (r: String)
    ensures
        r@ == join(element_parts(*e, opt_views(seq![*frame])[0]), " "@),
{
    let mut parts: Vec<String> = Vec::new();
    parts.push(e.role.clone());
    if let Some(l) = label_exec(e) {
        let mut q = own("\"");
        q.append(l.as_str());
        q.append("\"");
        parts.push(q);
    }
    if let Some(id) = &e.identifier {
        if !id.as_str().is_empty() {
            let mut q = own("id=");
            q.append(id.as_str());
            parts.push(q);
        }
    }
    if let Some(f) = frame {
        parts.push(f.clone());
    }
    if e.path.len() > 0 {
        let mut q = own("[");
        q.append(path_text(&e.path).as_str());
        q.append("]");
        parts.push(q);
    }
    proof {
        assert(views(parts@) =~= element_parts(*e, opt_views(seq![*frame])[0]));
    }
    join_strings(&parts, " ")
}

/// Format a list of elements as text, one line each: role, quoted label,
/// `id=…`, frame and tree path. `frames[i]` is the frame of `elements[i]` as
/// `frame_text` shows it, `None` for an element without a frame.
pub fn format_elements_text(elements: &Vec<AXElement>, frames: &Vec<Option<String>>) -> (r: String)
    requires
        frames@.len() == elements@.len(),
    ensures
        r@ == elements_text(elements@, opt_views(frames@)),
{
    if elements.len() == 0 {
        return own("No elements found.");
    }
    let mut lines: Vec<String> = Vec::new();
    let mut i: usize = 0;
    while i < elements.len()
        invariant
            i <= elements@.len(),
            frames@.len() == elements@.len(),
            views(lines@) =~= Seq::new(
                i as nat,
                |k: int| join(element_parts(elements@[k], opt_views(frames@)[k]), " "@),
            ),
        decreases elements@.len() - i,
    {
        let ghost before = views(lines@);
        lines.push(element_line(&elements[i], &frames[i]));
        proof {
            assert(opt_views(seq![frames@[i as int]])[0] == opt_views(frames@)[i as int]);
            assert(views(lines@) =~= before.push(join(element_parts(elements@[i as int], opt_views(frames@)[i as int]), " "@)));
        }
        i += 1;
    }
    join_strings(&lines, "\n")
}

// ───────────────────────── trees ─────────────────────────

/// Every node of the tree under `e` with its depth, depth-first, parents
/// before children; `e` itself is at `depth`.
pub open spec fn tree_entries(e: AXElement, depth: nat) -> Seq<(AXElement, nat)>
    decreases e, 1nat,
{
    seq![(e, depth)] + tree_entry_list(e.children@, depth + 1, e.children@.len() as int)
}

/// `tree_entries` over the first `k` trees of `cs`, all at `depth`, concatenated.
pub open spec fn tree_entry_list(cs: Seq<AXElement>, depth: nat, k: int) -> Seq<(AXElement, nat)>
    decreases cs, 0nat, k,
{
    if k <= 0 || k > cs.len() {
        Seq::empty()
    } else {
        tree_entry_list(cs, depth, k - 1) + tree_entries(cs[k - 1], depth)
    }
}

/// The label a tree node is shown with: the first non-empty one of title,
/// description and identifier.
pub open spec fn tree_label(e: AXElement) -> Option<Seq<char>> {
    match e.title {
        Some(t) if t@.len() > 0 => Some(t@),
        _ => match e.description {
            Some(d) if d@.len() > 0 => Some(d@),
            _ => match e.identifier {
                Some(i) if i@.len() > 0 => Some(i@),
                _ => None,
            },
        },
    }
}

/// The line of one tree node: two spaces per level, the role, the quoted
/// label and the rendered frame, each only where there is one.
pub open spec fn tree_line(e: AXElement, depth: nat, frame: Option<Seq<char>>) -> Seq<char> {
    let a = spaces(2 * depth) + e.role@;
    let b = match tree_label(e) {
        Some(l) => a + " \""@ + l + "\""@,
        None => a,
    };
    match frame {
        Some(f) => b + " "@ + f,
        None => b,
    }
}

/// The lines of the entries `es`, the `i`-th with the rendered frame `frames[i]`.
pub open spec fn tree_lines(es: Seq<(AXElement, nat)>, frames: Seq<Option<Seq<char>>>) -> Seq<Seq<char>> {
    Seq::new(es.len(), |i: int| tree_line(es[i].0, es[i].1, frames[i]))
}

/// The text form of a tree: one line per node, depth-first.
pub open spec fn tree_text(root: AXElement, frames: Seq<Option<Seq<char>>>) -> Seq<char> {
    join(tree_lines(tree_entries(root, 0), frames), "\n"@)
}

proof fn lemma_tree_entry_list_step(cs: Seq<AXElement>, depth: nat, k: int)
    requires
        0 <= k < cs.len(),
    ensures
        tree_entry_list(cs, depth, k + 1) == tree_entry_list(cs, depth, k) + tree_entries(cs[k], depth),
{
}

proof fn lemma_tree_entries_first(e: AXElement, depth: nat)
    ensures
        tree_entries(e, depth).len() >= 1,
        tree_entries(e, depth)[0] == (e, depth),
{
}

fn tree_line_exec(e: &AXElement, depth: usize, frame: &Option<String>) -> (r: String)
    ensures
        r@ == tree_line(*e, depth as nat, opt_views(seq![*frame])[0]),
{
    let mut r = String::new();
    let mut k: usize = 0;
    while k < depth
        invariant
            k <= depth,
            r@ =~= spaces(2 * (k as nat)),
        decreases depth - k,
    {
        r.append("  ");
        proof {
            reveal_strlit("  ");
        }
        k += 1;
    }
    r.append(e.role.as_str());
    let mut label: Option<&String> = None;
    if let Some(t) = &e.title {
        if !t.as_str().is_empty() {
            label = Some(t);
        }
    }
    if label.is_none() {
        if let Some(d) = &e.description {
            if !d.as_str().is_empty() {
                label = Some(d);
            }
        }
    }
    if label.is_none() {
        if let Some(i) = &e.identifier {
            if !i.as_str().is_empty() {
                label = Some(i);
            }
        }
    }
    proof {
        match tree_label(*e) {
            Some(l) => assert(label matches Some(s) && s@ == l),
            None => assert(label is None),
        }
    }
    if let Some(l) = label {
        r.append(" \"");
        r.append(l.as_str());
        r.append("\"");
    }
    if let Some(f) = frame {
        r.append(" ");
        r.append(f.as_str());
    }
    r
}

fn tree_lines_rec(
    e: &AXElement,
    depth: usize,
    frames: &Vec<Option<String>>,
    start: usize,
    out: &mut Vec<String>,
) -> (next: usize)
    requires
        depth <= start,
        start + tree_entries(*e, depth as nat).len() <= frames@.len(),
    ensures
        next == start + tree_entries(*e, depth as nat).len(),
        views(final(out)@) == views(old(out)@) + tree_lines(
            tree_entries(*e, depth as nat),
            opt_views(frames@).subrange(start as int, next as int),
        ),
    decreases e,
{
    let ghost entries = tree_entries(*e, depth as nat);
    let ghost before = views(out@);
    let ghost fv = opt_views(frames@);
    proof {
        lemma_tree_entries_first(*e, depth as nat);
    }
    let frame_count = frames.len();
    assert(start < frame_count);
    let line = tree_line_exec(e, depth, &frames[start]);
    out.push(line);
    proof {
        assert(opt_views(seq![frames@[start as int]])[0] == fv[start as int]);
    }
    let n = e.children.len();
    let mut next: usize = start + 1;
    let mut i: usize = 0;
    while i < n
        invariant
            i <= n,
            n == e.children@.len(),
            depth <= start,
            entries == tree_entries(*e, depth as nat),
            fv == opt_views(frames@),
            start + entries.len() <= frames@.len(),
            next == start + 1 + tree_entry_list(e.children@, (depth + 1) as nat, i as int).len(),
            views(out@) == before + tree_lines(
                seq![(*e, depth as nat)] + tree_entry_list(e.children@, (depth + 1) as nat, i as int),
                fv.subrange(start as int, next as int),
            ),
        decreases n - i,
    {
        let ghost pre = views(out@);
        let ghost child = e.children@[i as int];
        let ghost prefix = tree_entry_list(e.children@, (depth + 1) as nat, i as int);
        proof {
            lemma_tree_entry_list_step(e.children@, (depth + 1) as nat, i as int);
            lemma_tree_entry_list_prefix(e.children@, (depth + 1) as nat, i + 1, n as int);
            assert(entries == seq![(*e, depth as nat)] + tree_entry_list(e.children@, (depth + 1) as nat, n as int));
        }
        let after = tree_lines_rec(&e.children[i], depth + 1, frames, next, out);
        proof {
            let ce = tree_entries(child, (depth + 1) as nat);
            let all_prev = seq![(*e, depth as nat)] + prefix;
            let all_now = seq![(*e, depth as nat)] + tree_entry_list(e.children@, (depth + 1) as nat, i + 1);
            assert(all_now =~= all_prev + ce);
            assert(tree_lines(all_now, fv.subrange(start as int, after as int)) =~= tree_lines(
                all_prev,
                fv.subrange(start as int, next as int),
            ) + tree_lines(ce, fv.subrange(next as int, after as int)));
        }
        next = after;
        i += 1;
    }
    proof {
        assert(entries =~= seq![(*e, depth as nat)] + tree_entry_list(e.children@, (depth + 1) as nat, n as int));
    }
    next
}

/// A prefix of the children contributes no more entries than all of them.
proof fn lemma_tree_entry_list_prefix(cs: Seq<AXElement>, depth: nat, j: int, k: int)
    requires
        0 <= j <= k <= cs.len(),
    ensures
        tree_entry_list(cs, depth, j).len() <= tree_entry_list(cs, depth, k).len(),
    decreases k - j,
{
    if j < k {
        lemma_tree_entry_list_prefix(cs, depth, j, k - 1);
        lemma_tree_entry_list_step(cs, depth, k - 1);
    }
}

/// Format an accessibility tree as text: one line per node, depth-first,
/// indented two spaces per level, with the node's label and frame.
/// `frames[i]` is the frame of the `i`-th node in that order as `frame_text`
/// shows it, `None` for a node without a frame.
pub fn format_tree_text(root: &AXElement, frames: &Vec<Option<String>>) -> (r: String)
    requires
        frames@.len() == tree_entries(*root, 0).len(),
    ensures
        r@ == tree_text(*root, opt_views(frames@)),
{
    let mut lines: Vec<String> = Vec::new();
    let next = tree_lines_rec(root, 0, frames, 0, &mut lines);
    proof {
        assert(opt_views(frames@).subrange(0, next as int) =~= opt_views(frames@));
        assert(views(lines@) =~= tree_lines(tree_entries(*root, 0), opt_views(frames@)));
    }
    join_strings(&lines, "\n")
}

} // verus!
