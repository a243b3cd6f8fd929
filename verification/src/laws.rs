//! Properties that hold across the library's operations, proved over the same
//! spec functions their contracts use.
use vstd::prelude::*;

use crate::cli::titled_like;
use crate::diagnose::{matched_roles, near_title_set, passing_count};
use crate::driver::passing_windows;
use crate::element::{AXElement, AppTarget, WindowInfo, target_of};
use crate::error::{exit_code_of, LokiError};
use crate::input::{click_steps, increment, key_code_of, MouseEventKind};
use crate::output::{
    flat_list, flat_nodes, fits_exactly, fit_count, tree_entries, tree_line, tree_lines, tree_text, truncated,
    window_row, windows_header, windows_text,
};
use crate::query::{
    actionable, ascii_actionable, ascii_role_match, actionable_roles,
    auto_wrap, empty_query, glob_compiles, glob_match, has_glob_meta,
    query_matches, role_match, search_list, search_nodes, title_passes, window_passes,
    ElementQuery, WindowFilter,
};
use crate::text::{
    ends_with, join, pad_end, pad_start, spaces, starts_with,
    all_digits, ascii_lower, decimal, digit_char, digit_value, digits_value, is_digit,
    lemma_sorted_of_finite, parse_u32_spec, sorted_of, strictly_sorted, utf8_len,
};

verus! {

// ───────────────────────── text patterns ─────────────────────────

/// Wrapping a pattern for substring matching is idempotent: a wrapped
/// pattern carries `*`, so it passes through a second wrap unchanged.
pub proof fn law_auto_wrap_idempotent(p: Seq<char>)
    ensures
        auto_wrap(auto_wrap(p)) == auto_wrap(p),
{
    if p.len() > 0 && !has_glob_meta(p) {
        let w = seq!['*'] + p + seq!['*'];
        assert(w[0] == '*');
        assert(w.contains('*'));
    }
}

/// When a pattern does not compile as a glob, matching ignores ASCII case:
/// two values that agree up to ASCII case match it alike.
pub proof fn law_fallback_match_ignores_case(p: Seq<char>, v1: Seq<char>, v2: Seq<char>)
    requires
        !glob_compiles(p),
        ascii_lower(v1) == ascii_lower(v2),
    ensures
        glob_match(p, v1) == glob_match(p, v2),
{
}

// ───────────────────────── element queries ─────────────────────────

/// The query with no criterion matches every element.
pub proof fn law_empty_query_matches_all(e: AXElement)
    ensures
        query_matches(empty_query(), e),
{
}

/// `--label` is the broader text criterion: an element that a title pattern
/// matches is matched by the same pattern as a label.
pub proof fn law_label_covers_title(p: String, e: AXElement)
    ensures
        query_matches(ElementQuery { title: Some(p), ..empty_query() }, e) ==> query_matches(
            ElementQuery { label: Some(p), ..empty_query() },
            e,
        ),
{
}

/// Role comparison is reflexive and symmetric.
pub proof fn law_role_match_reflexive_symmetric(a: Seq<char>, b: Seq<char>)
    ensures
        role_match(a, a),
        role_match(a, b) == role_match(b, a),
{
}

/// Every node a search returns is one the query matches.
pub proof fn law_search_results_match(e: AXElement, q: ElementQuery, depth: int)
    ensures
        forall|i: int|
            0 <= i < search_nodes(e, q, depth).len() ==> query_matches(q, #[trigger] search_nodes(e, q, depth)[i]),
    decreases e, 1nat,
{
    lemma_search_list_results_match(e.children@, q, depth + 1, e.children@.len() as int);
    let own = if query_matches(q, e) {
        seq![e]
    } else {
        Seq::empty()
    };
    let rest = search_list(e.children@, q, depth + 1, e.children@.len() as int);
    if !(q.max_depth matches Some(m) && depth > m) {
        assert(search_nodes(e, q, depth) == own + rest);
        assert forall|i: int| 0 <= i < (own + rest).len() implies query_matches(q, #[trigger] (own + rest)[i]) by {
            if i >= own.len() {
                assert((own + rest)[i] == rest[i - own.len()]);
            }
        }
    }
}

proof fn lemma_search_list_results_match(cs: Seq<AXElement>, q: ElementQuery, depth: int, k: int)
    ensures
        forall|i: int|
            0 <= i < search_list(cs, q, depth, k).len() ==> query_matches(q, #[trigger] search_list(cs, q, depth, k)[i]),
    decreases cs, 0nat, k,
{
    if k <= 0 || k > cs.len() {
    } else {
        lemma_search_list_results_match(cs, q, depth, k - 1);
        law_search_results_match(cs[k - 1], q, depth);
        let a = search_list(cs, q, depth, k - 1);
        let b = search_nodes(cs[k - 1], q, depth);
        assert forall|i: int| 0 <= i < (a + b).len() implies query_matches(q, #[trigger] (a + b)[i]) by {
            if i >= a.len() {
                assert((a + b)[i] == b[i - a.len()]);
            }
        }
    }
}

/// A search with no criterion and no depth limit finds every node of the
/// tree, in the order a flattening lists them.
pub proof fn law_empty_search_is_flatten(e: AXElement, depth: int)
    ensures
        search_nodes(e, empty_query(), depth) == flat_nodes(e),
    decreases e, 1nat,
{
    lemma_empty_search_list_is_flatten(e.children@, depth + 1, e.children@.len() as int);
}

proof fn lemma_empty_search_list_is_flatten(cs: Seq<AXElement>, depth: int, k: int)
    ensures
        search_list(cs, empty_query(), depth, k) == flat_list(cs, k),
    decreases cs, 0nat, k,
{
    if k <= 0 || k > cs.len() {
    } else {
        lemma_empty_search_list_is_flatten(cs, depth, k - 1);
        law_empty_search_is_flatten(cs[k - 1], depth);
    }
}

/// Without a depth limit, a search finds exactly the nodes of the flattened
/// tree that the query matches, in the order the flattening lists them.
pub proof fn law_search_is_filtered_flatten(e: AXElement, q: ElementQuery, depth: int)
    requires
        q.max_depth is None,
    ensures
        search_nodes(e, q, depth) == flat_nodes(e).filter(|x: AXElement| query_matches(q, x)),
    decreases e, 1nat,
{
    let pred = |x: AXElement| query_matches(q, x);
    lemma_search_list_is_filtered_flatten(e.children@, q, depth + 1, e.children@.len() as int);
    Seq::filter_distributes_over_add(seq![e], flat_list(e.children@, e.children@.len() as int), pred);
    reveal_with_fuel(Seq::filter, 2);
    assert(seq![e].drop_last() =~= Seq::<AXElement>::empty());
    if query_matches(q, e) {
        assert(seq![e].filter(pred) =~= seq![e]);
    } else {
        assert(seq![e].filter(pred) =~= Seq::<AXElement>::empty());
    }
}

proof fn lemma_search_list_is_filtered_flatten(cs: Seq<AXElement>, q: ElementQuery, depth: int, k: int)
    requires
        q.max_depth is None,
    ensures
        search_list(cs, q, depth, k) == flat_list(cs, k).filter(|x: AXElement| query_matches(q, x)),
    decreases cs, 0nat, k,
{
    let pred = |x: AXElement| query_matches(q, x);
    if k <= 0 || k > cs.len() {
        reveal_with_fuel(Seq::filter, 1);
        assert(flat_list(cs, k).filter(pred) =~= Seq::<AXElement>::empty());
    } else {
        lemma_search_list_is_filtered_flatten(cs, q, depth, k - 1);
        law_search_is_filtered_flatten(cs[k - 1], q, depth);
        Seq::filter_distributes_over_add(flat_list(cs, k - 1), flat_nodes(cs[k - 1]), pred);
    }
}

// ───────────────────────── window filters ─────────────────────────

/// The title test is the glob of the effective title pattern: a bare title
/// is wrapped for substring matching, and no title admits every title.
pub proof fn law_title_test_uses_effective_pattern(f: WindowFilter, t: Seq<char>)
    ensures
        title_passes(f, t) == match f.title {
            Some(p) => glob_match(auto_wrap(p@), t),
            None => true,
        },
{
}

/// Every command that takes a window title matches it the same way: the
/// windows a filter of nothing but a title pattern admits, untitled ones
/// included (what `wait-window --title` and `screenshot --window <title>` look
/// through), are exactly those whose title passes the title test that
/// `wait-title` applies, in listing order.
pub proof fn law_window_title_matching_is_shared(ws: Seq<WindowInfo>, f: WindowFilter)
    requires
        f.title is Some,
        f.bundle_id is None,
        f.pid is None,
        f.include_unnamed,
    ensures
        passing_windows(ws, f) == titled_like(ws, f.title->0@),
        forall|i: int| 0 <= i < ws.len() ==> (window_passes(f, ws[i]) <==> title_passes(f, #[trigger] ws[i].title@)),
    decreases ws.len(),
{
    if ws.len() > 0 {
        law_window_title_matching_is_shared(ws.drop_last(), f);
    }
}

/// `--id` is an exact, case-sensitive comparison: a query of nothing but an
/// identifier matches exactly the elements carrying that identifier.
pub proof fn law_identifier_is_exact(id: String, e: AXElement)
    ensures
        query_matches(ElementQuery { identifier: Some(id), ..empty_query() }, e) <==> (e.identifier matches Some(x)
            && x@ == id@),
{
}

/// Relaxing a window filter — admitting untitled windows, or dropping the
/// title, bundle ID or PID — never turns away a window it let through.
pub proof fn law_relaxing_a_filter_keeps_its_windows(f: WindowFilter, w: WindowInfo)
    requires
        window_passes(f, w),
    ensures
        window_passes(WindowFilter { include_unnamed: true, ..f }, w),
        window_passes(WindowFilter { title: None, ..f }, w),
        window_passes(WindowFilter { bundle_id: None, ..f }, w),
        window_passes(WindowFilter { pid: None, ..f }, w),
{
}

/// A relaxed filter admits at least as many windows of any listing: the
/// counts the empty-listing explanation reports can only grow as flags drop.
pub proof fn law_relaxed_count_grows(ws: Seq<WindowInfo>, f: WindowFilter, g: WindowFilter)
    requires
        forall|w: WindowInfo| window_passes(f, w) ==> #[trigger] window_passes(g, w),
    ensures
        passing_count(ws, f) <= passing_count(ws, g),
    decreases ws.len(),
{
    if ws.len() > 0 {
        law_relaxed_count_grows(ws.drop_last(), f, g);
        assert(window_passes(f, ws.last()) ==> window_passes(g, ws.last()));
    }
}

// ───────────────────────── output ─────────────────────────

/// With room for the ellipsis (`max` of at least 3 bytes), truncation never
/// exceeds `max` bytes of UTF-8.
pub proof fn law_truncate_fits(s: Seq<char>, max: nat)
    requires
        max >= 3,
    ensures
        utf8_len(truncated(s, max)) <= max,
{
    if utf8_len(s) > max {
        let budget = (max - 3) as int;
        let k = fit_count(s, budget);
        // A fitting count exists: walk up while the next character fits.
        lemma_fit_exists(s, budget, 0);
        assert(fits_exactly(s, budget, k));
        crate::text::lemma_utf8_len_concat(s.take(k), seq!['.', '.', '.']);
        assert(utf8_len(seq!['.', '.', '.']) == 3) by {
            reveal_with_fuel(utf8_len, 4);
            assert(seq!['.', '.', '.'].drop_first() =~= seq!['.', '.']);
            assert(seq!['.', '.'].drop_first() =~= seq!['.']);
            assert(seq!['.'].drop_first() =~= Seq::<char>::empty());
        }
    }
}

/// Some number of leading characters at or beyond `j` fits exactly, given
/// that the first `j` fit.
proof fn lemma_fit_exists(s: Seq<char>, budget: int, j: int)
    requires
        0 <= j <= s.len(),
        budget >= 0,
        utf8_len(s.take(j)) <= budget,
    ensures
        exists|k: int| fits_exactly(s, budget, k),
    decreases s.len() - j,
{
    if j == s.len() {
        assert(fits_exactly(s, budget, j));
    } else if utf8_len(s.take(j + 1)) > budget {
        assert(fits_exactly(s, budget, j));
    } else {
        lemma_fit_exists(s, budget, j + 1);
    }
}

// ───────────────────────── scrolling ─────────────────────────

/// A scroll is split evenly: earlier steps are never smaller, and no two
/// steps differ by more than one pixel.
pub proof fn law_scroll_steps_even(delta: int, n: int, i: int, j: int)
    requires
        n >= 1,
        0 <= i <= j < n,
    ensures
        ({
            let a = if increment(delta, n, i) < 0 { -increment(delta, n, i) } else { increment(delta, n, i) };
            let b = if increment(delta, n, j) < 0 { -increment(delta, n, j) } else { increment(delta, n, j) };
            b <= a <= b + 1
        }),
{
    let mag = if delta < 0 { -delta } else { delta };
    assert(mag / n >= 0) by (nonlinear_arith)
        requires
            mag >= 0,
            n >= 1,
    ;
}

// ───────────────────────── errors ─────────────────────────

/// A wait that runs out exits with the timeout code whether or not it
/// carries an explanation.
pub proof fn law_timeout_detail_keeps_exit_code(timeout_ms: u64, detail: String)
    ensures
        exit_code_of(LokiError::TimeoutDetail { timeout_ms, detail }) == exit_code_of(
            LokiError::Timeout(timeout_ms),
        ),
        exit_code_of(LokiError::Timeout(timeout_ms)) == 3,
{
}

// ───────────────────────── app targets ─────────────────────────

/// The decimal form of a number is one or more digits that read back as it.
pub proof fn law_decimal_reads_back(n: nat)
    ensures
        decimal(n).len() > 0,
        all_digits(decimal(n)),
        digits_value(decimal(n)) == n,
    decreases n,
{
    if n >= 10 {
        law_decimal_reads_back(n / 10);
        let s = decimal(n / 10);
        let c = digit_char((n % 10) as int);
        assert(decimal(n) == s.push(c));
        assert(s.push(c).drop_last() =~= s);
        assert(digit_value(c) == n % 10);
        assert(digits_value(s.push(c)) == 10 * digits_value(s.push(c).drop_last()) + digit_value(s.push(c).last()));
        assert(n == 10 * (n / 10) + n % 10);
        assert forall|i: int| 0 <= i < s.push(c).len() implies is_digit(#[trigger] s.push(c)[i]) by {
            if i < s.len() {
                assert(s.push(c)[i] == s[i]);
            }
        }
    } else {
        let c = digit_char(n as int);
        assert(decimal(n) == seq![c]);
        assert(seq![c].drop_last() =~= Seq::<char>::empty());
        assert(digit_value(c) == n);
        assert(digits_value(seq![c]) == 10 * digits_value(seq![c].drop_last()) + digit_value(seq![c].last()));
        assert(digits_value(Seq::<char>::empty()) == 0);
    }
}

/// A target written as a PID is taken as that PID.
pub proof fn law_pid_target_round_trip(pid: u32)
    ensures
        parse_u32_spec(decimal(pid as nat)) == Some(pid),
        forall|t: AppTarget| #[trigger] target_of(decimal(pid as nat), t) ==> t == AppTarget::Pid(pid),
{
    law_decimal_reads_back(pid as nat);
    let s = decimal(pid as nat);
    assert(is_digit(s[0]));
}

// ───────────────────────── explanations ─────────────────────────

proof fn lemma_matched_roles_finite(es: Seq<AXElement>, q: ElementQuery)
    ensures
        matched_roles(es, q).finite(),
    decreases es.len(),
{
    if es.len() > 0 {
        lemma_matched_roles_finite(es.drop_last(), q);
    }
}

/// The roles an empty-search explanation names are listed in increasing
/// order, each once, and are exactly the roles of the elements counted.
pub proof fn law_explained_roles_sorted_unique(es: Seq<AXElement>, q: ElementQuery)
    ensures
        strictly_sorted(sorted_of(matched_roles(es, q))),
        sorted_of(matched_roles(es, q)).to_set() == matched_roles(es, q),
{
    lemma_matched_roles_finite(es, q);
    lemma_sorted_of_finite(matched_roles(es, q));
}

proof fn lemma_near_title_set_finite(ws: Seq<WindowInfo>, f: WindowFilter, lowered: Seq<char>)
    ensures
        near_title_set(ws, f, lowered).finite(),
    decreases ws.len(),
{
    if ws.len() > 0 {
        lemma_near_title_set_finite(ws.drop_last(), f, lowered);
    }
}

/// The near-miss titles an empty-listing explanation offers are listed in
/// increasing order, each once, and are exactly the titles that carry the
/// text while the title glob rejects them.
pub proof fn law_near_miss_titles_sorted_unique(ws: Seq<WindowInfo>, f: WindowFilter, lowered: Seq<char>)
    ensures
        strictly_sorted(sorted_of(near_title_set(ws, f, lowered))),
        sorted_of(near_title_set(ws, f, lowered)).to_set() == near_title_set(ws, f, lowered),
{
    lemma_near_title_set_finite(ws, f, lowered);
    lemma_sorted_of_finite(near_title_set(ws, f, lowered));
}

// ───────────────────────── input ─────────────────────────

/// Whether a mouse event belongs to the left button.
pub open spec fn left_button(k: MouseEventKind) -> bool {
    k == MouseEventKind::LeftDown || k == MouseEventKind::LeftUp
}

/// Whether a mouse event presses a button.
pub open spec fn press(k: MouseEventKind) -> bool {
    k == MouseEventKind::LeftDown || k == MouseEventKind::RightDown
}

/// Whether a mouse event releases a button.
pub open spec fn release(k: MouseEventKind) -> bool {
    k == MouseEventKind::LeftUp || k == MouseEventKind::RightUp
}

/// A click presses and releases one button in turn, starting with a press:
/// the right button exactly for a right click that is not a double click,
/// the left button otherwise. A double click is two presses whose click
/// states count 1 then 2; a single click is one press with the click state
/// left as created.
pub proof fn law_click_buttons(double: bool, right: bool)
    ensures
        click_steps(double, right).len() == if double { 4int } else { 2int },
        forall|i: int|
            0 <= i < click_steps(double, right).len() ==> {
                let k = (#[trigger] click_steps(double, right)[i]).kind;
                &&& (left_button(k) <==> !(right && !double))
                &&& (k == MouseEventKind::RightDown || k == MouseEventKind::RightUp || left_button(k))
                &&& (press(k) <==> i % 2 == 0)
                &&& (release(k) <==> i % 2 == 1)
                &&& click_steps(double, right)[i].click_state == if double { i / 2 + 1 } else { 0 }
            },
{
}

/// Each named key has the macOS virtual key code of that key (the arrow keys
/// 123 left, 124 right, 125 down, 126 up; return 36, tab 48, space 49, ...),
/// with `enter`, `backspace` and `esc` as aliases of `return`, `delete` and
/// `escape`.
pub proof fn law_named_key_codes()
    ensures
        key_code_of("return"@) == Some(36u16),
        key_code_of("enter"@) == Some(36u16),
        key_code_of("tab"@) == Some(48u16),
        key_code_of("space"@) == Some(49u16),
        key_code_of("delete"@) == Some(51u16),
        key_code_of("backspace"@) == Some(51u16),
        key_code_of("escape"@) == Some(53u16),
        key_code_of("esc"@) == Some(53u16),
        key_code_of("left"@) == Some(123u16),
        key_code_of("right"@) == Some(124u16),
        key_code_of("down"@) == Some(125u16),
        key_code_of("up"@) == Some(126u16),
        key_code_of("home"@) == Some(115u16),
        key_code_of("end"@) == Some(119u16),
        key_code_of("pageup"@) == Some(116u16),
        key_code_of("pagedown"@) == Some(121u16),
        key_code_of("forwarddelete"@) == Some(117u16),
        key_code_of("f1"@) == Some(122u16),
        key_code_of("f2"@) == Some(120u16),
        key_code_of("f3"@) == Some(99u16),
        key_code_of("f4"@) == Some(118u16),
        key_code_of("f5"@) == Some(96u16),
        key_code_of("f6"@) == Some(97u16),
        key_code_of("f7"@) == Some(98u16),
        key_code_of("f8"@) == Some(100u16),
        key_code_of("f9"@) == Some(101u16),
        key_code_of("f10"@) == Some(109u16),
        key_code_of("f11"@) == Some(103u16),
        key_code_of("f12"@) == Some(111u16),
{
    lemma_editing_key_codes();
    lemma_arrow_key_codes();
    lemma_page_key_codes();
    lemma_low_function_key_codes();
    lemma_high_function_key_codes();
}

/// The key codes of the editing keys.
proof fn lemma_editing_key_codes()
    ensures
        key_code_of("return"@) == Some(36u16),
        key_code_of("enter"@) == Some(36u16),
        key_code_of("tab"@) == Some(48u16),
        key_code_of("space"@) == Some(49u16),
        key_code_of("delete"@) == Some(51u16),
        key_code_of("backspace"@) == Some(51u16),
        key_code_of("escape"@) == Some(53u16),
        key_code_of("esc"@) == Some(53u16),
{
    reveal_strlit("return");
    reveal_strlit("enter");
    reveal_strlit("tab");
    reveal_strlit("space");
    reveal_strlit("delete");
    reveal_strlit("backspace");
    reveal_strlit("escape");
    reveal_strlit("esc");
    assert("return"@.len() == 6 && "return"@[0] == 'r' && "return"@[1] == 'e');
    assert("enter"@.len() == 5 && "enter"@[0] == 'e' && "enter"@[1] == 'n');
    assert("tab"@.len() == 3 && "tab"@[0] == 't' && "tab"@[1] == 'a');
    assert("space"@.len() == 5 && "space"@[0] == 's' && "space"@[1] == 'p');
    assert("delete"@.len() == 6 && "delete"@[0] == 'd' && "delete"@[1] == 'e');
    assert("backspace"@.len() == 9 && "backspace"@[0] == 'b' && "backspace"@[1] == 'a');
    assert("escape"@.len() == 6 && "escape"@[0] == 'e' && "escape"@[1] == 's');
    assert("esc"@.len() == 3 && "esc"@[0] == 'e' && "esc"@[1] == 's');
}

/// The key codes of the arrow keys.
proof fn lemma_arrow_key_codes()
    ensures
        key_code_of("up"@) == Some(126u16),
        key_code_of("down"@) == Some(125u16),
        key_code_of("left"@) == Some(123u16),
        key_code_of("right"@) == Some(124u16),
{
    reveal_strlit("return");
    reveal_strlit("enter");
    reveal_strlit("tab");
    reveal_strlit("space");
    reveal_strlit("delete");
    reveal_strlit("backspace");
    reveal_strlit("escape");
    reveal_strlit("esc");
    reveal_strlit("up");
    reveal_strlit("down");
    reveal_strlit("left");
    reveal_strlit("right");
    assert("return"@.len() == 6 && "return"@[0] == 'r' && "return"@[1] == 'e');
    assert("enter"@.len() == 5 && "enter"@[0] == 'e' && "enter"@[1] == 'n');
    assert("tab"@.len() == 3 && "tab"@[0] == 't' && "tab"@[1] == 'a');
    assert("space"@.len() == 5 && "space"@[0] == 's' && "space"@[1] == 'p');
    assert("delete"@.len() == 6 && "delete"@[0] == 'd' && "delete"@[1] == 'e');
    assert("backspace"@.len() == 9 && "backspace"@[0] == 'b' && "backspace"@[1] == 'a');
    assert("escape"@.len() == 6 && "escape"@[0] == 'e' && "escape"@[1] == 's');
    assert("esc"@.len() == 3 && "esc"@[0] == 'e' && "esc"@[1] == 's');
    assert("up"@.len() == 2 && "up"@[0] == 'u' && "up"@[1] == 'p');
    assert("down"@.len() == 4 && "down"@[0] == 'd' && "down"@[1] == 'o');
    assert("left"@.len() == 4 && "left"@[0] == 'l' && "left"@[1] == 'e');
    assert("right"@.len() == 5 && "right"@[0] == 'r' && "right"@[1] == 'i');
}

/// The key codes of the paging keys.
proof fn lemma_page_key_codes()
    ensures
        key_code_of("home"@) == Some(115u16),
        key_code_of("end"@) == Some(119u16),
        key_code_of("pageup"@) == Some(116u16),
        key_code_of("pagedown"@) == Some(121u16),
        key_code_of("forwarddelete"@) == Some(117u16),
{
    reveal_strlit("return");
    reveal_strlit("enter");
    reveal_strlit("tab");
    reveal_strlit("space");
    reveal_strlit("delete");
    reveal_strlit("backspace");
    reveal_strlit("escape");
    reveal_strlit("esc");
    reveal_strlit("up");
    reveal_strlit("down");
    reveal_strlit("left");
    reveal_strlit("right");
    reveal_strlit("home");
    reveal_strlit("end");
    reveal_strlit("pageup");
    reveal_strlit("pagedown");
    reveal_strlit("forwarddelete");
    assert("return"@.len() == 6 && "return"@[0] == 'r' && "return"@[1] == 'e');
    assert("enter"@.len() == 5 && "enter"@[0] == 'e' && "enter"@[1] == 'n');
    assert("tab"@.len() == 3 && "tab"@[0] == 't' && "tab"@[1] == 'a');
    assert("space"@.len() == 5 && "space"@[0] == 's' && "space"@[1] == 'p');
    assert("delete"@.len() == 6 && "delete"@[0] == 'd' && "delete"@[1] == 'e');
    assert("backspace"@.len() == 9 && "backspace"@[0] == 'b' && "backspace"@[1] == 'a');
    assert("escape"@.len() == 6 && "escape"@[0] == 'e' && "escape"@[1] == 's');
    assert("esc"@.len() == 3 && "esc"@[0] == 'e' && "esc"@[1] == 's');
    assert("up"@.len() == 2 && "up"@[0] == 'u' && "up"@[1] == 'p');
    assert("down"@.len() == 4 && "down"@[0] == 'd' && "down"@[1] == 'o');
    assert("left"@.len() == 4 && "left"@[0] == 'l' && "left"@[1] == 'e');
    assert("right"@.len() == 5 && "right"@[0] == 'r' && "right"@[1] == 'i');
    assert("home"@.len() == 4 && "home"@[0] == 'h' && "home"@[1] == 'o');
    assert("end"@.len() == 3 && "end"@[0] == 'e' && "end"@[1] == 'n');
    assert("pageup"@.len() == 6 && "pageup"@[0] == 'p' && "pageup"@[1] == 'a');
    assert("pagedown"@.len() == 8 && "pagedown"@[0] == 'p' && "pagedown"@[1] == 'a');
    assert("forwarddelete"@.len() == 13 && "forwarddelete"@[0] == 'f' && "forwarddelete"@[1] == 'o');
}

/// The key codes of F1 to F6.
proof fn lemma_low_function_key_codes()
    ensures
        key_code_of("f1"@) == Some(122u16),
        key_code_of("f2"@) == Some(120u16),
        key_code_of("f3"@) == Some(99u16),
        key_code_of("f4"@) == Some(118u16),
        key_code_of("f5"@) == Some(96u16),
        key_code_of("f6"@) == Some(97u16),
{
    reveal_strlit("return");
    reveal_strlit("enter");
    reveal_strlit("tab");
    reveal_strlit("space");
    reveal_strlit("delete");
    reveal_strlit("backspace");
    reveal_strlit("escape");
    reveal_strlit("esc");
    reveal_strlit("up");
    reveal_strlit("down");
    reveal_strlit("left");
    reveal_strlit("right");
    reveal_strlit("home");
    reveal_strlit("end");
    reveal_strlit("pageup");
    reveal_strlit("pagedown");
    reveal_strlit("forwarddelete");
    reveal_strlit("f1");
    reveal_strlit("f2");
    reveal_strlit("f3");
    reveal_strlit("f4");
    reveal_strlit("f5");
    reveal_strlit("f6");
    assert("return"@.len() == 6 && "return"@[0] == 'r' && "return"@[1] == 'e');
    assert("enter"@.len() == 5 && "enter"@[0] == 'e' && "enter"@[1] == 'n');
    assert("tab"@.len() == 3 && "tab"@[0] == 't' && "tab"@[1] == 'a');
    assert("space"@.len() == 5 && "space"@[0] == 's' && "space"@[1] == 'p');
    assert("delete"@.len() == 6 && "delete"@[0] == 'd' && "delete"@[1] == 'e');
    assert("backspace"@.len() == 9 && "backspace"@[0] == 'b' && "backspace"@[1] == 'a');
    assert("escape"@.len() == 6 && "escape"@[0] == 'e' && "escape"@[1] == 's');
    assert("esc"@.len() == 3 && "esc"@[0] == 'e' && "esc"@[1] == 's');
    assert("up"@.len() == 2 && "up"@[0] == 'u' && "up"@[1] == 'p');
    assert("down"@.len() == 4 && "down"@[0] == 'd' && "down"@[1] == 'o');
    assert("left"@.len() == 4 && "left"@[0] == 'l' && "left"@[1] == 'e');
    assert("right"@.len() == 5 && "right"@[0] == 'r' && "right"@[1] == 'i');
    assert("home"@.len() == 4 && "home"@[0] == 'h' && "home"@[1] == 'o');
    assert("end"@.len() == 3 && "end"@[0] == 'e' && "end"@[1] == 'n');
    assert("pageup"@.len() == 6 && "pageup"@[0] == 'p' && "pageup"@[1] == 'a');
    assert("pagedown"@.len() == 8 && "pagedown"@[0] == 'p' && "pagedown"@[1] == 'a');
    assert("forwarddelete"@.len() == 13 && "forwarddelete"@[0] == 'f' && "forwarddelete"@[1] == 'o');
    assert("f1"@.len() == 2 && "f1"@[0] == 'f' && "f1"@[1] == '1');
    assert("f2"@.len() == 2 && "f2"@[0] == 'f' && "f2"@[1] == '2');
    assert("f3"@.len() == 2 && "f3"@[0] == 'f' && "f3"@[1] == '3');
    assert("f4"@.len() == 2 && "f4"@[0] == 'f' && "f4"@[1] == '4');
    assert("f5"@.len() == 2 && "f5"@[0] == 'f' && "f5"@[1] == '5');
    assert("f6"@.len() == 2 && "f6"@[0] == 'f' && "f6"@[1] == '6');
}

/// The key codes of F7 to F12.
proof fn lemma_high_function_key_codes()
    ensures
        key_code_of("f7"@) == Some(98u16),
        key_code_of("f8"@) == Some(100u16),
        key_code_of("f9"@) == Some(101u16),
        key_code_of("f10"@) == Some(109u16),
        key_code_of("f11"@) == Some(103u16),
        key_code_of("f12"@) == Some(111u16),
{
    reveal_strlit("return");
    reveal_strlit("enter");
    reveal_strlit("tab");
    reveal_strlit("space");
    reveal_strlit("delete");
    reveal_strlit("backspace");
    reveal_strlit("escape");
    reveal_strlit("esc");
    reveal_strlit("up");
    reveal_strlit("down");
    reveal_strlit("left");
    reveal_strlit("right");
    reveal_strlit("home");
    reveal_strlit("end");
    reveal_strlit("pageup");
    reveal_strlit("pagedown");
    reveal_strlit("forwarddelete");
    reveal_strlit("f1");
    reveal_strlit("f2");
    reveal_strlit("f3");
    reveal_strlit("f4");
    reveal_strlit("f5");
    reveal_strlit("f6");
    reveal_strlit("f7");
    reveal_strlit("f8");
    reveal_strlit("f9");
    reveal_strlit("f10");
    reveal_strlit("f11");
    reveal_strlit("f12");
    assert("return"@.len() == 6 && "return"@[0] == 'r' && "return"@[1] == 'e');
    assert("enter"@.len() == 5 && "enter"@[0] == 'e' && "enter"@[1] == 'n');
    assert("tab"@.len() == 3 && "tab"@[0] == 't' && "tab"@[1] == 'a');
    assert("space"@.len() == 5 && "space"@[0] == 's' && "space"@[1] == 'p');
    assert("delete"@.len() == 6 && "delete"@[0] == 'd' && "delete"@[1] == 'e');
    assert("backspace"@.len() == 9 && "backspace"@[0] == 'b' && "backspace"@[1] == 'a');
    assert("escape"@.len() == 6 && "escape"@[0] == 'e' && "escape"@[1] == 's');
    assert("esc"@.len() == 3 && "esc"@[0] == 'e' && "esc"@[1] == 's');
    assert("up"@.len() == 2 && "up"@[0] == 'u' && "up"@[1] == 'p');
    assert("down"@.len() == 4 && "down"@[0] == 'd' && "down"@[1] == 'o');
    assert("left"@.len() == 4 && "left"@[0] == 'l' && "left"@[1] == 'e');
    assert("right"@.len() == 5 && "right"@[0] == 'r' && "right"@[1] == 'i');
    assert("home"@.len() == 4 && "home"@[0] == 'h' && "home"@[1] == 'o');
    assert("end"@.len() == 3 && "end"@[0] == 'e' && "end"@[1] == 'n');
    assert("pageup"@.len() == 6 && "pageup"@[0] == 'p' && "pageup"@[1] == 'a');
    assert("pagedown"@.len() == 8 && "pagedown"@[0] == 'p' && "pagedown"@[1] == 'a');
    assert("forwarddelete"@.len() == 13 && "forwarddelete"@[0] == 'f' && "forwarddelete"@[1] == 'o');
    assert("f1"@.len() == 2 && "f1"@[0] == 'f' && "f1"@[1] == '1');
    assert("f2"@.len() == 2 && "f2"@[0] == 'f' && "f2"@[1] == '2');
    assert("f3"@.len() == 2 && "f3"@[0] == 'f' && "f3"@[1] == '3');
    assert("f4"@.len() == 2 && "f4"@[0] == 'f' && "f4"@[1] == '4');
    assert("f5"@.len() == 2 && "f5"@[0] == 'f' && "f5"@[1] == '5');
    assert("f6"@.len() == 2 && "f6"@[0] == 'f' && "f6"@[1] == '6');
    assert("f7"@.len() == 2 && "f7"@[0] == 'f' && "f7"@[1] == '7');
    assert("f8"@.len() == 2 && "f8"@[0] == 'f' && "f8"@[1] == '8');
    assert("f9"@.len() == 2 && "f9"@[0] == 'f' && "f9"@[1] == '9');
    assert("f10"@.len() == 3 && "f10"@[0] == 'f' && "f10"@[1] == '1' && "f10"@[2] == '0');
    assert("f11"@.len() == 3 && "f11"@[0] == 'f' && "f11"@[1] == '1' && "f11"@[2] == '1');
    assert("f12"@.len() == 3 && "f12"@[0] == 'f' && "f12"@[1] == '1' && "f12"@[2] == '2');
}

/// Two names share a key code only when they name the same key: the same
/// name, or one of the aliases `return`/`enter`, `delete`/`backspace`,
/// `escape`/`esc`.
pub proof fn law_key_codes_tell_keys_apart(a: Seq<char>, b: Seq<char>)
    requires
        key_code_of(a) is Some,
        key_code_of(a) == key_code_of(b),
    ensures
        a == b || ({
            ||| (a == "return"@ || a == "enter"@) && (b == "return"@ || b == "enter"@)
            ||| (a == "delete"@ || a == "backspace"@) && (b == "delete"@ || b == "backspace"@)
            ||| (a == "escape"@ || a == "esc"@) && (b == "escape"@ || b == "esc"@)
        }),
{
}

// ───────────────────────── click targets ─────────────────────────

/// Each of the twelve documented actionable roles is actionable, whether
/// compared as roles compare or, being ASCII, by their ASCII lowercase.
pub proof fn law_documented_roles_are_actionable()
    ensures
        actionable("AXButton"@) && ascii_actionable("AXButton"@),
        actionable("AXMenuItem"@) && ascii_actionable("AXMenuItem"@),
        actionable("AXMenuBarItem"@) && ascii_actionable("AXMenuBarItem"@),
        actionable("AXMenuButton"@) && ascii_actionable("AXMenuButton"@),
        actionable("AXPopUpButton"@) && ascii_actionable("AXPopUpButton"@),
        actionable("AXCheckBox"@) && ascii_actionable("AXCheckBox"@),
        actionable("AXRadioButton"@) && ascii_actionable("AXRadioButton"@),
        actionable("AXDisclosureTriangle"@) && ascii_actionable("AXDisclosureTriangle"@),
        actionable("AXLink"@) && ascii_actionable("AXLink"@),
        actionable("AXTextField"@) && ascii_actionable("AXTextField"@),
        actionable("AXTextArea"@) && ascii_actionable("AXTextArea"@),
        actionable("AXComboBox"@) && ascii_actionable("AXComboBox"@),
{
    let rs = actionable_roles();
    assert forall|i: int| 0 <= i < 12 implies role_match(rs[i], rs[i]) && ascii_role_match(rs[i], rs[i]) by {}
    assert(role_match(rs[0], "AXButton"@) && ascii_role_match(rs[0], "AXButton"@));
    assert(role_match(rs[1], "AXMenuItem"@) && ascii_role_match(rs[1], "AXMenuItem"@));
    assert(role_match(rs[2], "AXMenuBarItem"@) && ascii_role_match(rs[2], "AXMenuBarItem"@));
    assert(role_match(rs[3], "AXMenuButton"@) && ascii_role_match(rs[3], "AXMenuButton"@));
    assert(role_match(rs[4], "AXPopUpButton"@) && ascii_role_match(rs[4], "AXPopUpButton"@));
    assert(role_match(rs[5], "AXCheckBox"@) && ascii_role_match(rs[5], "AXCheckBox"@));
    assert(role_match(rs[6], "AXRadioButton"@) && ascii_role_match(rs[6], "AXRadioButton"@));
    assert(role_match(rs[7], "AXDisclosureTriangle"@) && ascii_role_match(rs[7], "AXDisclosureTriangle"@));
    assert(role_match(rs[8], "AXLink"@) && ascii_role_match(rs[8], "AXLink"@));
    assert(role_match(rs[9], "AXTextField"@) && ascii_role_match(rs[9], "AXTextField"@));
    assert(role_match(rs[10], "AXTextArea"@) && ascii_role_match(rs[10], "AXTextArea"@));
    assert(role_match(rs[11], "AXComboBox"@) && ascii_role_match(rs[11], "AXComboBox"@));
}

// ───────────────────────── text output ─────────────────────────

/// A text starts with its first part.
proof fn lemma_starts_with_concat(a: Seq<char>, b: Seq<char>)
    ensures
        starts_with(a + b, a),
{
    assert((a + b).subrange(0, a.len() as int) =~= a);
}

/// A text ends with its last part.
proof fn lemma_ends_with_concat(a: Seq<char>, b: Seq<char>)
    ensures
        ends_with(a + b, b),
{
    assert((a + b).subrange(a.len() as int, (a + b).len() as int) =~= b);
}

/// The window listing is a header naming the columns WID, PID, TITLE and
/// W x H, then one line per window, in order, that begins with the window's
/// own ID padded to 8, then its PID padded to 8, then its title shortened to
/// 40 bytes and padded to 40, then its size; an empty listing says so.
pub proof fn law_window_rows_lead_with_id_then_pid(
    ws: Seq<WindowInfo>,
    widths: Seq<Seq<char>>,
    heights: Seq<Seq<char>>,
)
    requires
        widths.len() == ws.len(),
        heights.len() == ws.len(),
    ensures
        ws.len() == 0 ==> windows_text(ws, widths, heights) == "No windows found."@,
        ws.len() > 0 ==> exists|lines: Seq<Seq<char>>|
            {
                &&& #[trigger] join(lines, "\n"@) == windows_text(ws, widths, heights)
                &&& lines.len() == ws.len() + 1
                &&& lines[0] == pad_end("WID"@, 8) + " "@ + pad_end("PID"@, 8) + " "@ + pad_end("TITLE"@, 40)
                    + " "@ + pad_start("W"@, 6) + "x"@ + pad_end("H"@, 6)
                &&& forall|i: int|
                    0 <= i < ws.len() ==> #[trigger] lines[i + 1] == pad_end(decimal(ws[i].window_id as nat), 8)
                        + " "@ + pad_end(decimal(ws[i].pid as nat), 8) + " "@ + pad_end(
                        truncated(ws[i].title@, 40),
                        40,
                    ) + " "@ + pad_start(widths[i], 6) + "x"@ + pad_end(heights[i], 6)
            },
{
    if ws.len() > 0 {
        let lines = seq![windows_header()] + Seq::new(
            ws.len(),
            |i: int| window_row(ws[i], widths[i], heights[i]),
        );
        assert forall|i: int| 0 <= i < ws.len() implies #[trigger] lines[i + 1] == window_row(
            ws[i],
            widths[i],
            heights[i],
        ) by {}
        assert(join(lines, "\n"@) == windows_text(ws, widths, heights));
    }
}

/// The tree listing has one line per node, depth-first; each line is the
/// node's role indented two spaces per level, then its best label in double
/// quotes (the title; else the description; else the identifier; none when
/// all three are missing or empty), then its rendered frame where it has one.
pub proof fn law_tree_lines_show_best_label(root: AXElement, frames: Seq<Option<Seq<char>>>)
    requires
        frames.len() == tree_entries(root, 0).len(),
    ensures
        exists|lines: Seq<Seq<char>>|
            {
                &&& #[trigger] join(lines, "\n"@) == tree_text(root, frames)
                &&& lines.len() == tree_entries(root, 0).len()
                &&& forall|i: int| 0 <= i < lines.len() ==> #[trigger] tree_line_shows(
                    lines[i],
                    tree_entries(root, 0)[i].0,
                    tree_entries(root, 0)[i].1,
                    frames[i],
                )
            },
{
    let es = tree_entries(root, 0);
    let lines = tree_lines(es, frames);
    assert forall|i: int| 0 <= i < lines.len() implies #[trigger] tree_line_shows(lines[i], es[i].0, es[i].1, frames[i]) by {
        lemma_tree_line_shows(es[i].0, es[i].1, frames[i]);
    }
    assert(join(lines, "\n"@) == tree_text(root, frames));
}

/// Whether `line` shows node `e` at `depth` with the rendered frame `frame`,
/// as the tree listing promises: it begins with the indented role and the
/// quoted title when there is a non-empty one, else the quoted non-empty
/// description, else the quoted non-empty identifier, else the role alone;
/// and it ends with a space and the frame where there is one.
pub open spec fn tree_line_shows(line: Seq<char>, e: AXElement, depth: nat, frame: Option<Seq<char>>) -> bool {
    let head = spaces(2 * depth) + e.role@;
    let title = nonempty_text(e.title);
    let description = nonempty_text(e.description);
    let identifier = nonempty_text(e.identifier);
    &&& title is Some ==> starts_with(line, head + " \""@ + title->0 + "\""@)
    &&& title is None && description is Some ==> starts_with(line, head + " \""@ + description->0 + "\""@)
    &&& title is None && description is None && identifier is Some ==> starts_with(
        line,
        head + " \""@ + identifier->0 + "\""@,
    )
    &&& title is None && description is None && identifier is None ==> line == match frame {
        Some(f) => head + " "@ + f,
        None => head,
    }
    &&& frame is Some ==> ends_with(line, " "@ + frame->0)
}

/// The text of an optional field, where it is present and not empty.
pub open spec fn nonempty_text(field: Option<String>) -> Option<Seq<char>> {
    match field {
        Some(s) => if s@.len() > 0 {
            Some(s@)
        } else {
            None
        },
        None => None,
    }
}

proof fn lemma_tree_line_shows(e: AXElement, depth: nat, frame: Option<Seq<char>>)
    ensures
        tree_line_shows(tree_line(e, depth, frame), e, depth, frame),
{
    let head = spaces(2 * depth) + e.role@;
    let line = tree_line(e, depth, frame);
    let b = match crate::output::tree_label(e) {
        Some(l) => head + " \""@ + l + "\""@,
        None => head,
    };
    match frame {
        Some(f) => {
            lemma_starts_with_concat(b, " "@ + f);
            lemma_ends_with_concat(b, " "@ + f);
            assert(line =~= b + (" "@ + f));
        },
        None => {
            lemma_starts_with_concat(b, Seq::empty());
            assert(b + Seq::<char>::empty() =~= b);
        },
    }
    if starts_with(line, b) {
        match crate::output::tree_label(e) {
            Some(l) => {
                let p = head + " \""@ + l + "\""@;
                assert(b == p);
            },
            None => {},
        }
    }
}

} // verus!
