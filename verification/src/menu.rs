//! An application's menu bar: which item a path level names, what reading an
//! item's state is allowed to open, and how that state is shown.
use vstd::prelude::*;

use crate::error::LokiError;
use crate::query::{auto_wrap, auto_wrap_pattern, glob_match, glob_matches};
use crate::targets::title_is;
use crate::text::{chars_of, ends_with, join, join_strings, own, str_eq, string_from_range, views};

verus! {

// ───────────────────────── matching a path level ─────────────────────────

/// `s` without a trailing ellipsis, written as `…` or as `...`.
pub open spec fn strip_ellipsis(s: Seq<char>) -> Seq<char> {
    if ends_with(s, seq!['…']) {
        s.drop_last()
    } else if ends_with(s, seq!['.', '.', '.']) {
        s.take(s.len() - 3)
    } else {
        s
    }
}

fn strip_ellipsis_exec(s: &str) -> (r: String)
    ensures
        r@ == strip_ellipsis(s@),
{
    let cs = chars_of(s);
    let n = cs.len();
    if n >= 1 && cs[n - 1] == '…' {
        proof {
            assert(cs@.subrange(n - 1, n as int) =~= seq!['…']);
            assert(cs@.subrange(0, n - 1) =~= cs@.drop_last());
        }
        string_from_range(&cs, 0, n - 1)
    } else if n >= 3 && cs[n - 3] == '.' && cs[n - 2] == '.' && cs[n - 1] == '.' {
        proof {
            assert(!ends_with(cs@, seq!['…'])) by {
                if ends_with(cs@, seq!['…']) {
                    assert(cs@.subrange(n - 1, n as int)[0] == cs@[n - 1]);
                }
            }
            assert(cs@.subrange(n - 3, n as int) =~= seq!['.', '.', '.']);
            assert(cs@.subrange(0, n - 3) =~= cs@.take(n - 3));
        }
        string_from_range(&cs, 0, n - 3)
    } else {
        proof {
            if n >= 1 && ends_with(cs@, seq!['…']) {
                assert(cs@.subrange(n - 1, n as int)[0] == cs@[n - 1]);
            }
            if n >= 3 && ends_with(cs@, seq!['.', '.', '.']) {
                assert(cs@.subrange(n - 3, n as int)[0] == cs@[n - 3]);
                assert(cs@.subrange(n - 3, n as int)[1] == cs@[n - 2]);
                assert(cs@.subrange(n - 3, n as int)[2] == cs@[n - 1]);
            }
        }
        own(s)
    }
}

/// The loose match of a path level against an item title: both without a
/// trailing ellipsis, the level matched as `--title` matches (a bare level as a
/// case-insensitive substring, one with glob metacharacters as a glob).
pub open spec fn loose_title_match(level: Seq<char>, title: Seq<char>) -> bool {
    glob_match(auto_wrap(strip_ellipsis(level)), strip_ellipsis(title))
}

/// Whether an optional item title matches a level loosely.
pub open spec fn loose_title_is(title: Option<String>, level: Seq<char>) -> bool {
    title matches Some(t) && loose_title_match(level, t@)
}

/// The item a path level names among items given by their titles in order:
/// the first titled exactly `level`, else the first that matches it loosely.
pub open spec fn menu_choice(titles: Seq<Option<String>>, level: Seq<char>, r: Option<usize>) -> bool {
    if exists|i: int| 0 <= i < titles.len() && title_is(#[trigger] titles[i], level) {
        r matches Some(i) && i < titles.len() && title_is(titles[i as int], level) && forall|j: int|
            0 <= j < i ==> !title_is(#[trigger] titles[j], level)
    } else if exists|i: int| 0 <= i < titles.len() && loose_title_is(#[trigger] titles[i], level) {
        r matches Some(i) && i < titles.len() && loose_title_is(titles[i as int], level) && forall|j: int|
            0 <= j < i ==> !loose_title_is(#[trigger] titles[j], level)
    } else {
        r is None
    }
}

/// Pick the item a path level names: exact title first, then a loose match
/// (case-insensitive substring or glob, ignoring a trailing ellipsis — so
/// `Save As` finds `Save As…`). `None` when nothing matches.
pub fn menu_item_index(titles: &Vec<Option<String>>, level: &str) -> (r: Option<usize>)
    ensures
        menu_choice(titles@, level@, r),
{
    let mut i: usize = 0;
    while i < titles.len()
        invariant
            i <= titles@.len(),
            forall|j: int| 0 <= j < i ==> !title_is(#[trigger] titles@[j], level@),
        decreases titles@.len() - i,
    {
        if let Some(t) = &titles[i] {
            if str_eq(t.as_str(), level) {
                return Some(i);
            }
        }
        i += 1;
    }
    let loose_level = auto_wrap_pattern(strip_ellipsis_exec(level).as_str());
    let mut k: usize = 0;
    while k < titles.len()
        invariant
            k <= titles@.len(),
            loose_level@ == auto_wrap(strip_ellipsis(level@)),
            forall|j: int| 0 <= j < titles@.len() ==> !title_is(#[trigger] titles@[j], level@),
            forall|j: int| 0 <= j < k ==> !loose_title_is(#[trigger] titles@[j], level@),
        decreases titles@.len() - k,
    {
        if let Some(t) = &titles[k] {
            let stripped = strip_ellipsis_exec(t.as_str());
            if glob_matches(loose_level.as_str(), stripped.as_str()) {
                proof {
                    assert(loose_title_is(titles@[k as int], level@));
                }
                return Some(k);
            }
        }
        k += 1;
    }
    None
}

/// The titles offered when a level matches nothing: the non-empty ones, in order.
pub open spec fn offered_titles(titles: Seq<Option<String>>) -> Seq<Seq<char>>
    decreases titles.len(),
{
    if titles.len() == 0 {
        Seq::empty()
    } else {
        let rest = offered_titles(titles.drop_last());
        match titles.last() {
            Some(t) => if t@.len() > 0 {
                rest.push(t@)
            } else {
                rest
            },
            None => rest,
        }
    }
}

/// The error for a level that no item matches, listing the titles available
/// at that level.
pub fn menu_item_missing(level: &str, titles: &Vec<Option<String>>) -> (r: LokiError)
    ensures
        r matches LokiError::ElementNotFound(m) && m@ == "no menu item matches '"@ + level@
            + "' — available: "@ + join(offered_titles(titles@), ", "@),
{
    let mut offered: Vec<String> = Vec::new();
    let mut i: usize = 0;
    while i < titles.len()
        invariant
            i <= titles@.len(),
            views(offered@) == offered_titles(titles@.take(i as int)),
        decreases titles@.len() - i,
    {
        proof {
            assert(titles@.take(i + 1).drop_last() =~= titles@.take(i as int));
        }
        if let Some(t) = &titles[i] {
            if !t.as_str().is_empty() {
                let ghost before = views(offered@);
                offered.push(t.clone());
                proof {
                    assert(views(offered@) =~= before.push(t@));
                }
            }
        }
        i += 1;
    }
    proof {
        assert(titles@.take(i as int) =~= titles@);
    }
    let mut m = own("no menu item matches '");
    m.append(level);
    m.append("' — available: ");
    m.append(join_strings(&offered, ", ").as_str());
    LokiError::ElementNotFound(m)
}

/// The child that is an item's submenu, among its children given by their
/// roles in order: the first whose role is `AXMenu`.
pub fn submenu_index(roles: &Vec<Option<String>>) -> (r: Option<usize>)
    ensures
        match r {
            Some(i) => i < roles@.len() && title_is(roles@[i as int], "AXMenu"@) && forall|j: int|
                0 <= j < i ==> !title_is(#[trigger] roles@[j], "AXMenu"@),
            None => forall|j: int| 0 <= j < roles@.len() ==> !title_is(#[trigger] roles@[j], "AXMenu"@),
        },
{
    let mut i: usize = 0;
    while i < roles.len()
        invariant
            i <= roles@.len(),
            forall|j: int| 0 <= j < i ==> !title_is(#[trigger] roles@[j], "AXMenu"@),
        decreases roles@.len() - i,
    {
        if let Some(r) = &roles[i] {
            if str_eq(r.as_str(), "AXMenu") {
                return Some(i);
            }
        }
        i += 1;
    }
    None
}

/// Whether the walk may press an item to make its menu populate: only an item
/// that owns a submenu and reads empty. A leaf is never pressed to look at it —
/// pressing a leaf runs its command.
pub fn open_to_populate(owns_submenu: bool, reads_empty: bool) -> (r: bool)
    ensures
        r == (owns_submenu && reads_empty),
        !owns_submenu ==> !r,
{
    owns_submenu && reads_empty
}

// ───────────────────────── menu state ─────────────────────────

/// A menu item as `menu-state` reports it.
#[derive(Debug, Clone)]
pub struct MenuItem {
    pub title: String,
    /// The mark character shown beside the item (`✓`, `•`, …), if any.
    pub mark: Option<String>,
    pub enabled: bool,
    pub has_submenu: bool,
}

/// An item and its immediate children, separators left out.
#[derive(Debug, Clone)]
pub struct MenuState {
    pub item: MenuItem,
    pub children: Vec<MenuItem>,
}

/// Whether the item carries a mark.
pub open spec fn is_marked(item: MenuItem) -> bool {
    item.mark matches Some(m) && m@.len() > 0
}

/// Whether an item is a separator: separators have no title.
pub open spec fn is_separator(item: MenuItem) -> bool {
    item.title@.len() == 0
}

/// The items of `items` that are not separators, in order.
pub open spec fn without_separators_spec(items: Seq<MenuItem>) -> Seq<MenuItem>
    decreases items.len(),
{
    if items.len() == 0 {
        Seq::empty()
    } else {
        let rest = without_separators_spec(items.drop_last());
        if is_separator(items.last()) {
            rest
        } else {
            rest.push(items.last())
        }
    }
}

fn copy_item(item: &MenuItem) -> (r: MenuItem)
    ensures
        r == *item,
{
    MenuItem {
        title: item.title.clone(),
        mark: crate::text::clone_opt(&item.mark),
        enabled: item.enabled,
        has_submenu: item.has_submenu,
    }
}

/// The children `menu-state` lists: all but the separators.
pub fn without_separators(items: &Vec<MenuItem>) -> (r: Vec<MenuItem>)
    ensures
        r@ == without_separators_spec(items@),
{
    let mut out: Vec<MenuItem> = Vec::new();
    let mut i: usize = 0;
    while i < items.len()
        invariant
            i <= items@.len(),
            out@ == without_separators_spec(items@.take(i as int)),
        decreases items@.len() - i,
    {
        proof {
            assert(items@.take(i + 1).drop_last() =~= items@.take(i as int));
        }
        if !items[i].title.as_str().is_empty() {
            out.push(copy_item(&items[i]));
        }
        i += 1;
    }
    proof {
        assert(items@.take(i as int) =~= items@);
    }
    out
}

/// The suffixes after an item's title: ` (disabled)`, then ` (submenu)`.
pub open spec fn item_suffixes(item: MenuItem) -> Seq<char> {
    (if item.enabled {
        Seq::empty()
    } else {
        " (disabled)"@
    }) + (if item.has_submenu {
        " (submenu)"@
    } else {
        Seq::empty()
    })
}

/// A child's line: indented, `✓ ` when marked (two spaces otherwise), the
/// title and its suffixes.
pub open spec fn child_line(item: MenuItem) -> Seq<char> {
    "  "@ + (if is_marked(item) {
        "✓ "@
    } else {
        "  "@
    }) + item.title@ + item_suffixes(item)
}

/// The text form of a menu state: the item's title with its suffixes, then a
/// line per child.
pub open spec fn menu_state_text_spec(state: MenuState) -> Seq<char> {
    join(
        seq![state.item.title@ + item_suffixes(state.item)] + state.children@.map_values(
            |c: MenuItem| child_line(c),
        ),
        "\n"@,
    )
}

fn suffixes_exec(item: &MenuItem, s: &mut String)
    ensures
        final(s)@ == old(s)@ + item_suffixes(*item),
{
    let ghost start = s@;
    if !item.enabled {
        s.append(" (disabled)");
    }
    if item.has_submenu {
        s.append(" (submenu)");
    }
    proof {
        assert(s@ =~= start + item_suffixes(*item));
    }
}

/// Whether an item carries a mark (a non-empty mark character).
pub fn marked(item: &MenuItem) -> (r: bool)
    ensures
        r == is_marked(*item),
{
    match &item.mark {
        Some(m) => !m.as_str().is_empty(),
        None => false,
    }
}

/// Format a menu state as text, e.g. `Theme (submenu)` followed by
/// `  ✓ Light`, `    Dark`, `    System (disabled)`.
pub fn menu_state_text(state: &MenuState) -> (r: String)
    ensures
        r@ == menu_state_text_spec(*state),
{
    let mut lines: Vec<String> = Vec::new();
    let mut head = state.item.title.clone();
    suffixes_exec(&state.item, &mut head);
    lines.push(head);
    let mut i: usize = 0;
    while i < state.children.len()
        invariant
            i <= state.children@.len(),
            views(lines@) =~= seq![state.item.title@ + item_suffixes(state.item)] + state.children@.take(
                i as int,
            ).map_values(|c: MenuItem| child_line(c)),
        decreases state.children@.len() - i,
    {
        let c = &state.children[i];
        let mut l = own("  ");
        if marked(c) {
            l.append("✓ ");
        } else {
            l.append("  ");
        }
        l.append(c.title.as_str());
        suffixes_exec(c, &mut l);
        let ghost before = views(lines@);
        lines.push(l);
        proof {
            assert(state.children@.take(i + 1).map_values(|c: MenuItem| child_line(c)) =~= state.children@.take(
                i as int,
            ).map_values(|c: MenuItem| child_line(c)).push(child_line(state.children@[i as int])));
            assert(views(lines@) =~= before.push(child_line(state.children@[i as int])));
        }
        i += 1;
    }
    proof {
        assert(state.children@.take(i as int) =~= state.children@);
    }
    join_strings(&lines, "\n")
}

} // verus!
