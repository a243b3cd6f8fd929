//! Element queries over the accessibility tree and window filters.
use vstd::prelude::*;

use crate::element::{AXElement, WindowInfo, childless_copy_of};
use crate::text::{
    ascii_lower, ascii_lower_chars, chars_of, concat3, contains_chars, contains_seq, has_char,
    own, starts_with, starts_with_chars, str_eq, to_lowercase, unicode_lowercase, ascii_text,
};

verus! {

// ───────────────────────── glob matching ─────────────────────────

/// Whether `glob::Pattern::new` accepts `pattern`.
pub uninterp spec fn glob_compiles(pattern: Seq<char>) -> bool;

/// What `Pattern::matches_with` returns for the pattern compiled from
/// `pattern` against `value`, under the match options given by the three flags
/// (`case_sensitive`, `require_literal_separator`,
/// `require_literal_leading_dot`).
pub uninterp spec fn glob_matches_compiled(
    pattern: Seq<char>,
    value: Seq<char>,
    case_sensitive: bool,
    literal_separator: bool,
    literal_leading_dot: bool,
) -> bool;

/// How a text pattern is matched against a value: the three match options of
/// the glob crate, as plain flags.
#[derive(Debug, Clone, Copy)]
pub struct TextMatchOptions {
    /// Whether letters must agree in case.
    pub case_sensitive: bool,
    /// Whether a path separator must be matched by a literal separator.
    pub require_literal_separator: bool,
    /// Whether a leading `.` must be matched by a literal `.`.
    pub require_literal_leading_dot: bool,
}

/// The options of every text query: titles, labels, values and descriptions
/// are human-facing text where case is presentation, not identity, so case is
/// folded; they are not paths, so both path options are off.
pub open spec fn text_match() -> TextMatchOptions {
    TextMatchOptions {
        case_sensitive: false,
        require_literal_separator: false,
        require_literal_leading_dot: false,
    }
}

/// The options of every text query (see `text_match`).
pub fn text_match_options() -> (r: TextMatchOptions)
    ensures
        r == text_match(),
{
    TextMatchOptions {
        case_sensitive: false,
        require_literal_separator: false,
        require_literal_leading_dot: false,
    }
}

/// Whether `o` folds case and leaves both path options off.
pub open spec fn folds_case_only(o: TextMatchOptions) -> bool {
    !o.case_sensitive && !o.require_literal_separator && !o.require_literal_leading_dot
}

/// A character that a glob pattern reads as itself alone: an ASCII letter or
/// digit, a space, `-`, `.` or `_`.
pub open spec fn plain_glob_char(c: char) -> bool {
    ||| ('a' <= c && c <= 'z')
    ||| ('A' <= c && c <= 'Z')
    ||| ('0' <= c && c <= '9')
    ||| c == ' '
    ||| c == '-'
    ||| c == '.'
    ||| c == '_'
}

/// Text made of plain glob characters only.
pub open spec fn plain_glob_text(p: Seq<char>) -> bool {
    forall|i: int| 0 <= i < p.len() ==> plain_glob_char(#[trigger] p[i])
}

/// A pattern of the form `*text*` whose text is non-empty and plain.
pub open spec fn plain_substring_glob(p: Seq<char>) -> bool {
    &&& p.len() >= 3
    &&& p[0] == '*'
    &&& p[p.len() - 1] == '*'
    &&& plain_glob_text(p.subrange(1, p.len() - 1))
}

/// Compiles `pattern` with `glob::Pattern::new` and, when it compiles, matches
/// `value` with `Pattern::matches_with` under `options`, converted field for
/// field into `glob::MatchOptions`. `None` when the pattern does not compile.
/// Beyond naming both outcomes, the contract claims two cases that the
/// crate's source settles: with case folded and both path options off,
/// `*text*` with plain text compiles to a sequence wildcard, one literal per
/// character and a sequence wildcard, and so matches exactly the values that
/// contain the text up to ASCII case; under any options the empty pattern
/// compiles to no token and matches only the empty value.
#[verifier::external_body]
fn glob_try_match(pattern: &str, value: &str, options: TextMatchOptions) -> (r: Option<bool>)
    ensures
        r is Some <==> glob_compiles(pattern@),
        r matches Some(b) ==> b == glob_matches_compiled(
            pattern@,
            value@,
            options.case_sensitive,
            options.require_literal_separator,
            options.require_literal_leading_dot,
        ),
        folds_case_only(options) && plain_substring_glob(pattern@) ==> r == Some(
            folded_contains(value@, pattern@.subrange(1, pattern@.len() - 1)),
        ),
        pattern@.len() == 0 ==> r == Some(value@.len() == 0),
{
    let options = glob::MatchOptions {
        case_sensitive: options.case_sensitive,
        require_literal_separator: options.require_literal_separator,
        require_literal_leading_dot: options.require_literal_leading_dot,
    };
    match glob::Pattern::new(pattern) {
        Ok(p) => Some(p.matches_with(value, options)),
        Err(_) => None,
    }
}

/// The fallback for a pattern that does not compile: an ASCII-case-folded
/// substring test.
pub open spec fn folded_contains(value: Seq<char>, pattern: Seq<char>) -> bool {
    contains_seq(ascii_lower(value), ascii_lower(pattern))
}

/// Whether `value` matches the text pattern `pattern`: the glob crate's
/// verdict under the text-query options (`text_match`) when the pattern
/// compiles, otherwise the ASCII-case-folded substring test.
pub open spec fn glob_match(pattern: Seq<char>, value: Seq<char>) -> bool {
    if glob_compiles(pattern) {
        glob_matches_compiled(
            pattern,
            value,
            text_match().case_sensitive,
            text_match().require_literal_separator,
            text_match().require_literal_leading_dot,
        )
    } else {
        folded_contains(value, pattern)
    }
}

/// Decides a text match from what the glob crate said: its verdict when the
/// pattern compiled (`Some`), otherwise the ASCII-case-folded substring test.
pub fn glob_outcome(pattern: &str, value: &str, compiled: Option<bool>) -> (r: bool)
    ensures
        r == match compiled {
            Some(b) => b,
            None => folded_contains(value@, pattern@),
        },
{
    match compiled {
        Some(b) => b,
        None => contains_chars(
            &ascii_lower_chars(&chars_of(value)),
            &ascii_lower_chars(&chars_of(pattern)),
        ),
    }
}

/// Check if a string matches a glob pattern. **Case-insensitive**.
///
/// Titles, labels, values and descriptions are human-facing strings where case
/// is presentation, not identity. Folding is ASCII-only, and an alphabetic
/// character range matches both cases. A pattern that does not compile falls
/// back to an ASCII-case-folded substring test, so both paths agree on case.
pub fn glob_matches(pattern: &str, value: &str) -> (r: bool)
    ensures
        r == glob_match(pattern@, value@),
        plain_substring_glob(pattern@) ==> r == folded_contains(
            value@,
            pattern@.subrange(1, pattern@.len() - 1),
        ),
        pattern@.len() == 0 ==> r == (value@.len() == 0),
{
    let compiled = glob_try_match(pattern, value, text_match_options());
    glob_outcome(pattern, value, compiled)
}

/// A glob test of an optional field: absent never matches.
pub open spec fn field_glob(pattern: Seq<char>, field: Option<String>) -> bool {
    field matches Some(s) && glob_match(pattern, s@)
}

fn field_glob_exec(pattern: &str, field: &Option<String>) -> (r: bool)
    ensures
        r == field_glob(pattern@, *field),
{
    match field {
        Some(s) => glob_matches(pattern, s.as_str()),
        None => false,
    }
}

// ───────────────────────── roles ─────────────────────────

/// `s` without a leading `ax`.
pub open spec fn strip_ax(s: Seq<char>) -> Seq<char> {
    if starts_with(s, seq!['a', 'x']) {
        s.skip(2)
    } else {
        s
    }
}

/// Roles compare lowercased, with an `ax` prefix ignored on either side.
pub open spec fn role_match(pattern: Seq<char>, role: Seq<char>) -> bool {
    strip_ax(unicode_lowercase(pattern)) == strip_ax(unicode_lowercase(role))
}

fn strip_ax_chars(s: &Vec<char>) -> (r: Vec<char>)
    ensures
        r@ == strip_ax(s@),
{
    let ax: Vec<char> = vec!['a', 'x'];
    assert(ax@ =~= seq!['a', 'x']);
    if starts_with_chars(s, &ax) {
        let mut r: Vec<char> = Vec::new();
        let mut i: usize = 2;
        while i < s.len()
            invariant
                2 <= i <= s@.len(),
                r@ == s@.subrange(2, i as int),
            decreases s@.len() - i,
        {
            r.push(s[i]);
            assert(s@.subrange(2, i + 1) =~= s@.subrange(2, i as int).push(s@[i as int]));
            i += 1;
        }
        assert(s@.subrange(2, i as int) =~= s@.skip(2));
        r
    } else {
        s.clone()
    }
}

/// How roles compare when both are ASCII text: ASCII-lowercased, with an
/// `ax` prefix ignored on either side.
pub open spec fn ascii_role_match(pattern: Seq<char>, role: Seq<char>) -> bool {
    strip_ax(ascii_lower(pattern)) == strip_ax(ascii_lower(role))
}

/// Check if a role pattern matches an element role.
/// Case-insensitive, allows both "AXButton" and "button" to match "AXButton".
pub fn role_matches(pattern: &str, element_role: &str) -> (r: bool)
    ensures
        r == role_match(pattern@, element_role@),
        ascii_text(pattern@) && ascii_text(element_role@) ==> r == ascii_role_match(
            pattern@,
            element_role@,
        ),
{
    let p = to_lowercase(pattern);
    let e = to_lowercase(element_role);
    let ps = strip_ax_chars(&chars_of(p.as_str()));
    let es = strip_ax_chars(&chars_of(e.as_str()));
    crate::text::chars_equal(&ps, &es)
}

/// AX roles that actually *do* something when clicked.
pub open spec fn actionable_roles() -> Seq<Seq<char>> {
    seq![
        "AXButton"@,
        "AXMenuItem"@,
        "AXMenuBarItem"@,
        "AXMenuButton"@,
        "AXPopUpButton"@,
        "AXCheckBox"@,
        "AXRadioButton"@,
        "AXDisclosureTriangle"@,
        "AXLink"@,
        "AXTextField"@,
        "AXTextArea"@,
        "AXComboBox"@,
    ]
}

fn actionable_role(i: usize) -> (r: &'static str)
    requires
        i < 12,
    ensures
        r@ == actionable_roles()[i as int],
{
    match i {
        0 => "AXButton",
        1 => "AXMenuItem",
        2 => "AXMenuBarItem",
        3 => "AXMenuButton",
        4 => "AXPopUpButton",
        5 => "AXCheckBox",
        6 => "AXRadioButton",
        7 => "AXDisclosureTriangle",
        8 => "AXLink",
        9 => "AXTextField",
        10 => "AXTextArea",
        _ => "AXComboBox",
    }
}

/// Whether a role is one of the actionable roles, compared as roles compare.
pub open spec fn actionable(role: Seq<char>) -> bool {
    exists|i: int| 0 <= i < 12 && role_match(#[trigger] actionable_roles()[i], role)
}

/// Every actionable role is ASCII text.
proof fn lemma_actionable_roles_ascii()
    ensures
        forall|i: int| 0 <= i < 12 ==> ascii_text(#[trigger] actionable_roles()[i]),
{
    reveal_strlit("AXButton");
    reveal_strlit("AXMenuItem");
    reveal_strlit("AXMenuBarItem");
    reveal_strlit("AXMenuButton");
    reveal_strlit("AXPopUpButton");
    reveal_strlit("AXCheckBox");
    reveal_strlit("AXRadioButton");
    reveal_strlit("AXDisclosureTriangle");
    reveal_strlit("AXLink");
    reveal_strlit("AXTextField");
    reveal_strlit("AXTextArea");
    reveal_strlit("AXComboBox");
}

/// Whether an ASCII role is one of the actionable roles, compared as ASCII
/// roles compare.
pub open spec fn ascii_actionable(role: Seq<char>) -> bool {
    exists|i: int| 0 <= i < 12 && ascii_role_match(#[trigger] actionable_roles()[i], role)
}

/// Whether clicking an element of this role is a meaningful action.
pub fn is_actionable(role: &str) -> (r: bool)
    ensures
        r == actionable(role@),
        ascii_text(role@) ==> r == ascii_actionable(role@),
{
    proof {
        lemma_actionable_roles_ascii();
    }
    let mut i: usize = 0;
    while i < 12
        invariant
            i <= 12,
            forall|j: int| 0 <= j < i ==> !role_match(#[trigger] actionable_roles()[j], role@),
            forall|j: int| 0 <= j < 12 ==> ascii_text(#[trigger] actionable_roles()[j]),
            ascii_text(role@) ==> forall|j: int| 0 <= j < i ==> !ascii_role_match(#[trigger] actionable_roles()[j], role@),
        decreases 12 - i,
    {
        if role_matches(actionable_role(i), role) {
            return true;
        }
        i += 1;
    }
    false
}

// ───────────────────────── element queries ─────────────────────────

/// Query to find UI elements in the accessibility tree.
#[derive(Debug, Clone)]
pub struct ElementQuery {
    pub role: Option<String>,
    pub title: Option<String>,
    pub label: Option<String>,
    pub identifier: Option<String>,
    pub value: Option<String>,
    pub description: Option<String>,
    pub index: Option<usize>,
    pub max_depth: Option<usize>,
}

impl Default for ElementQuery {
    fn default() -> (r: Self)
        ensures
            r == empty_query(),
    {
        ElementQuery {
            role: None,
            title: None,
            label: None,
            identifier: None,
            value: None,
            description: None,
            index: None,
            max_depth: None,
        }
    }
}

/// The query with no criterion at all.
pub open spec fn empty_query() -> ElementQuery {
    ElementQuery {
        role: None,
        title: None,
        label: None,
        identifier: None,
        value: None,
        description: None,
        index: None,
        max_depth: None,
    }
}

/// Whether `e` satisfies every criterion of `q` (AND logic).
///
/// - `role`: compared as roles compare;
/// - `title`: the title, description or identifier matches the pattern;
/// - `label`: the title, value, description or identifier matches;
/// - `identifier`: the element's identifier is exactly equal (case-sensitive);
/// - `value`, `description`: that field is present and matches.
pub open spec fn query_matches(q: ElementQuery, e: AXElement) -> bool {
    &&& (q.role matches Some(r) ==> role_match(r@, e.role@))
    &&& (q.title matches Some(p) ==> field_glob(p@, e.title) || field_glob(p@, e.description)
        || field_glob(p@, e.identifier))
    &&& (q.label matches Some(p) ==> field_glob(p@, e.title) || field_glob(p@, e.value)
        || field_glob(p@, e.description) || field_glob(p@, e.identifier))
    &&& (q.identifier matches Some(id) ==> (e.identifier matches Some(eid) && eid@ == id@))
    &&& (q.value matches Some(p) ==> field_glob(p@, e.value))
    &&& (q.description matches Some(p) ==> field_glob(p@, e.description))
}

impl ElementQuery {
    /// Check if an AXElement matches this query.
    ///
    /// All specified criteria must match (AND logic).
    /// Role matching is case-insensitive and allows with or without "AX" prefix.
    /// Text matching (`title`, `label`, `value`, `description`) is
    /// case-insensitive too; `identifier` is an exact, case-sensitive compare.
    pub fn matches(&self, element: &AXElement) -> (r: bool)
        ensures
            r == query_matches(*self, *element),
    {
        if let Some(role_pattern) = &self.role {
            if !role_matches(role_pattern.as_str(), element.role.as_str()) {
                return false;
            }
        }
        if let Some(pat) = &self.title {
            let p = pat.as_str();
            let matches_any_label = field_glob_exec(p, &element.title) || field_glob_exec(
                p,
                &element.description,
            ) || field_glob_exec(p, &element.identifier);
            if !matches_any_label {
                return false;
            }
        }
        if let Some(pat) = &self.label {
            let p = pat.as_str();
            let matches_any_text = field_glob_exec(p, &element.title) || field_glob_exec(
                p,
                &element.value,
            ) || field_glob_exec(p, &element.description) || field_glob_exec(
                p,
                &element.identifier,
            );
            if !matches_any_text {
                return false;
            }
        }
        if let Some(id) = &self.identifier {
            match &element.identifier {
                Some(eid) => {
                    if !str_eq(eid.as_str(), id.as_str()) {
                        return false;
                    }
                },
                None => return false,
            }
        }
        if let Some(pat) = &self.value {
            if !field_glob_exec(pat.as_str(), &element.value) {
                return false;
            }
        }
        if let Some(pat) = &self.description {
            if !field_glob_exec(pat.as_str(), &element.description) {
                return false;
            }
        }
        true
    }

    /// A copy of this query.
    pub fn duplicate(&self) -> (r: ElementQuery)
        ensures
            r == *self,
    {
        ElementQuery {
            role: crate::text::clone_opt(&self.role),
            title: crate::text::clone_opt(&self.title),
            label: crate::text::clone_opt(&self.label),
            identifier: crate::text::clone_opt(&self.identifier),
            value: crate::text::clone_opt(&self.value),
            description: crate::text::clone_opt(&self.description),
            index: self.index,
            max_depth: self.max_depth,
        }
    }
}

// ───────────────────────── window filters ─────────────────────────

/// Filter for window discovery.
#[derive(Debug, Clone)]
pub struct WindowFilter {
    pub title: Option<String>,
    pub bundle_id: Option<String>,
    pub pid: Option<u32>,
    /// If false (default), exclude windows with empty titles from listing.
    pub include_unnamed: bool,
}

impl Default for WindowFilter {
    fn default() -> (r: Self)
        ensures
            r.title is None,
            r.bundle_id is None,
            r.pid is None,
            !r.include_unnamed,
    {
        WindowFilter { title: None, bundle_id: None, pid: None, include_unnamed: false }
    }
}

/// Whether a pattern carries a glob metacharacter.
pub open spec fn has_glob_meta(p: Seq<char>) -> bool {
    p.contains('*') || p.contains('?') || p.contains('[')
}

/// A bare pattern wrapped as a substring glob; a pattern with metacharacters,
/// or an empty one, unchanged.
pub open spec fn auto_wrap(p: Seq<char>) -> Seq<char> {
    if p.len() == 0 {
        p
    } else if has_glob_meta(p) {
        p
    } else {
        seq!['*'] + p + seq!['*']
    }
}

/// Wrap a bare pattern with substring globs so `"Projects"` matches any value
/// containing "Projects". A pattern that already carries glob metacharacters
/// (`*`, `?`, `[`) passes through unchanged. Empty stays empty — wrapping it to
/// `**` would match everything.
pub fn auto_wrap_pattern(pattern: &str) -> (r: String)
    ensures
        r@ == auto_wrap(pattern@),
{
    if pattern.is_empty() {
        return String::new();
    }
    if has_char(pattern, '*') || has_char(pattern, '?') || has_char(pattern, '[') {
        return own(pattern);
    }
    let r = concat3("*", pattern, "*");
    proof {
        reveal_strlit("*");
    }
    r
}

/// Whether a window title passes the filter's title pattern.
pub open spec fn title_passes(f: WindowFilter, title: Seq<char>) -> bool {
    match f.title {
        Some(p) => glob_match(auto_wrap(p@), title),
        None => true,
    }
}

/// Whether a window passes every part of the filter.
pub open spec fn window_passes(f: WindowFilter, w: WindowInfo) -> bool {
    &&& (f.include_unnamed || w.title@.len() > 0)
    &&& title_passes(f, w.title@)
    &&& (f.bundle_id matches Some(b) ==> (w.bundle_id matches Some(wb) && wb@ == b@))
    &&& (f.pid matches Some(p) ==> w.pid == p)
}

impl WindowFilter {
    /// Check a window title against this filter's title pattern.
    ///
    /// Window titles match as a **case-insensitive substring**: a bare
    /// `"ash-md"` matches `"ash-md — README.md"` and `"ASH-MD"`. A pattern
    /// carrying glob metacharacters is used verbatim, so `"ash-md*"` anchors
    /// the start and `"ash-m[d]"` pins the whole title.
    pub fn matches_title(&self, title: &str) -> (r: bool)
        ensures
            r == title_passes(*self, title@),
            match self.title {
                Some(p) => {
                    &&& p@.len() > 0 && plain_glob_text(p@) ==> r == folded_contains(title@, p@)
                    &&& p@.len() == 0 ==> r == (title@.len() == 0)
                },
                None => true,
            },
    {
        match &self.title {
            Some(pattern) => {
                let wrapped = auto_wrap_pattern(pattern.as_str());
                proof {
                    let p = pattern@;
                    if p.len() > 0 && plain_glob_text(p) {
                        assert(!p.contains('*') && !p.contains('?') && !p.contains('[')) by {
                            if p.contains('*') || p.contains('?') || p.contains('[') {
                                let k = choose|k: int| 0 <= k < p.len() && (p[k] == '*' || p[k] == '?' || p[k] == '[');
                                assert(plain_glob_char(p[k]));
                            }
                        }
                        let w = wrapped@;
                        assert(w == seq!['*'] + p + seq!['*']);
                        assert(w.subrange(1, w.len() - 1) =~= p);
                    }
                }
                glob_matches(wrapped.as_str(), title)
            },
            None => true,
        }
    }

    /// The glob actually used to match titles — for diagnostics, so an error
    /// can show what was matched rather than what was typed.
    pub fn effective_title_pattern(&self) -> (r: Option<String>)
        ensures
            match self.title {
                Some(p) => r matches Some(w) && w@ == auto_wrap(p@),
                None => r is None,
            },
    {
        match &self.title {
            Some(p) => Some(auto_wrap_pattern(p.as_str())),
            None => None,
        }
    }

    /// Whether a window passes the filter: a non-empty title unless
    /// `include_unnamed`, the title pattern, the bundle ID (exact) and the PID.
    pub fn matches(&self, window: &WindowInfo) -> (r: bool)
        ensures
            r == window_passes(*self, *window),
    {
        if !self.include_unnamed && window.title.as_str().is_empty() {
            return false;
        }
        if !self.matches_title(window.title.as_str()) {
            return false;
        }
        if let Some(bid) = &self.bundle_id {
            match &window.bundle_id {
                Some(wb) => {
                    if !str_eq(wb.as_str(), bid.as_str()) {
                        return false;
                    }
                },
                None => return false,
            }
        }
        if let Some(pid) = self.pid {
            if window.pid != pid {
                return false;
            }
        }
        true
    }

    /// A copy of this filter.
    pub fn duplicate(&self) -> (r: WindowFilter)
        ensures
            r == *self,
    {
        WindowFilter {
            title: crate::text::clone_opt(&self.title),
            bundle_id: crate::text::clone_opt(&self.bundle_id),
            pid: self.pid,
            include_unnamed: self.include_unnamed,
        }
    }
}

} // verus!

verus! {

// ───────────────────────── click targets ─────────────────────────

/// Which element a click should land on, given every match for a query.
#[derive(Debug)]
pub enum ClickTarget<'a> {
    /// Nothing matched.
    NoMatch,
    /// One unambiguous target.
    One(&'a AXElement),
    /// Several *actionable* elements matched and there is no safe guess between
    /// them. Carries the candidates so the caller can name them instead of
    /// clicking a coin flip.
    Ambiguous(Vec<&'a AXElement>),
}

/// The actionable elements of `ms`, in order.
pub open spec fn actionable_only(ms: Seq<AXElement>) -> Seq<AXElement>
    decreases ms.len(),
{
    if ms.len() == 0 {
        Seq::empty()
    } else if actionable(ms.last().role@) {
        actionable_only(ms.drop_last()).push(ms.last())
    } else {
        actionable_only(ms.drop_last())
    }
}

/// The click target a list of matches calls for: with no actionable match the
/// first match (or nothing), with exactly one that one, with several all of
/// them as ambiguous candidates.
pub open spec fn click_target_of(ms: Seq<AXElement>, r: ClickTarget) -> bool {
    let act = actionable_only(ms);
    if act.len() == 0 {
        if ms.len() == 0 {
            r is NoMatch
        } else {
            r matches ClickTarget::One(e) && *e == ms[0]
        }
    } else if act.len() == 1 {
        r matches ClickTarget::One(e) && *e == act[0]
    } else {
        r matches ClickTarget::Ambiguous(v) && v@.len() == act.len() && forall|i: int|
            0 <= i < act.len() ==> *(#[trigger] v@[i]) == act[i]
    }
}

/// Narrow a match list down to the one element a click should land on.
///
/// Actionable roles win over everything else, so a `--label Save` that hits the
/// "Save As:" caption *and* the Save button lands on the button. Among several
/// actionable matches there is no safe guess — the caller is told to
/// disambiguate. When nothing actionable matched, first-match order stands.
pub fn pick_click_target(matches: &[AXElement]) -> (r: ClickTarget<'_>)
    ensures
        click_target_of(matches@, r),
{
    let mut actionable_refs: Vec<&AXElement> = Vec::new();
    let mut i: usize = 0;
    while i < matches.len()
        invariant
            i <= matches@.len(),
            actionable_refs@.len() == actionable_only(matches@.take(i as int)).len(),
            forall|j: int|
                0 <= j < actionable_refs@.len() ==> *(#[trigger] actionable_refs@[j])
                    == actionable_only(matches@.take(i as int))[j],
        decreases matches@.len() - i,
    {
        proof {
            assert(matches@.take(i + 1).drop_last() =~= matches@.take(i as int));
            assert(matches@.take(i + 1).last() == matches@[i as int]);
        }
        if is_actionable(matches[i].role.as_str()) {
            actionable_refs.push(&matches[i]);
        }
        i += 1;
    }
    proof {
        assert(matches@.take(i as int) =~= matches@);
    }
    if actionable_refs.len() == 0 {
        if matches.len() == 0 {
            ClickTarget::NoMatch
        } else {
            ClickTarget::One(&matches[0])
        }
    } else if actionable_refs.len() == 1 {
        ClickTarget::One(actionable_refs[0])
    } else {
        ClickTarget::Ambiguous(actionable_refs)
    }
}

// ───────────────────────── tree search ─────────────────────────

/// The nodes of the tree under `e` (itself at `depth`) that `q` matches, in
/// depth-first order, skipping every node deeper than `q.max_depth`.
pub open spec fn search_nodes(e: AXElement, q: ElementQuery, depth: int) -> Seq<AXElement>
    decreases e, 1nat,
{
    if q.max_depth matches Some(m) && depth > m {
        Seq::empty()
    } else {
        (if query_matches(q, e) {
            seq![e]
        } else {
            Seq::empty()
        }) + search_list(e.children@, q, depth + 1, e.children@.len() as int)
    }
}

/// `search_nodes` over the first `k` trees of `cs`, concatenated.
pub open spec fn search_list(cs: Seq<AXElement>, q: ElementQuery, depth: int, k: int) -> Seq<
    AXElement,
>
    decreases cs, 0nat, k,
{
    if k <= 0 || k > cs.len() {
        Seq::empty()
    } else {
        search_list(cs, q, depth, k - 1) + search_nodes(cs[k - 1], q, depth)
    }
}

/// Without a depth limit the depth a search starts at does not matter.
pub proof fn lemma_search_depth_free(e: AXElement, q: ElementQuery, d1: int, d2: int)
    requires
        q.max_depth is None,
    ensures
        search_nodes(e, q, d1) == search_nodes(e, q, d2),
    decreases e, 1nat,
{
    lemma_search_list_depth_free(e.children@, q, d1 + 1, d2 + 1, e.children@.len() as int);
}

pub proof fn lemma_search_list_depth_free(
    cs: Seq<AXElement>,
    q: ElementQuery,
    d1: int,
    d2: int,
    k: int,
)
    requires
        q.max_depth is None,
    ensures
        search_list(cs, q, d1, k) == search_list(cs, q, d2, k),
    decreases cs, 0nat, k,
{
    if k <= 0 || k > cs.len() {
    } else {
        lemma_search_list_depth_free(cs, q, d1, d2, k - 1);
        lemma_search_depth_free(cs[k - 1], q, d1, d2);
    }
}

/// `out` is `before` followed by childless copies of `nodes`.
pub open spec fn appended_copies(out: Seq<AXElement>, before: Seq<AXElement>, nodes: Seq<AXElement>) -> bool {
    &&& out.len() == before.len() + nodes.len()
    &&& out.take(before.len() as int) == before
    &&& forall|i: int| 0 <= i < nodes.len() ==> childless_copy_of(#[trigger] out[before.len() + i], nodes[i])
}

pub proof fn lemma_appended_copies_trans(
    a: Seq<AXElement>,
    b: Seq<AXElement>,
    c: Seq<AXElement>,
    n1: Seq<AXElement>,
    n2: Seq<AXElement>,
)
    requires
        appended_copies(b, a, n1),
        appended_copies(c, b, n2),
    ensures
        appended_copies(c, a, n1 + n2),
{
    assert(c.take(a.len() as int) =~= b.take(a.len() as int)) by {
        assert forall|i: int| 0 <= i < a.len() implies c.take(a.len() as int)[i] == b.take(a.len() as int)[i] by {
            assert(c.take(b.len() as int)[i] == b[i]);
        }
    }
    assert forall|i: int| 0 <= i < (n1 + n2).len() implies childless_copy_of(#[trigger] c[a.len() + i], (n1 + n2)[i]) by {
        if i < n1.len() {
            assert(c.take(b.len() as int)[a.len() + i] == b[a.len() + i]);
            assert(childless_copy_of(b[a.len() + i], n1[i]));
        } else {
            assert(childless_copy_of(c[b.len() + (i - n1.len())], n2[i - n1.len()]));
        }
    }
}

fn search_recursive(
    element: &AXElement,
    query: &ElementQuery,
    depth: usize,
    results: &mut Vec<AXElement>,
)
    ensures
        appended_copies(final(results)@, old(results)@, search_nodes(*element, *query, depth as int)),
    decreases element,
{
    let ghost before = results@;
    // Respect query max_depth
    if let Some(max_d) = query.max_depth {
        if depth > max_d {
            assert(results@.take(before.len() as int) =~= before);
            return;
        }
    }
    if query.matches(element) {
        results.push(element.without_children());
        proof {
            assert(results@.take(before.len() as int) =~= before);
        }
    } else {
        assert(results@.take(before.len() as int) =~= before);
    }
    let ghost own_part = if query_matches(*query, *element) {
        seq![*element]
    } else {
        Seq::<AXElement>::empty()
    };
    let ghost mid = results@;
    assert(appended_copies(mid, before, own_part));
    let child_depth: usize = if depth < usize::MAX {
        depth + 1
    } else {
        if query.max_depth.is_some() {
            // Every child lies deeper than any limit a `usize` can express.
            proof {
                assert(search_list(element.children@, *query, depth + 1, 0) =~= Seq::<AXElement>::empty());
                lemma_search_list_beyond_limit(element.children@, *query, depth + 1, element.children@.len() as int);
                assert(own_part + Seq::<AXElement>::empty() =~= own_part);
            }
            return;
        }
        depth
    };
    proof {
        if child_depth as int != depth + 1 {
            lemma_search_list_depth_free(
                element.children@,
                *query,
                child_depth as int,
                depth + 1,
                element.children@.len() as int,
            );
        }
    }
    let n = element.children.len();
    let mut i: usize = 0;
    assert(mid.take(mid.len() as int) =~= mid);
    while i < n
        invariant
            i <= n,
            n == element.children@.len(),
            appended_copies(results@, mid, search_list(element.children@, *query, child_depth as int, i as int)),
        decreases n - i,
    {
        let ghost pre = results@;
        search_recursive(&element.children[i], query, child_depth, results);
        proof {
            lemma_appended_copies_trans(
                mid,
                pre,
                results@,
                search_list(element.children@, *query, child_depth as int, i as int),
                search_nodes(element.children@[i as int], *query, child_depth as int),
            );
        }
        i += 1;
    }
    proof {
        lemma_appended_copies_trans(
            before,
            mid,
            results@,
            own_part,
            search_list(element.children@, *query, child_depth as int, n as int),
        );
    }
}

/// Past the depth limit a search finds nothing.
proof fn lemma_search_list_beyond_limit(cs: Seq<AXElement>, q: ElementQuery, depth: int, k: int)
    requires
        q.max_depth matches Some(m) && depth > m,
    ensures
        search_list(cs, q, depth, k) =~= Seq::<AXElement>::empty(),
    decreases k,
{
    if k <= 0 || k > cs.len() {
    } else {
        lemma_search_list_beyond_limit(cs, q, depth, k - 1);
        assert(search_nodes(cs[k - 1], q, depth) =~= Seq::<AXElement>::empty());
    }
}

/// What `search_tree` returns: every match in depth-first order, or only the
/// `index`-th of them (nothing when the index is out of range).
pub open spec fn search_result(root: AXElement, q: ElementQuery, out: Seq<AXElement>) -> bool {
    let all = search_nodes(root, q, 0);
    match q.index {
        None => crate::element::childless_copies(out, all),
        Some(idx) => if idx < all.len() {
            crate::element::childless_copies(out, seq![all[idx as int]])
        } else {
            out.len() == 0
        },
    }
}

/// Search an AXElement tree for elements matching a query.
/// Returns all matches up to the query's index limit; each match is returned
/// without its children.
pub fn search_tree(root: &AXElement, query: &ElementQuery) -> (r: Vec<AXElement>)
    ensures
        search_result(*root, *query, r@),
{
    let mut results: Vec<AXElement> = Vec::new();
    search_recursive(root, query, 0, &mut results);
    proof {
        let all = search_nodes(*root, *query, 0);
        assert forall|i: int| 0 <= i < results@.len() implies childless_copy_of(#[trigger] results@[i], all[i]) by {
            assert(results@[0 + i] == results@[i]);
        }
    }
    // If query.index is set, return only the nth match
    if let Some(idx) = query.index {
        if idx < results.len() {
            let ghost all = results@;
            let picked = results.remove(idx);
            assert(childless_copy_of(all[idx as int], search_nodes(*root, *query, 0)[idx as int]));
            let v = vec![picked];
            v
        } else {
            Vec::new()
        }
    } else {
        results
    }
}

} // verus!
