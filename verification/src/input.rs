//! The computing side of mouse and keyboard input: splitting a scroll into
//! wheel steps, parsing key combos, and the AppleScript that types text or
//! presses a combo.
use vstd::prelude::*;

use crate::error::LokiError;
use crate::text::{
    chars_of, concat2, concat3, join, join_strings, push_char, split_pieces, split_str, str_eq,
    to_lowercase, trim, trim_str, u64_to_decimal, decimal, unicode_lowercase, utf8_len, views,
    byte_len, ascii_lower, ascii_text, lemma_split_pieces_ascii, lemma_trim_ascii,
};

verus! {

/// Default number of intermediate move events along a drag path.
pub const DEFAULT_DRAG_STEPS: usize = 10;

/// Default pause between drag events, in milliseconds.
pub const DEFAULT_DRAG_DELAY_MS: u64 = 16;

/// Default number of wheel events a scroll delta is split across.
pub const DEFAULT_WHEEL_STEPS: usize = 1;

/// Default pause between wheel events, in milliseconds.
pub const DEFAULT_WHEEL_DELAY_MS: u64 = 16;

// ───────────────────────── mouse gestures ─────────────────────────

/// The kinds of mouse event the input layer posts.
#[derive(Debug, Clone, Copy, PartialEq, Eq, Structural)]
pub enum MouseEventKind {
    Moved,
    LeftDown,
    LeftUp,
    LeftDragged,
    RightDown,
    RightUp,
}

/// One mouse event of a click: its kind, and the click state to set on it
/// (`0` leaves the field as the event was created).
#[derive(Debug, Clone, Copy, PartialEq, Eq, Structural)]
pub struct MouseStep {
    pub kind: MouseEventKind,
    pub click_state: i64,
}

/// The events of a click, posted in order with a short pause between them: a
/// double click is two left presses whose second carries click state 2; a
/// right click a right press; a plain click a left press.
pub open spec fn click_steps(double: bool, right: bool) -> Seq<MouseStep> {
    if double {
        seq![
            MouseStep { kind: MouseEventKind::LeftDown, click_state: 1 },
            MouseStep { kind: MouseEventKind::LeftUp, click_state: 1 },
            MouseStep { kind: MouseEventKind::LeftDown, click_state: 2 },
            MouseStep { kind: MouseEventKind::LeftUp, click_state: 2 },
        ]
    } else if right {
        seq![
            MouseStep { kind: MouseEventKind::RightDown, click_state: 0 },
            MouseStep { kind: MouseEventKind::RightUp, click_state: 0 },
        ]
    } else {
        seq![
            MouseStep { kind: MouseEventKind::LeftDown, click_state: 0 },
            MouseStep { kind: MouseEventKind::LeftUp, click_state: 0 },
        ]
    }
}

/// The events to post for a click at one point; `double` wins over `right`.
pub fn click_plan(double: bool, right: bool) -> (r: Vec<MouseStep>)
    ensures
        r@ == click_steps(double, right),
{
    let r = if double {
        vec![
            MouseStep { kind: MouseEventKind::LeftDown, click_state: 1 },
            MouseStep { kind: MouseEventKind::LeftUp, click_state: 1 },
            MouseStep { kind: MouseEventKind::LeftDown, click_state: 2 },
            MouseStep { kind: MouseEventKind::LeftUp, click_state: 2 },
        ]
    } else if right {
        vec![
            MouseStep { kind: MouseEventKind::RightDown, click_state: 0 },
            MouseStep { kind: MouseEventKind::RightUp, click_state: 0 },
        ]
    } else {
        vec![
            MouseStep { kind: MouseEventKind::LeftDown, click_state: 0 },
            MouseStep { kind: MouseEventKind::LeftUp, click_state: 0 },
        ]
    };
    proof {
        assert(r@ =~= click_steps(double, right));
    }
    r
}

/// The events of a drag in `steps` moves (at least one): a hover at the start
/// (hit strips arm themselves on mouse-enter), a press there, one drag event per
/// interpolated point, and the release at the end.
pub open spec fn drag_steps(steps: nat) -> Seq<MouseEventKind> {
    let n = if steps == 0 { 1nat } else { steps };
    seq![MouseEventKind::Moved, MouseEventKind::LeftDown] + Seq::new(n, |i: int| MouseEventKind::LeftDragged)
        + seq![MouseEventKind::LeftUp]
}

/// The sequence of events to post for a drag; the caller pairs each drag event
/// with its interpolated point.
pub fn drag_plan(steps: usize) -> (r: Vec<MouseEventKind>)
    requires
        steps < usize::MAX - 3,
    ensures
        r@ == drag_steps(steps as nat),
{
    let n: usize = if steps == 0 { 1 } else { steps };
    let mut r: Vec<MouseEventKind> = vec![MouseEventKind::Moved, MouseEventKind::LeftDown];
    let mut i: usize = 0;
    while i < n
        invariant
            i <= n,
            r@ =~= seq![MouseEventKind::Moved, MouseEventKind::LeftDown] + Seq::new(
                i as nat,
                |k: int| MouseEventKind::LeftDragged,
            ),
        decreases n - i,
    {
        r.push(MouseEventKind::LeftDragged);
        i += 1;
    }
    r.push(MouseEventKind::LeftUp);
    proof {
        assert(r@ =~= drag_steps(steps as nat));
    }
    r
}

/// One wheel event: how many axes it carries, and the amount on each — Core
/// Graphics' first wheel is vertical, the second horizontal.
#[derive(Debug, Clone, Copy, PartialEq, Eq, Structural)]
pub struct WheelStep {
    pub axes: u32,
    pub wheel1: i32,
    pub wheel2: i32,
}

/// The wheel events of a scroll of (`dx`, `dy`) pixels in `n` steps.
///
/// `dx`/`dy` use the DOM convention — positive `dy` scrolls down, positive `dx`
/// right — while Core Graphics' wheel axes run the other way, so both are
/// negated. Two axes only when there is horizontal travel: a one-axis event is
/// what a plain wheel posts, and some scrollers read an explicit zero second
/// axis as a horizontal gesture.
pub open spec fn wheel_step(dx: i32, dy: i32, n: int, i: int) -> WheelStep {
    WheelStep {
        axes: if dx == 0 { 1 } else { 2 },
        wheel1: (-increment(dy as int, n, i)) as i32,
        wheel2: (-increment(dx as int, n, i)) as i32,
    }
}

/// The wheel events to post, in order, for a scroll of (`dx`, `dy`) split into
/// `steps` events (at least one). A delta of `i32::MIN` in one event has no
/// negation in `i32`, so it needs at least two steps.
pub fn wheel_plan(dx: i32, dy: i32, steps: usize) -> (r: Vec<WheelStep>)
    requires
        steps <= u32::MAX,
        dx == i32::MIN || dy == i32::MIN ==> steps >= 2,
    ensures
        r@.len() == if steps == 0 { 1 } else { steps as int },
        forall|i: int| 0 <= i < r@.len() ==> #[trigger] r@[i] == wheel_step(dx, dy, r@.len() as int, i),
{
    let xs = scroll_increments(dx, steps);
    let ys = scroll_increments(dy, steps);
    let mut out: Vec<WheelStep> = Vec::new();
    let axes: u32 = if dx == 0 { 1 } else { 2 };
    let mut i: usize = 0;
    while i < xs.len()
        invariant
            i <= xs@.len(),
            xs@.len() == ys@.len(),
            xs@.len() == if steps == 0 { 1 } else { steps as int },
            dx == i32::MIN || dy == i32::MIN ==> xs@.len() >= 2,
            axes == if dx == 0 { 1u32 } else { 2u32 },
            forall|k: int| 0 <= k < xs@.len() ==> #[trigger] xs@[k] == increment(dx as int, xs@.len() as int, k),
            forall|k: int| 0 <= k < ys@.len() ==> #[trigger] ys@[k] == increment(dy as int, ys@.len() as int, k),
            out@.len() == i,
            forall|k: int| 0 <= k < i ==> #[trigger] out@[k] == wheel_step(dx, dy, xs@.len() as int, k),
        decreases xs@.len() - i,
    {
        let x = xs[i];
        let y = ys[i];
        proof {
            lemma_increment_above_min(dx as int, xs@.len() as int, i as int);
            lemma_increment_above_min(dy as int, ys@.len() as int, i as int);
        }
        out.push(WheelStep { axes, wheel1: -y, wheel2: -x });
        i += 1;
    }
    out
}

/// An increment is `i32::MIN` only when the whole of `i32::MIN` goes in one step.
proof fn lemma_increment_above_min(delta: int, n: int, i: int)
    requires
        i32::MIN <= delta <= i32::MAX,
        n >= 1,
        0 <= i < n,
        delta == i32::MIN ==> n >= 2,
    ensures
        increment(delta, n, i) > i32::MIN,
        increment(delta, n, i) <= i32::MAX,
{
    let mag = if delta < 0 { -delta } else { delta };
    assert(mag / n <= mag) by (nonlinear_arith)
        requires
            mag >= 0,
            n >= 1,
    ;
    if n >= 2 {
        assert(mag / n <= mag / 2) by (nonlinear_arith)
            requires
                mag >= 0,
                n >= 2,
        ;
    }
    if mag / n == mag && mag > 0 {
        assert(mag % n == 0) by (nonlinear_arith)
            requires
                mag / n == mag,
                n >= 1,
                mag > 0,
        ;
    }
}

// ───────────────────────── scrolling ─────────────────────────

/// The sum of a sequence of increments.
pub open spec fn sum_of(s: Seq<i32>) -> int
    decreases s.len(),
{
    if s.len() == 0 {
        0
    } else {
        sum_of(s.drop_last()) + s.last()
    }
}

/// The `i`-th increment of `delta` split into `n` steps: the magnitude divided
/// evenly, the first `|delta| % n` steps one pixel larger, each with the sign
/// of `delta`.
pub open spec fn increment(delta: int, n: int, i: int) -> int {
    let mag = if delta < 0 { -delta } else { delta };
    let size = mag / n + if i < mag % n { 1int } else { 0int };
    if delta < 0 { -size } else { size }
}

proof fn lemma_sum_of_increments(delta: int, n: int, k: int, s: Seq<i32>)
    requires
        n >= 1,
        0 <= k <= n,
        s.len() == k,
        forall|i: int| 0 <= i < k ==> s[i] == increment(delta, n, i),
    ensures
        ({
            let mag = if delta < 0 { -delta } else { delta };
            let total = k * (mag / n) + if k < mag % n { k } else { mag % n };
            sum_of(s) == if delta < 0 { -total } else { total }
        }),
    decreases k,
{
    let mag = if delta < 0 { -delta } else { delta };
    let q = mag / n;
    if k > 0 {
        lemma_sum_of_increments(delta, n, k - 1, s.drop_last());
        assert(s.last() == increment(delta, n, k - 1));
        assert(sum_of(s) == sum_of(s.drop_last()) + s.last());
        assert((k - 1) * q + q == k * q) by (nonlinear_arith);
    }
}

/// Split a scroll delta into `steps` whole-pixel increments that sum to exactly
/// the delta. Integer division leaves a remainder, so the earliest increments
/// each absorb one extra pixel — otherwise a `--steps 7` scroll of 300 px would
/// silently deliver only 294. `steps` of 0 counts as 1.
pub fn scroll_increments(delta: i32, steps: usize) -> (r: Vec<i32>)
    requires
        steps <= u32::MAX,
    ensures
        r@.len() == if steps == 0 { 1 } else { steps as int },
        forall|i: int| 0 <= i < r@.len() ==> #[trigger] r@[i] == increment(delta as int, r@.len() as int, i),
        sum_of(r@) == delta,
        forall|i: int| 0 <= i < r@.len() ==> (delta < 0 ==> #[trigger] r@[i] <= 0) && (delta >= 0 ==> r@[i] >= 0),
{
    let n: usize = if steps == 0 { 1 } else { steps };
    let negative = delta < 0;
    let magnitude: u32 = if delta < 0 {
        (0i64 - delta as i64) as u32
    } else {
        delta as u32
    };
    let n32 = n as u32;
    let base = magnitude / n32;
    let remainder = magnitude % n32;
    let mut out: Vec<i32> = Vec::new();
    let mut i: usize = 0;
    while i < n
        invariant
            i <= n,
            n >= 1,
            n <= u32::MAX,
            n32 == n,
            magnitude == if delta < 0 { -(delta as int) } else { delta as int },
            negative == (delta < 0),
            base == magnitude / n32,
            remainder == magnitude % n32,
            out@.len() == i,
            forall|j: int| 0 <= j < i ==> #[trigger] out@[j] == increment(delta as int, n as int, j),
        decreases n - i,
    {
        let extra: u32 = if (i as u32) < remainder { 1 } else { 0 };
        let step: u32 = base + extra;
        proof {
            assert(base * n32 + remainder == magnitude) by (nonlinear_arith)
                requires base == magnitude / n32, remainder == magnitude % n32, n32 >= 1;
            if n32 > 1 {
                assert(base * n32 >= base * 2) by (nonlinear_arith) requires n32 >= 2;
            }
            assert(step as int <= magnitude);
        }
        let value: i32 = if negative {
            (0i64 - step as i64) as i32
        } else {
            step as i32
        };
        out.push(value);
        i += 1;
    }
    proof {
        lemma_sum_of_increments(delta as int, n as int, n as int, out@);
        let mag = if delta < 0 { -(delta as int) } else { delta as int };
        assert(mag % (n as int) < n as int);
        assert((n as int) * (mag / (n as int)) + mag % (n as int) == mag) by (nonlinear_arith)
            requires n >= 1;
    }
    out
}

// ───────────────────────── key combos ─────────────────────────

/// The AppleScript modifier a combo part names, if it names one.
pub open spec fn modifier_of(name: Seq<char>) -> Option<Seq<char>> {
    if name == "cmd"@ || name == "command"@ || name == "super"@ {
        Some("command down"@)
    } else if name == "shift"@ {
        Some("shift down"@)
    } else if name == "ctrl"@ || name == "control"@ {
        Some("control down"@)
    } else if name == "alt"@ || name == "option"@ || name == "opt"@ {
        Some("option down"@)
    } else {
        None
    }
}

/// The state of reading a combo's parts from the left.
#[verifier::ext_equal]
pub enum ComboScan {
    /// Modifiers so far, and the key if one was named.
    Reading { modifiers: Seq<Seq<char>>, key: Option<Seq<char>> },
    /// A second non-modifier part turned up.
    TwoKeys,
}

/// The lowercasing a combo's parts go through: `str::to_lowercase`.
pub open spec fn unicode_fold() -> spec_fn(Seq<char>) -> Seq<char> {
    |s: Seq<char>| unicode_lowercase(s)
}

/// What that lowercasing comes to on ASCII text: `str::to_ascii_lowercase`.
pub open spec fn ascii_fold() -> spec_fn(Seq<char>) -> Seq<char> {
    |s: Seq<char>| ascii_lower(s)
}

/// One combo part as it is compared: trimmed, then lowercased by `lower`.
pub open spec fn combo_part(piece: Seq<char>, lower: spec_fn(Seq<char>) -> Seq<char>) -> Seq<char> {
    lower(trim(piece))
}

/// Reading the first `k` parts of a combo, lowercased by `lower`.
pub open spec fn scan_combo(pieces: Seq<Seq<char>>, k: int, lower: spec_fn(Seq<char>) -> Seq<char>) -> ComboScan
    decreases k,
{
    if k <= 0 {
        ComboScan::Reading { modifiers: Seq::empty(), key: None }
    } else {
        match scan_combo(pieces, k - 1, lower) {
            ComboScan::TwoKeys => ComboScan::TwoKeys,
            ComboScan::Reading { modifiers, key } => {
                let part = combo_part(pieces[k - 1], lower);
                match modifier_of(part) {
                    Some(m) => ComboScan::Reading { modifiers: modifiers.push(m), key },
                    None => if key is Some {
                        ComboScan::TwoKeys
                    } else {
                        ComboScan::Reading { modifiers, key: Some(part) }
                    },
                }
            },
        }
    }
}

/// What parsing a combo yields, its parts lowercased by `lower`: the key and
/// the AppleScript modifiers, or the message of the input error it is refused
/// with.
pub open spec fn combo_parsed_by(combo: Seq<char>, lower: spec_fn(Seq<char>) -> Seq<char>) -> Result<
    (Seq<char>, Seq<Seq<char>>),
    Seq<char>,
> {
    let pieces = split_pieces(combo, seq!['+']);
    if combo.len() == 0 {
        Err("empty key combo"@)
    } else {
        match scan_combo(pieces, pieces.len() as int, lower) {
            ComboScan::TwoKeys => Err("multiple non-modifier keys in combo: "@ + combo),
            ComboScan::Reading { modifiers, key: None } => Err("no key specified in combo: "@ + combo),
            ComboScan::Reading { modifiers, key: Some(k) } => Ok((k, modifiers)),
        }
    }
}

/// What parsing a combo yields, its parts lowercased as `str::to_lowercase`
/// does.
pub open spec fn combo_parsed(combo: Seq<char>) -> Result<(Seq<char>, Seq<Seq<char>>), Seq<char>> {
    combo_parsed_by(combo, unicode_fold())
}

/// `r` is what parsing `combo` with its parts lowercased by `lower` yields, as
/// strings and an input error.
pub open spec fn combo_result(
    combo: Seq<char>,
    r: Result<(String, Vec<String>), LokiError>,
    lower: spec_fn(Seq<char>) -> Seq<char>,
) -> bool {
    match combo_parsed_by(combo, lower) {
        Ok((k, ms)) => r matches Ok((key, mods)) && key@ == k && views(mods@) == ms,
        Err(msg) => r matches Err(LokiError::InputError(m)) && m@ == msg,
    }
}

fn modifier_exec(name: &str) -> (r: Option<&'static str>)
    ensures
        match modifier_of(name@) {
            Some(m) => r matches Some(x) && x@ == m,
            None => r is None,
        },
{
    if str_eq(name, "cmd") || str_eq(name, "command") || str_eq(name, "super") {
        Some("command down")
    } else if str_eq(name, "shift") {
        Some("shift down")
    } else if str_eq(name, "ctrl") || str_eq(name, "control") {
        Some("control down")
    } else if str_eq(name, "alt") || str_eq(name, "option") || str_eq(name, "opt") {
        Some("option down")
    } else {
        None
    }
}

/// Parse a combo string into (key_name, vec_of_applescript_modifiers).
///
/// Parts compare case-insensitively: for an ASCII combo the parse is that of
/// its parts ASCII-lowercased, so `"CMD + S"` reads as `"cmd+s"`.
pub fn parse_combo_for_applescript(combo: &str) -> (r: Result<(String, Vec<String>), LokiError>)
    ensures
        combo_result(combo@, r, unicode_fold()),
        ascii_text(combo@) ==> combo_result(combo@, r, ascii_fold()),
{
    if combo.is_empty() {
        return Err(LokiError::InputError(String::from_str("empty key combo")));
    }
    let parts = split_str(combo, "+");
    let ghost pieces = split_pieces(combo@, "+"@);
    proof {
        reveal_strlit("+");
        assert("+"@ =~= seq!['+']);
    }
    proof {
        if ascii_text(combo@) {
            lemma_split_pieces_ascii(combo@, seq!['+']);
            assert forall|j: int| 0 <= j < pieces.len() implies ascii_text(trim(#[trigger] pieces[j])) by {
                lemma_trim_ascii(pieces[j]);
            }
        }
    }
    let mut modifiers: Vec<String> = Vec::new();
    let mut key_part: Option<String> = None;
    let mut i: usize = 0;
    assert(views(modifiers@) =~= Seq::<Seq<char>>::empty());
    while i < parts.len()
        invariant
            i <= parts@.len(),
            parts@.len() == pieces.len(),
            pieces == split_pieces(combo@, seq!['+']),
            forall|k: int| 0 <= k < parts@.len() ==> #[trigger] parts@[k]@ == pieces[k],
            scan_combo(pieces, i as int, unicode_fold()) == (ComboScan::Reading {
                modifiers: views(modifiers@),
                key: match key_part {
                    Some(k) => Some(k@),
                    None => None,
                },
            }),
            ascii_text(combo@) ==> forall|j: int| 0 <= j < pieces.len() ==> ascii_text(trim(#[trigger] pieces[j])),
            ascii_text(combo@) ==> forall|j: int|
                0 <= j < i ==> combo_part(#[trigger] pieces[j], unicode_fold()) == combo_part(pieces[j], ascii_fold()),
        decreases parts@.len() - i,
    {
        let trimmed = trim_str(parts[i].as_str());
        let lower = to_lowercase(trimmed.as_str());
        proof {
            if ascii_text(combo@) {
                assert(ascii_text(trim(pieces[i as int])));
                assert(combo_part(pieces[i as int], unicode_fold()) == combo_part(pieces[i as int], ascii_fold()));
            }
        }
        match modifier_exec(lower.as_str()) {
            Some(m) => {
                modifiers.push(String::from_str(m));
                proof {
                    assert(views(modifiers@) =~= views(modifiers@.drop_last()).push(m@));
                }
            },
            None => {
                if key_part.is_some() {
                    let msg = concat2("multiple non-modifier keys in combo: ", combo);
                    proof {
                        lemma_two_keys_stays(pieces, i as int + 1, pieces.len() as int, unicode_fold());
                        if ascii_text(combo@) {
                            lemma_scan_folds_agree(pieces, i as int + 1);
                            lemma_two_keys_stays(pieces, i as int + 1, pieces.len() as int, ascii_fold());
                        }
                    }
                    return Err(LokiError::InputError(msg));
                }
                key_part = Some(lower);
            },
        }
        i += 1;
    }
    proof {
        if ascii_text(combo@) {
            lemma_scan_folds_agree(pieces, pieces.len() as int);
        }
    }
    match key_part {
        Some(k) => Ok((k, modifiers)),
        None => Err(LokiError::InputError(concat2("no key specified in combo: ", combo))),
    }
}

/// Once a second key is read the scan stays refused.
proof fn lemma_two_keys_stays(pieces: Seq<Seq<char>>, j: int, k: int, lower: spec_fn(Seq<char>) -> Seq<char>)
    requires
        1 <= j <= k,
        scan_combo(pieces, j, lower) == ComboScan::TwoKeys,
    ensures
        scan_combo(pieces, k, lower) == ComboScan::TwoKeys,
    decreases k - j,
{
    if j < k {
        lemma_two_keys_stays(pieces, j, k - 1, lower);
    }
}

/// Where the two lowercasings agree on the first `k` parts, reading those
/// parts comes to the same.
proof fn lemma_scan_folds_agree(pieces: Seq<Seq<char>>, k: int)
    requires
        k <= pieces.len(),
        forall|j: int| 0 <= j < k ==> combo_part(#[trigger] pieces[j], unicode_fold()) == combo_part(pieces[j], ascii_fold()),
    ensures
        scan_combo(pieces, k, unicode_fold()) == scan_combo(pieces, k, ascii_fold()),
    decreases k,
{
    if k > 0 {
        lemma_scan_folds_agree(pieces, k - 1);
        assert(combo_part(pieces[k - 1], unicode_fold()) == combo_part(pieces[k - 1], ascii_fold()));
    }
}

/// The AppleScript key code of a named non-character key.
pub open spec fn key_code_of(name: Seq<char>) -> Option<u16> {
    if name == "return"@ || name == "enter"@ {
        Some(36)
    } else if name == "tab"@ {
        Some(48)
    } else if name == "space"@ {
        Some(49)
    } else if name == "delete"@ || name == "backspace"@ {
        Some(51)
    } else if name == "escape"@ || name == "esc"@ {
        Some(53)
    } else if name == "up"@ {
        Some(126)
    } else if name == "down"@ {
        Some(125)
    } else if name == "left"@ {
        Some(123)
    } else if name == "right"@ {
        Some(124)
    } else if name == "home"@ {
        Some(115)
    } else if name == "end"@ {
        Some(119)
    } else if name == "pageup"@ {
        Some(116)
    } else if name == "pagedown"@ {
        Some(121)
    } else if name == "forwarddelete"@ {
        Some(117)
    } else if name == "f1"@ {
        Some(122)
    } else if name == "f2"@ {
        Some(120)
    } else if name == "f3"@ {
        Some(99)
    } else if name == "f4"@ {
        Some(118)
    } else if name == "f5"@ {
        Some(96)
    } else if name == "f6"@ {
        Some(97)
    } else if name == "f7"@ {
        Some(98)
    } else if name == "f8"@ {
        Some(100)
    } else if name == "f9"@ {
        Some(101)
    } else if name == "f10"@ {
        Some(109)
    } else if name == "f11"@ {
        Some(103)
    } else if name == "f12"@ {
        Some(111)
    } else {
        None
    }
}

/// Map key names to AppleScript key codes (for non-character keys).
pub fn applescript_key_code(name: &str) -> (r: Option<u16>)
    ensures
        r == key_code_of(name@),
{
    if str_eq(name, "return") || str_eq(name, "enter") {
        Some(36)
    } else if str_eq(name, "tab") {
        Some(48)
    } else if str_eq(name, "space") {
        Some(49)
    } else if str_eq(name, "delete") || str_eq(name, "backspace") {
        Some(51)
    } else if str_eq(name, "escape") || str_eq(name, "esc") {
        Some(53)
    } else if str_eq(name, "up") {
        Some(126)
    } else if str_eq(name, "down") {
        Some(125)
    } else if str_eq(name, "left") {
        Some(123)
    } else if str_eq(name, "right") {
        Some(124)
    } else if str_eq(name, "home") {
        Some(115)
    } else if str_eq(name, "end") {
        Some(119)
    } else if str_eq(name, "pageup") {
        Some(116)
    } else if str_eq(name, "pagedown") {
        Some(121)
    } else if str_eq(name, "forwarddelete") {
        Some(117)
    } else if str_eq(name, "f1") {
        Some(122)
    } else if str_eq(name, "f2") {
        Some(120)
    } else if str_eq(name, "f3") {
        Some(99)
    } else if str_eq(name, "f4") {
        Some(118)
    } else if str_eq(name, "f5") {
        Some(96)
    } else if str_eq(name, "f6") {
        Some(97)
    } else if str_eq(name, "f7") {
        Some(98)
    } else if str_eq(name, "f8") {
        Some(100)
    } else if str_eq(name, "f9") {
        Some(101)
    } else if str_eq(name, "f10") {
        Some(109)
    } else if str_eq(name, "f11") {
        Some(103)
    } else if str_eq(name, "f12") {
        Some(111)
    } else {
        None
    }
}

// ───────────────────────── AppleScript ─────────────────────────

/// `s` with each character `c` in `from` replaced by its escape: a backslash
/// becomes two, a double quote becomes backslash-quote (both escapes when
/// `both`, only the quote otherwise).
pub open spec fn escape_applescript(s: Seq<char>, both: bool) -> Seq<char>
    decreases s.len(),
{
    if s.len() == 0 {
        Seq::empty()
    } else {
        let c = s.last();
        escape_applescript(s.drop_last(), both) + if c == '"' {
            seq!['\\', '"']
        } else if both && c == '\\' {
            seq!['\\', '\\']
        } else {
            seq![c]
        }
    }
}

fn escape_exec(s: &str, both: bool) -> (r: String)
    ensures
        r@ == escape_applescript(s@, both),
{
    let cs = chars_of(s);
    let mut r = String::new();
    let mut i: usize = 0;
    while i < cs.len()
        invariant
            i <= cs@.len(),
            cs@ == s@,
            r@ == escape_applescript(cs@.take(i as int), both),
        decreases cs@.len() - i,
    {
        proof {
            assert(cs@.take(i + 1).drop_last() =~= cs@.take(i as int));
            assert(cs@.take(i + 1).last() == cs@[i as int]);
        }
        let c = cs[i];
        if c == '"' {
            push_char(&mut r, '\\');
            push_char(&mut r, '"');
        } else if both && c == '\\' {
            push_char(&mut r, '\\');
            push_char(&mut r, '\\');
        } else {
            push_char(&mut r, c);
        }
        proof {
            assert(r@ =~= escape_applescript(cs@.take(i + 1), both));
        }
        i += 1;
    }
    assert(cs@.take(i as int) =~= cs@);
    r
}

/// The AppleScript that types `text` through System Events, with backslashes
/// and double quotes escaped.
pub fn keystroke_script(text: &str) -> (r: String)
    ensures
        r@ == "tell application \"System Events\" to keystroke \""@ + escape_applescript(text@, true)
            + "\""@,
{
    let escaped = escape_exec(text, true);
    concat3("tell application \"System Events\" to keystroke \"", escaped.as_str(), "\"")
}

/// The AppleScript that brings the process `pid` to the front through System
/// Events, so that the input posted next reaches it.
pub fn activate_script(pid: u32) -> (r: String)
    ensures
        r@ == "tell application \"System Events\" to set frontmost of (first process whose unix id is "@
            + decimal(pid as nat) + ") to true"@,
{
    let mut r = crate::text::own("tell application \"System Events\" to set frontmost of (first process whose unix id is ");
    r.append(u64_to_decimal(pid as u64).as_str());
    r.append(") to true");
    r
}

/// The AppleScript that presses a key combination through System Events: a
/// named key by key code, a one-byte key by keystroke (its double quote
/// escaped), with the modifiers in a `using {..}` clause when there are any.
pub open spec fn combo_script_of(key: Seq<char>, mods: Seq<Seq<char>>) -> Option<Seq<char>> {
    let head = "tell application \"System Events\" to "@;
    let using = if mods.len() == 0 {
        Seq::empty()
    } else {
        " using {"@ + join(mods, ", "@) + "}"@
    };
    match key_code_of(key) {
        Some(code) => Some(head + "key code "@ + decimal(code as nat) + using),
        None => if utf8_len(key) == 1 {
            Some(head + "keystroke \""@ + escape_applescript(key, false) + "\""@ + using)
        } else {
            None
        },
    }
}

/// `r` is the script for `combo` parsed with its parts lowercased by `lower`,
/// or the input error it is refused with.
pub open spec fn combo_script_result(
    combo: Seq<char>,
    r: Result<String, LokiError>,
    lower: spec_fn(Seq<char>) -> Seq<char>,
) -> bool {
    match combo_parsed_by(combo, lower) {
        Err(msg) => r matches Err(LokiError::InputError(m)) && m@ == msg,
        Ok((k, ms)) => match combo_script_of(k, ms) {
            Some(script) => r matches Ok(x) && x@ == script,
            None => r matches Err(LokiError::InputError(m)) && m@ == "unknown key: "@ + k,
        },
    }
}

/// Builds the script `send_key_combo` runs: the parsed combo, then the key code
/// or keystroke; an unknown multi-character key is refused. An ASCII combo
/// reads as its parts ASCII-lowercased.
pub fn key_combo_script(combo: &str) -> (r: Result<String, LokiError>)
    ensures
        combo_script_result(combo@, r, unicode_fold()),
        ascii_text(combo@) ==> combo_script_result(combo@, r, ascii_fold()),
{
    let parsed = parse_combo_for_applescript(combo);
    let (key_name, modifiers) = match parsed {
        Ok(p) => p,
        Err(e) => {
            return Err(e);
        },
    };
    let ghost k = key_name;
    let ghost ms = modifiers;
    let using_clause = if modifiers.len() == 0 {
        String::new()
    } else {
        let joined = join_strings(&modifiers, ", ");
        concat3(" using {", joined.as_str(), "}")
    };
    let head = "tell application \"System Events\" to ";
    if let Some(code) = applescript_key_code(key_name.as_str()) {
        let n = u64_to_decimal(code as u64);
        let mut s = concat3(head, "key code ", n.as_str());
        s.append(using_clause.as_str());
        proof {
            assert(combo_script_of(k@, views(ms@)) == Some(s@));
        }
        Ok(s)
    } else if byte_len(key_name.as_str()) == 1 {
        let escaped = escape_exec(key_name.as_str(), false);
        let mut s = concat3(head, "keystroke \"", escaped.as_str());
        s.append("\"");
        s.append(using_clause.as_str());
        proof {
            assert(combo_script_of(k@, views(ms@)) == Some(s@));
        }
        Ok(s)
    } else {
        Err(LokiError::InputError(concat2("unknown key: ", key_name.as_str())))
    }
}

} // verus!
