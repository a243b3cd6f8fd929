//! Which app or window a command acts on: the hint printed when a targeting
//! flag was guessed wrong, window lookup by ID, and the origin `--relative`
//! coordinates are measured from.
use vstd::prelude::*;

use crate::element::{ElementFrame, WindowInfo, WindowRef};
use crate::error::LokiError;
use crate::text::{
    chars_of, decimal, i32_to_decimal, join, join_strings, own, signed_decimal, str_eq,
    trim_bounds_char, trim_start_char, usize_to_decimal, views,
};

verus! {

// ───────────────────────── the targeting hint ─────────────────────────

/// An argument of a command, as the targeting hint reads it: its id and
/// whether it is positional.
#[derive(Debug, Clone)]
pub struct ArgInfo {
    pub id: String,
    pub positional: bool,
}

/// A subcommand: its name and its arguments in declaration order.
#[derive(Debug, Clone)]
pub struct CommandInfo {
    pub name: String,
    pub args: Vec<ArgInfo>,
}

/// The argument ids that name *which app or window* a command acts on.
pub open spec fn targeting_args() -> Seq<Seq<char>> {
    seq!["pid"@, "bundle_id"@, "window"@, "window_id"@]
}

/// Whether `id` is a targeting argument id.
pub open spec fn is_targeting(id: Seq<char>) -> bool {
    targeting_args().contains(id)
}

fn is_targeting_exec(id: &str) -> (r: bool)
    ensures
        r == is_targeting(id@),
{
    let r = str_eq(id, "pid") || str_eq(id, "bundle_id") || str_eq(id, "window") || str_eq(
        id,
        "window_id",
    );
    proof {
        if r {
            if id@ == "pid"@ {
                assert(targeting_args()[0] == id@);
            } else if id@ == "bundle_id"@ {
                assert(targeting_args()[1] == id@);
            } else if id@ == "window"@ {
                assert(targeting_args()[2] == id@);
            } else {
                assert(targeting_args()[3] == id@);
            }
        }
    }
    r
}

/// Whether `c` ends the first piece of an argument: `=` or a space.
pub open spec fn is_piece_stop(c: char) -> bool {
    c == '=' || c == ' '
}

/// `k` is where the first piece of `s` ends.
pub open spec fn piece_end(s: Seq<char>, k: int) -> bool {
    &&& 0 <= k <= s.len()
    &&& forall|j: int| 0 <= j < k ==> !is_piece_stop(#[trigger] s[j])
    &&& (k == s.len() || is_piece_stop(s[k]))
}

/// The text of `s` before its first `=` or space.
pub open spec fn first_piece(s: Seq<char>) -> Seq<char> {
    s.take(choose|k: int| piece_end(s, k))
}

/// `-` replaced by `_` throughout.
pub open spec fn dashes_to_underscores(s: Seq<char>) -> Seq<char> {
    s.map_values(|c: char| if c == '-' { '_' } else { c })
}

/// `_` replaced by `-` throughout.
pub open spec fn underscores_to_dashes(s: Seq<char>) -> Seq<char> {
    s.map_values(|c: char| if c == '_' { '-' } else { c })
}

/// ASCII letters made upper case.
pub open spec fn ascii_upper(s: Seq<char>) -> Seq<char> {
    s.map_values(|c: char| if 'a' <= c && c <= 'z' { ((c as u32) - 32) as char } else { c })
}

/// The argument id an unknown-argument text names: leading dashes dropped,
/// cut at the first `=` or space, dashes read as underscores.
pub open spec fn invalid_arg_id(invalid: Seq<char>) -> Seq<char> {
    dashes_to_underscores(first_piece(trim_start_char(invalid, '-')))
}

fn invalid_arg_id_exec(invalid: &str) -> (r: String)
    ensures
        r@ == invalid_arg_id(invalid@),
{
    let cs = chars_of(invalid);
    let (start, _) = trim_bounds_char(&cs, '-');
    let ghost t = cs@.subrange(start as int, cs@.len() as int);
    let mut k: usize = start;
    while k < cs.len() && cs[k] != '=' && cs[k] != ' '
        invariant
            start <= k <= cs@.len(),
            t == cs@.subrange(start as int, cs@.len() as int),
            forall|j: int| 0 <= j < k - start ==> !is_piece_stop(#[trigger] t[j]),
        decreases cs@.len() - k,
    {
        k += 1;
    }
    proof {
        let m = (k - start) as int;
        assert(piece_end(t, m));
        let c = choose|c: int| piece_end(t, c);
        if c < m {
            assert(!is_piece_stop(t[c]));
        } else if c > m {
            assert(!is_piece_stop(t[m]));
        }
        assert(c == m);
        assert(t.take(m) =~= cs@.subrange(start as int, k as int));
    }
    let mut r = String::new();
    let mut i: usize = start;
    while i < k
        invariant
            start <= i <= k <= cs@.len(),
            r@ == dashes_to_underscores(cs@.subrange(start as int, i as int)),
        decreases k - i,
    {
        let c = cs[i];
        crate::text::push_char(&mut r, if c == '-' { '_' } else { c });
        proof {
            assert(dashes_to_underscores(cs@.subrange(start as int, i + 1)) =~= dashes_to_underscores(
                cs@.subrange(start as int, i as int),
            ).push(if c == '-' { '_' } else { c }));
        }
        i += 1;
    }
    r
}

/// How the hint names an accepted argument: `<ID>` for a positional one,
/// `--id-with-dashes` for a flag.
pub open spec fn flag_name(a: ArgInfo) -> Seq<char> {
    if a.positional {
        "<"@ + ascii_upper(a.id@) + ">"@
    } else {
        "--"@ + underscores_to_dashes(a.id@)
    }
}

/// The targeting arguments among `args`, named as the hint names them.
pub open spec fn accepted_flags(args: Seq<ArgInfo>) -> Seq<Seq<char>>
    decreases args.len(),
{
    if args.len() == 0 {
        Seq::empty()
    } else {
        let rest = accepted_flags(args.drop_last());
        if is_targeting(args.last().id@) {
            rest.push(flag_name(args.last()))
        } else {
            rest
        }
    }
}

fn flag_name_exec(a: &ArgInfo) -> (r: String)
    ensures
        r@ == flag_name(*a),
{
    let cs = chars_of(a.id.as_str());
    let mut body = String::new();
    let mut i: usize = 0;
    while i < cs.len()
        invariant
            i <= cs@.len(),
            cs@ == a.id@,
            body@ == if a.positional {
                ascii_upper(cs@.take(i as int))
            } else {
                underscores_to_dashes(cs@.take(i as int))
            },
        decreases cs@.len() - i,
    {
        let c = cs[i];
        let d = if a.positional {
            if 'a' <= c && c <= 'z' {
                let b: u8 = (c as u8) - 32;
                b as char
            } else {
                c
            }
        } else if c == '_' {
            '-'
        } else {
            c
        };
        crate::text::push_char(&mut body, d);
        proof {
            assert(cs@.take(i + 1) =~= cs@.take(i as int).push(c));
            assert(ascii_upper(cs@.take(i + 1)) =~= ascii_upper(cs@.take(i as int)).push(
                if 'a' <= c && c <= 'z' { ((c as u32) - 32) as char } else { c },
            ));
            assert(underscores_to_dashes(cs@.take(i + 1)) =~= underscores_to_dashes(cs@.take(i as int)).push(
                if c == '_' { '-' } else { c },
            ));
            if a.positional && 'a' <= c && c <= 'z' {
                assert(((c as u8) - 32) as char == ((c as u32) - 32) as char);
            }
        }
        i += 1;
    }
    proof {
        assert(cs@.take(i as int) =~= cs@);
    }
    if a.positional {
        let mut r = own("<");
        r.append(body.as_str());
        r.append(">");
        r
    } else {
        let mut r = own("--");
        r.append(body.as_str());
        r
    }
}

/// The index of the first command from `k` on named `name`.
pub open spec fn command_index(cmds: Seq<CommandInfo>, name: Seq<char>, k: int) -> Option<int>
    decreases cmds.len() - k,
{
    if k < 0 || k >= cmds.len() {
        None
    } else if cmds[k].name@ == name {
        Some(k)
    } else {
        command_index(cmds, name, k + 1)
    }
}

/// The command named by the first token of `argv` from `k` on that names one:
/// the subcommand always precedes its own arguments.
pub open spec fn invoked_command(argv: Seq<Seq<char>>, cmds: Seq<CommandInfo>, k: int) -> Option<int>
    decreases argv.len() - k,
{
    if k < 0 || k >= argv.len() {
        None
    } else {
        match command_index(cmds, argv[k], 0) {
            Some(i) => Some(i),
            None => invoked_command(argv, cmds, k + 1),
        }
    }
}

proof fn lemma_command_index_bound(cmds: Seq<CommandInfo>, name: Seq<char>, k: int)
    ensures
        command_index(cmds, name, k) matches Some(i) ==> 0 <= i < cmds.len(),
    decreases cmds.len() - k,
{
    if 0 <= k < cmds.len() && cmds[k].name@ != name {
        lemma_command_index_bound(cmds, name, k + 1);
    }
}

fn command_index_exec(cmds: &Vec<CommandInfo>, name: &str) -> (r: Option<usize>)
    ensures
        r matches Some(j) ==> command_index(cmds@, name@, 0) == Some(j as int),
        r is None ==> command_index(cmds@, name@, 0) is None,
{
    let mut k: usize = 0;
    while k < cmds.len()
        invariant
            k <= cmds@.len(),
            command_index(cmds@, name@, 0) == command_index(cmds@, name@, k as int),
        decreases cmds@.len() - k,
    {
        if str_eq(cmds[k].name.as_str(), name) {
            return Some(k);
        }
        k += 1;
    }
    None
}

/// What the targeting hint says of a failed command line.
pub open spec fn targeting_hint_of(
    unknown_argument: bool,
    invalid: Option<String>,
    argv: Seq<Seq<char>>,
    cmds: Seq<CommandInfo>,
) -> Option<Seq<char>> {
    if !unknown_argument {
        None
    } else {
        match invalid {
            None => None,
            Some(inv) => if !is_targeting(invalid_arg_id(inv@)) {
                None
            } else {
                match invoked_command(argv, cmds, 0) {
                    None => None,
                    Some(ci) => {
                        let c = cmds[ci];
                        let accepted = accepted_flags(c.args@);
                        if accepted.len() == 0 {
                            Some("note: `loki "@ + c.name@ + "` takes no targeting flags"@)
                        } else {
                            Some("note: `loki "@ + c.name@ + "` targets with "@ + join(accepted, ", "@))
                        }
                    },
                }
            },
        }
    }
}

/// Name the targeting flags the command actually accepts, when the user
/// guessed a wrong one.
///
/// A parse error that says "unexpected argument '--bundle-id' found" says what
/// was passed and never what the command takes, and targeting is the one place
/// the surface isn't uniform: `screenshot` takes only `--window`, while
/// `find`/`tree`/`wait-for` take a bare `<WINDOW_ID>` positional. So when the
/// error is an unknown argument (`unknown_argument`) whose text (`invalid`)
/// names a targeting argument, this names the ones the invoked command takes.
/// `commands` is the command tree (each subcommand's name and arguments);
/// `argv` is the command line without the program name.
pub fn targeting_hint(
    unknown_argument: bool,
    invalid: &Option<String>,
    argv: &Vec<String>,
    commands: &Vec<CommandInfo>,
) -> (r: Option<String>)
    ensures
        match targeting_hint_of(unknown_argument, *invalid, views(argv@), commands@) {
            Some(h) => r matches Some(s) && s@ == h,
            None => r is None,
        },
{
    if !unknown_argument {
        return None;
    }
    let inv = match invalid {
        Some(s) => s,
        None => return None,
    };
    let id = invalid_arg_id_exec(inv.as_str());
    if !is_targeting_exec(id.as_str()) {
        return None;
    }
    let mut k: usize = 0;
    let mut found: Option<usize> = None;
    while found.is_none() && k < argv.len()
        invariant
            k <= argv@.len(),
            found is Some ==> (found->0 < commands@.len() && invoked_command(views(argv@), commands@, 0)
                == Some(found->0 as int)),
            found is None ==> invoked_command(views(argv@), commands@, 0) == invoked_command(
                views(argv@),
                commands@,
                k as int,
            ),
        decreases argv@.len() - k,
    {
        proof {
            assert(views(argv@)[k as int] == argv@[k as int]@);
        }
        let ghost name = argv@[k as int]@;
        found = command_index_exec(commands, argv[k].as_str());
        proof {
            lemma_command_index_bound(commands@, name, 0);
            assert(invoked_command(views(argv@), commands@, k as int) == match command_index(
                commands@,
                name,
                0,
            ) {
                Some(i) => Some(i),
                None => invoked_command(views(argv@), commands@, k + 1),
            });
        }
        k += 1;
    }
    let ci = match found {
        Some(i) => i,
        None => return None,
    };
    let cmd = &commands[ci];
    let mut accepted: Vec<String> = Vec::new();
    let mut j: usize = 0;
    while j < cmd.args.len()
        invariant
            j <= cmd.args@.len(),
            views(accepted@) == accepted_flags(cmd.args@.take(j as int)),
        decreases cmd.args@.len() - j,
    {
        proof {
            assert(cmd.args@.take(j + 1).drop_last() =~= cmd.args@.take(j as int));
        }
        let a = &cmd.args[j];
        if is_targeting_exec(a.id.as_str()) {
            let ghost before = views(accepted@);
            accepted.push(flag_name_exec(a));
            proof {
                assert(views(accepted@) =~= before.push(flag_name(*a)));
            }
        }
        j += 1;
    }
    proof {
        assert(cmd.args@.take(j as int) =~= cmd.args@);
    }
    let mut note = own("note: `loki ");
    note.append(cmd.name.as_str());
    if accepted.len() == 0 {
        note.append("` takes no targeting flags");
    } else {
        note.append("` targets with ");
        note.append(join_strings(&accepted, ", ").as_str());
    }
    Some(note)
}

// ───────────────────────── windows by ID ─────────────────────────

/// The index of the first window from `k` on with the ID `id`.
pub open spec fn window_index(ws: Seq<WindowInfo>, id: u32, k: int) -> Option<int>
    decreases ws.len() - k,
{
    if k < 0 || k >= ws.len() {
        None
    } else if ws[k].window_id == id {
        Some(k)
    } else {
        window_index(ws, id, k + 1)
    }
}

fn window_index_exec(ws: &Vec<WindowInfo>, id: u32) -> (r: Option<usize>)
    ensures
        r matches Some(j) ==> window_index(ws@, id, 0) == Some(j as int) && j < ws@.len(),
        r is None ==> window_index(ws@, id, 0) is None,
{
    let mut k: usize = 0;
    while k < ws.len()
        invariant
            k <= ws@.len(),
            window_index(ws@, id, 0) == window_index(ws@, id, k as int),
        decreases ws@.len() - k,
    {
        if ws[k].window_id == id {
            return Some(k);
        }
        k += 1;
    }
    None
}

/// The error for a window ID that no window has.
pub open spec fn window_not_found(id: u32) -> Seq<char> {
    "window_id="@ + decimal(id as nat)
}

fn window_not_found_exec(id: u32) -> (r: LokiError)
    ensures
        r matches LokiError::WindowNotFound(m) && m@ == window_not_found(id),
{
    let mut m = own("window_id=");
    m.append(usize_to_decimal(id as usize).as_str());
    LokiError::WindowNotFound(m)
}

/// Look up a window by ID in the system window list `windows` (untitled
/// windows included), as a reference by ID and owning PID.
pub fn find_window_ref(windows: &Vec<WindowInfo>, window_id: u32) -> (r: Result<WindowRef, LokiError>)
    ensures
        match window_index(windows@, window_id, 0) {
            Some(i) => r matches Ok(w) && w.window_id == window_id && w.pid == windows@[i].pid,
            None => r matches Err(LokiError::WindowNotFound(m)) && m@ == window_not_found(window_id),
        },
{
    match window_index_exec(windows, window_id) {
        Some(i) => {
            proof {
                lemma_window_index_found(windows@, window_id, 0);
            }
            Ok(WindowRef { window_id: windows[i].window_id, pid: windows[i].pid })
        },
        None => Err(window_not_found_exec(window_id)),
    }
}

/// A window found by ID has that ID.
pub proof fn lemma_window_index_found(ws: Seq<WindowInfo>, id: u32, k: int)
    ensures
        window_index(ws, id, k) matches Some(i) ==> k <= i < ws.len() && ws[i].window_id == id,
    decreases ws.len() - k,
{
    if 0 <= k < ws.len() && ws[k].window_id != id {
        lemma_window_index_found(ws, id, k + 1);
    }
}

// ───────────────────────── the `--relative` origin ─────────────────────────

/// The indices of the on-screen windows of `ws` owned by `pid`, in order.
pub open spec fn on_screen_of(ws: Seq<WindowInfo>, pid: u32) -> Seq<int>
    decreases ws.len(),
{
    if ws.len() == 0 {
        Seq::empty()
    } else {
        let rest = on_screen_of(ws.drop_last(), pid);
        if ws.last().pid == pid && ws.last().is_on_screen {
            rest.push(ws.len() - 1)
        } else {
            rest
        }
    }
}

/// The message for `--relative` without a frame to measure from.
pub open spec fn relative_needs_frame() -> Seq<char> {
    "--relative needs a frame to resolve against — pass --window <ID> (or --pid <PID> / --bundle-id <ID> for a single-window app)"@
}

/// How a candidate window is listed when several could be the origin.
pub open spec fn candidate_line(w: WindowInfo, position: Seq<char>) -> Seq<char> {
    "  --window "@ + decimal(w.window_id as nat) + " — \""@ + (if w.title@.len() == 0 {
        "<untitled>"@
    } else {
        w.title@
    }) + "\" at "@ + position
}

/// The candidate lines for the windows at `idx`.
pub open spec fn candidate_lines(ws: Seq<WindowInfo>, positions: Seq<Seq<char>>, idx: Seq<int>) -> Seq<Seq<char>> {
    idx.map_values(|i: int| candidate_line(ws[i], positions[i]))
}

/// What `resolve_relative_origin` answers.
pub open spec fn relative_origin(
    relative: bool,
    pid: Option<i32>,
    window_id: Option<u32>,
    ws: Seq<WindowInfo>,
    positions: Seq<Seq<char>>,
    r: Result<Option<ElementFrame>, LokiError>,
) -> bool {
    if !relative {
        r == Ok::<Option<ElementFrame>, LokiError>(None)
    } else {
        match window_id {
            Some(wid) => match window_index(ws, wid, 0) {
                Some(i) => r == Ok::<Option<ElementFrame>, LokiError>(Some(ws[i].frame)),
                None => r matches Err(LokiError::WindowNotFound(m)) && m@ == window_not_found(wid),
            },
            None => match pid {
                None => r matches Err(LokiError::InputError(m)) && m@ == relative_needs_frame(),
                Some(p) => {
                    let on = on_screen_of(ws, p as u32);
                    if on.len() == 1 {
                        r == Ok::<Option<ElementFrame>, LokiError>(Some(ws[on[0]].frame))
                    } else if on.len() == 0 {
                        r matches Err(LokiError::InputError(m)) && m@ == "--relative: PID "@ + signed_decimal(p as int)
                            + " has no on-screen window to resolve coordinates against"@
                    } else {
                        r matches Err(LokiError::InputError(m)) && m@ == "--relative: PID "@ + signed_decimal(p as int)
                            + " has "@ + decimal(on.len()) + " on-screen windows — name one with --window:\n"@
                            + join(candidate_lines(ws, positions, on), "\n"@)
                    }
                },
            },
        }
    }
}

/// Resolve the frame origin `--relative` coordinates are measured from.
///
/// `None` when the flag is off — callers then use the coordinates as given.
/// The target must be unambiguous: a wrong origin produces a click that lands
/// somewhere plausible and still succeeds. `--window` names exactly one window
/// and always wins; an app (named by `--pid` or `--bundle-id`, already resolved
/// to `pid` here) is only usable when it owns exactly one on-screen window.
///
/// `windows` is the system window list (untitled windows included), and
/// `positions[i]` the rendered origin (`x,y`) of `windows[i]`, shown when
/// several windows could be meant. The answer is the chosen window's frame.
pub fn resolve_relative_origin(
    relative: bool,
    pid: Option<i32>,
    window_id: Option<u32>,
    windows: &Vec<WindowInfo>,
    positions: &Vec<String>,
) -> (r: Result<Option<ElementFrame>, LokiError>)
    requires
        positions@.len() == windows@.len(),
    ensures
        relative_origin(relative, pid, window_id, windows@, views(positions@), r),
{
    if !relative {
        return Ok(None);
    }
    if let Some(wid) = window_id {
        return match window_index_exec(windows, wid) {
            Some(i) => {
                proof {
                    lemma_window_index_found(windows@, wid, 0);
                }
                Ok(Some(windows[i].frame))
            },
            None => Err(window_not_found_exec(wid)),
        };
    }
    let p = match pid {
        Some(p) => p,
        None => {
            return Err(
                LokiError::InputError(
                    own(
                        "--relative needs a frame to resolve against — pass --window <ID> (or --pid <PID> / --bundle-id <ID> for a single-window app)",
                    ),
                ),
            )
        },
    };
    let owner: u32 = p as u32;
    let mut on: Vec<usize> = Vec::new();
    let mut i: usize = 0;
    while i < windows.len()
        invariant
            i <= windows@.len(),
            on@.len() == on_screen_of(windows@.take(i as int), owner).len(),
            forall|k: int| 0 <= k < on@.len() ==> #[trigger] on@[k] as int == on_screen_of(windows@.take(i as int), owner)[k]
                && on@[k] < i,
        decreases windows@.len() - i,
    {
        proof {
            assert(windows@.take(i + 1).drop_last() =~= windows@.take(i as int));
        }
        if windows[i].pid == owner && windows[i].is_on_screen {
            on.push(i);
        }
        i += 1;
    }
    proof {
        assert(windows@.take(i as int) =~= windows@);
    }
    let ghost spec_on = on_screen_of(windows@, owner);
    if on.len() == 1 {
        return Ok(Some(windows[on[0]].frame));
    }
    let mut m = own("--relative: PID ");
    m.append(i32_to_decimal(p).as_str());
    if on.len() == 0 {
        m.append(" has no on-screen window to resolve coordinates against");
        return Err(LokiError::InputError(m));
    }
    let mut lines: Vec<String> = Vec::new();
    let mut j: usize = 0;
    while j < on.len()
        invariant
            j <= on@.len(),
            on@.len() == spec_on.len(),
            positions@.len() == windows@.len(),
            forall|k: int| 0 <= k < on@.len() ==> #[trigger] on@[k] as int == spec_on[k] && on@[k] < windows@.len(),
            views(lines@) == candidate_lines(windows@, views(positions@), spec_on.take(j as int)),
        decreases on@.len() - j,
    {
        let w = &windows[on[j]];
        let mut l = own("  --window ");
        l.append(usize_to_decimal(w.window_id as usize).as_str());
        l.append(" — \"");
        if w.title.as_str().is_empty() {
            l.append("<untitled>");
        } else {
            l.append(w.title.as_str());
        }
        l.append("\" at ");
        l.append(positions[on[j]].as_str());
        let ghost before = views(lines@);
        lines.push(l);
        proof {
            assert(spec_on.take(j + 1) =~= spec_on.take(j as int).push(spec_on[j as int]));
            assert(views(positions@)[on@[j as int] as int] == positions@[on@[j as int] as int]@);
            assert(views(lines@) =~= before.push(candidate_line(windows@[spec_on[j as int]], views(positions@)[spec_on[j as int]])));
            assert(candidate_lines(windows@, views(positions@), spec_on.take(j + 1)) =~= candidate_lines(
                windows@,
                views(positions@),
                spec_on.take(j as int),
            ).push(candidate_line(windows@[spec_on[j as int]], views(positions@)[spec_on[j as int]])));
        }
        j += 1;
    }
    proof {
        assert(spec_on.take(j as int) =~= spec_on);
    }
    m.append(" has ");
    m.append(usize_to_decimal(on.len()).as_str());
    m.append(" on-screen windows — name one with --window:\n");
    m.append(join_strings(&lines, "\n").as_str());
    Err(LokiError::InputError(m))
}

// ───────────────────────── an app's accessibility windows ─────────────────────────

/// Whether an optional title is present and equal to `t`.
pub open spec fn title_is(title: Option<String>, t: Seq<char>) -> bool {
    title matches Some(s) && s@ == t
}

/// Which of an app's accessibility windows, given by their titles in order, is
/// meant by `window_title`: the first whose title equals it exactly, else the
/// first window at all (the window list's title and the accessibility title
/// need not agree).
pub open spec fn ax_window_choice(titles: Seq<Option<String>>, window_title: Seq<char>) -> Option<int> {
    if exists|i: int| 0 <= i < titles.len() && title_is(#[trigger] titles[i], window_title) {
        Some(
            choose|i: int|
                0 <= i < titles.len() && title_is(#[trigger] titles[i], window_title) && forall|j: int|
                    0 <= j < i ==> !title_is(#[trigger] titles[j], window_title),
        )
    } else if titles.len() > 0 {
        Some(0)
    } else {
        None
    }
}

/// Pick the accessibility window meant by `window_title` among an app's
/// windows, given by their titles in order; `None` when the app has none.
pub fn pick_ax_window(titles: &Vec<Option<String>>, window_title: &str) -> (r: Option<usize>)
    ensures
        match ax_window_choice(titles@, window_title@) {
            Some(i) => r == Some(i as usize),
            None => r is None,
        },
{
    let mut i: usize = 0;
    while i < titles.len()
        invariant
            i <= titles@.len(),
            forall|j: int| 0 <= j < i ==> !title_is(#[trigger] titles@[j], window_title@),
        decreases titles@.len() - i,
    {
        if let Some(t) = &titles[i] {
            if str_eq(t.as_str(), window_title) {
                proof {
                    assert(title_is(titles@[i as int], window_title@));
                    let c = choose|c: int|
                        0 <= c < titles@.len() && title_is(#[trigger] titles@[c], window_title@) && forall|j: int|
                            0 <= j < c ==> !title_is(#[trigger] titles@[j], window_title@);
                    if c > i {
                        assert(!title_is(titles@[i as int], window_title@));
                    }
                }
                return Some(i);
            }
        }
        i += 1;
    }
    if titles.len() > 0 {
        Some(0)
    } else {
        None
    }
}

/// The error for an app with no accessibility window at all.
pub fn no_ax_window(window_title: &str, pid: i32) -> (r: LokiError)
    ensures
        r matches LokiError::WindowNotFound(m) && m@ == "no AX window with title '"@ + window_title@
            + "' for PID "@ + signed_decimal(pid as int),
{
    let mut m = own("no AX window with title '");
    m.append(window_title);
    m.append("' for PID ");
    m.append(i32_to_decimal(pid).as_str());
    LokiError::WindowNotFound(m)
}

// ───────────────────────── which app an input command targets ─────────────────────────

/// How the targeting flags every input command shares name the app.
#[derive(Debug, Clone, PartialEq, Eq)]
pub enum TargetLookup {
    /// `--pid` named the process.
    Pid(i32),
    /// `--window` named a window; the target is its owner.
    WindowOwner(u32),
    /// `--bundle-id` named the app; the target is its process.
    Bundle(String),
    /// No flag: whatever has focus.
    Focused,
}

/// The lookup the targeting flags call for, in their documented precedence:
/// `--pid`, then `--window`, then `--bundle-id`. A later flag is never
/// consulted when an earlier one is given.
pub fn target_lookup(pid: Option<u32>, window_id: Option<u32>, bundle_id: &Option<String>) -> (r: TargetLookup)
    ensures
        match (pid, window_id, bundle_id) {
            (Some(p), _, _) => r == TargetLookup::Pid(p as i32),
            (None, Some(w), _) => r == TargetLookup::WindowOwner(w),
            (None, None, Some(b)) => r matches TargetLookup::Bundle(s) && s@ == b@,
            (None, None, None) => r == TargetLookup::Focused,
        },
{
    if let Some(p) = pid {
        TargetLookup::Pid(p as i32)
    } else if let Some(w) = window_id {
        TargetLookup::WindowOwner(w)
    } else if let Some(b) = bundle_id {
        TargetLookup::Bundle(b.clone())
    } else {
        TargetLookup::Focused
    }
}

// ───────────────────────── a window's title ─────────────────────────

/// The title of the first window of `windows` with the ID `window_id`, or the
/// empty title when there is none.
pub fn window_title_of(windows: &Vec<WindowInfo>, window_id: u32) -> (r: String)
    ensures
        match window_index(windows@, window_id, 0) {
            Some(i) => r@ == windows@[i].title@,
            None => r@.len() == 0,
        },
{
    match window_index_exec(windows, window_id) {
        Some(i) => {
            proof {
                lemma_window_index_found(windows@, window_id, 0);
            }
            windows[i].title.clone()
        },
        None => String::new(),
    }
}

/// The first window of `windows` with the ID `window_id`, if its title now
/// matches `filter`'s title pattern (what `wait-title` waits for).
pub fn window_if_titled(windows: &Vec<WindowInfo>, window_id: u32, filter: &crate::query::WindowFilter) -> (r:
    Option<WindowInfo>)
    ensures
        match window_index(windows@, window_id, 0) {
            Some(i) => if crate::query::title_passes(*filter, windows@[i].title@) {
                r == Some(windows@[i])
            } else {
                r is None
            },
            None => r is None,
        },
{
    match window_index_exec(windows, window_id) {
        Some(i) => {
            proof {
                lemma_window_index_found(windows@, window_id, 0);
            }
            if filter.matches_title(windows[i].title.as_str()) {
                Some(windows[i].duplicate())
            } else {
                None
            }
        },
        None => None,
    }
}

} // verus!
