//! The computing side of launching, killing and describing applications:
//! command arguments, and reading what `lsappinfo`, `ps` and `mdls` print.
use vstd::prelude::*;

use crate::element::{AppInfo, AppTarget};
use crate::error::LokiError;
use crate::text::{
    concat2, concat3, debug_quote, debug_quoted, decimal, lines, lines_of, parse_u32,
    parse_u32_spec, split_pieces, split_str, str_contains, contains_seq, str_eq, trim, trim_char,
    trim_char_str, trim_str, u64_to_decimal, chars_of, string_from_range,
};

verus! {

/// How a target prints with `{:?}`.
pub open spec fn target_debug(t: AppTarget) -> Seq<char> {
    match t {
        AppTarget::BundleId(b) => "BundleId("@ + debug_quoted(b@) + ")"@,
        AppTarget::Path(p) => "Path("@ + debug_quoted(p@) + ")"@,
        AppTarget::Pid(n) => "Pid("@ + decimal(n as nat) + ")"@,
    }
}

/// `format!("{target:?}")`.
pub fn target_debug_text(t: &AppTarget) -> (r: String)
    ensures
        r@ == target_debug(*t),
{
    match t {
        AppTarget::BundleId(b) => {
            let q = debug_quote(b.as_str());
            concat3("BundleId(", q.as_str(), ")")
        },
        AppTarget::Path(p) => {
            let q = debug_quote(p.as_str());
            concat3("Path(", q.as_str(), ")")
        },
        AppTarget::Pid(n) => {
            let d = u64_to_decimal(*n as u64);
            concat3("Pid(", d.as_str(), ")")
        },
    }
}

/// The arguments `open` is run with to launch a target: `-b <bundle id>` or
/// the path, then `--args` and the extra arguments when there are any. A PID
/// cannot be launched.
pub fn launch_arguments(target: &AppTarget, args: &Vec<String>) -> (r: Result<Vec<String>, LokiError>)
    ensures
        match *target {
            AppTarget::Pid(_) => r matches Err(LokiError::LaunchFailed(m)) && m@
                == "cannot launch by PID — use bundle ID or path"@,
            AppTarget::BundleId(b) => r matches Ok(v) && crate::text::views(v@) == seq!["-b"@, b@]
                + extra_args(args@),
            AppTarget::Path(p) => r matches Ok(v) && crate::text::views(v@) == seq![p@] + extra_args(args@),
        },
{
    let mut v: Vec<String> = Vec::new();
    match target {
        AppTarget::BundleId(b) => {
            v.push(String::from_str("-b"));
            v.push(b.clone());
        },
        AppTarget::Path(p) => {
            v.push(p.clone());
        },
        AppTarget::Pid(_) => {
            return Err(LokiError::LaunchFailed(String::from_str("cannot launch by PID — use bundle ID or path")));
        },
    }
    let ghost head = crate::text::views(v@);
    if args.len() > 0 {
        v.push(String::from_str("--args"));
        let mut i: usize = 0;
        assert(crate::text::views(v@) =~= head + seq!["--args"@] + crate::text::views(args@.take(0)));
        while i < args.len()
            invariant
                i <= args@.len(),
                args@.len() > 0,
                crate::text::views(v@) == head + seq!["--args"@] + crate::text::views(args@.take(i as int)),
            decreases args@.len() - i,
        {
            let ghost pre = v@;
            v.push(args[i].clone());
            proof {
                assert(v@.drop_last() =~= pre);
                assert(crate::text::views(args@.take(i + 1)) =~= crate::text::views(args@.take(i as int)).push(
                    args@[i as int]@,
                ));
                assert(crate::text::views(v@) =~= crate::text::views(v@.drop_last()).push(args@[i as int]@));
                assert(crate::text::views(v@) =~= head + seq!["--args"@] + crate::text::views(args@.take(i + 1)));
            }
            i += 1;
        }
        proof {
            assert(args@.take(i as int) =~= args@);
        }
    }
    proof {
        assert(crate::text::views(v@) =~= head + extra_args(args@));
    }
    Ok(v)
}

/// `--args` and the extra arguments, or nothing when there are none.
pub open spec fn extra_args(args: Seq<String>) -> Seq<Seq<char>> {
    if args.len() == 0 {
        Seq::empty()
    } else {
        seq!["--args"@] + crate::text::views(args)
    }
}

/// The arguments `kill` is run with: the signal (`-KILL` when forced, `-TERM`
/// otherwise) and the PID.
pub fn kill_arguments(pid: u32, force: bool) -> (r: Vec<String>)
    ensures
        crate::text::views(r@) == seq![if force { "-KILL"@ } else { "-TERM"@ }, decimal(pid as nat)],
{
    let mut v: Vec<String> = Vec::new();
    v.push(String::from_str(if force { "-KILL" } else { "-TERM" }));
    v.push(u64_to_decimal(pid as u64));
    proof {
        assert(crate::text::views(v@) =~= seq![if force { "-KILL"@ } else { "-TERM"@ }, decimal(pid as nat)]);
    }
    v
}

/// Whether killing found anything to signal: an empty PID list is refused as
/// an app that is not running.
pub fn require_running(target: &AppTarget, pids: &[u32]) -> (r: Result<(), LokiError>)
    ensures
        pids@.len() > 0 ==> r is Ok,
        pids@.len() == 0 ==> (r matches Err(LokiError::AppNotFound(m)) && m@ == target_debug(*target)),
{
    if pids.len() == 0 {
        return Err(LokiError::AppNotFound(target_debug_text(target)));
    }
    Ok(())
}

/// Check if an app is running, given the PIDs its target resolved to.
pub fn app_is_running(pids: &[u32]) -> (r: bool)
    ensures
        r == (pids@.len() > 0),
{
    pids.len() > 0
}

/// Info about a running application, from the PIDs its target resolved to and
/// what was looked up for the first of them: its process name (`pid:<PID>`
/// when unknown), bundle ID, and whether it is frontmost.
pub fn get_app_info(
    target: &AppTarget,
    pids: &[u32],
    name: Option<String>,
    bundle_id: Option<String>,
    is_active: bool,
) -> (r: Result<AppInfo, LokiError>)
    ensures
        pids@.len() == 0 ==> (r matches Err(LokiError::AppNotFound(m)) && m@ == target_debug(*target)),
        pids@.len() > 0 ==> (r matches Ok(info) && info.pid == pids@[0] && info.bundle_id == bundle_id
            && info.is_active == is_active && info.name@ == match name {
            Some(n) => n@,
            None => "pid:"@ + decimal(pids@[0] as nat),
        }),
{
    if pids.len() == 0 {
        return Err(LokiError::AppNotFound(target_debug_text(target)));
    }
    let pid = pids[0];
    let name = match name {
        Some(n) => n,
        None => {
            let d = u64_to_decimal(pid as u64);
            concat2("pid:", d.as_str())
        },
    };
    Ok(AppInfo { pid, bundle_id, name, is_active })
}

// ───────────────────────── reading tool output ─────────────────────────

/// The second `=`-separated piece of a line, if it has one.
pub open spec fn after_equals(line: Seq<char>) -> Option<Seq<char>> {
    let pieces = split_pieces(line, seq!['=']);
    if pieces.len() >= 2 {
        Some(pieces[1])
    } else {
        None
    }
}

/// A value from an `lsappinfo` line: trimmed, then stripped of double quotes.
pub open spec fn unquoted(v: Seq<char>) -> Seq<char> {
    trim_char(trim(v), '"')
}

fn after_equals_exec(line: &str) -> (r: Option<String>)
    ensures
        match after_equals(line@) {
            Some(v) => r matches Some(x) && x@ == v,
            None => r is None,
        },
{
    let pieces = split_str(line, "=");
    proof {
        reveal_strlit("=");
        assert("="@ =~= seq!['=']);
    }
    if pieces.len() >= 2 {
        Some(pieces[1].clone())
    } else {
        None
    }
}

fn unquoted_exec(v: &str) -> (r: String)
    ensures
        r@ == unquoted(v@),
{
    let t = trim_str(v);
    trim_char_str(t.as_str(), '"')
}

/// The positive PIDs named on the first `k` lines of `lsappinfo` output.
pub open spec fn pids_in_lines(ls: Seq<Seq<char>>, k: int) -> Seq<u32>
    decreases k,
{
    if k <= 0 || k > ls.len() {
        Seq::empty()
    } else {
        let rest = pids_in_lines(ls, k - 1);
        match after_equals(ls[k - 1]) {
            Some(v) => match parse_u32_spec(unquoted(v)) {
                Some(p) => if p > 0 {
                    rest.push(p)
                } else {
                    rest
                },
                None => rest,
            },
            None => rest,
        }
    }
}

/// The PIDs in `lsappinfo info -only pid` output: on each line the value after
/// the `=`, trimmed and unquoted, when it reads as a positive `u32`.
pub fn pids_from_lsappinfo(text: &str) -> (r: Vec<u32>)
    ensures
        r@ == pids_in_lines(lines(text@), lines(text@).len() as int),
{
    let ls = lines_of(text);
    let ghost sl = lines(text@);
    let mut pids: Vec<u32> = Vec::new();
    let mut i: usize = 0;
    while i < ls.len()
        invariant
            i <= ls@.len(),
            ls@.len() == sl.len(),
            sl == lines(text@),
            forall|k: int| 0 <= k < ls@.len() ==> #[trigger] ls@[k]@ == sl[k],
            pids@ == pids_in_lines(sl, i as int),
        decreases ls@.len() - i,
    {
        if let Some(val) = after_equals_exec(ls[i].as_str()) {
            let u = unquoted_exec(val.as_str());
            if let Some(pid) = parse_u32(u.as_str()) {
                if pid > 0 {
                    pids.push(pid);
                }
            }
        }
        i += 1;
    }
    pids
}

/// The first value among the first `k` lines that `accept` takes, unquoted.
pub open spec fn first_value(ls: Seq<Seq<char>>, k: int, reject_null: bool) -> Option<Seq<char>>
    decreases k,
{
    if k <= 0 || k > ls.len() {
        None
    } else {
        match first_value(ls, k - 1, reject_null) {
            Some(v) => Some(v),
            None => match after_equals(ls[k - 1]) {
                Some(v) => if value_accepted(unquoted(v), reject_null) {
                    Some(unquoted(v))
                } else {
                    None
                },
                None => None,
            },
        }
    }
}

/// A value counts when it is non-empty and, when `reject_null`, is neither
/// `[ NULL ]` nor `(null)`.
pub open spec fn value_accepted(v: Seq<char>, reject_null: bool) -> bool {
    v.len() > 0 && (!reject_null || (v != "[ NULL ]"@ && v != "(null)"@))
}

fn value_from_lsappinfo(text: &str, reject_null: bool) -> (r: Option<String>)
    ensures
        match first_value(lines(text@), lines(text@).len() as int, reject_null) {
            Some(v) => r matches Some(x) && x@ == v,
            None => r is None,
        },
{
    let ls = lines_of(text);
    let ghost sl = lines(text@);
    let mut i: usize = 0;
    while i < ls.len()
        invariant
            i <= ls@.len(),
            ls@.len() == sl.len(),
            sl == lines(text@),
            forall|k: int| 0 <= k < ls@.len() ==> #[trigger] ls@[k]@ == sl[k],
            first_value(sl, i as int, reject_null) is None,
        decreases ls@.len() - i,
    {
        if let Some(val) = after_equals_exec(ls[i].as_str()) {
            let u = unquoted_exec(val.as_str());
            let accepted = !u.as_str().is_empty() && (!reject_null || (!str_eq(u.as_str(), "[ NULL ]")
                && !str_eq(u.as_str(), "(null)")));
            if accepted {
                proof {
                    lemma_first_value_found(sl, i as int + 1, sl.len() as int, reject_null);
                }
                return Some(u);
            }
        }
        i += 1;
    }
    None
}

proof fn lemma_first_value_found(ls: Seq<Seq<char>>, j: int, k: int, reject_null: bool)
    requires
        1 <= j <= k <= ls.len(),
        first_value(ls, j, reject_null) is Some,
    ensures
        first_value(ls, k, reject_null) == first_value(ls, j, reject_null),
    decreases k - j,
{
    if j < k {
        lemma_first_value_found(ls, j, k - 1, reject_null);
    }
}

/// The bundle ID in `lsappinfo info -only bundleid` output: the first
/// non-empty unquoted value after an `=`.
pub fn bundle_id_from_lsappinfo(text: &str) -> (r: Option<String>)
    ensures
        match first_value(lines(text@), lines(text@).len() as int, false) {
            Some(v) => r matches Some(x) && x@ == v,
            None => r is None,
        },
{
    value_from_lsappinfo(text, false)
}

/// Like `bundle_id_from_lsappinfo`, also skipping the `[ NULL ]` and `(null)`
/// placeholders some macOS versions print.
pub fn window_bundle_id_from_lsappinfo(text: &str) -> (r: Option<String>)
    ensures
        match first_value(lines(text@), lines(text@).len() as int, true) {
            Some(v) => r matches Some(x) && x@ == v,
            None => r is None,
        },
{
    value_from_lsappinfo(text, true)
}

/// The part of `s` after its last `/` (all of it when there is none).
pub open spec fn after_last_slash(s: Seq<char>) -> Seq<char>
    decreases s.len(),
{
    if s.len() == 0 {
        s
    } else if s.last() == '/' {
        Seq::empty()
    } else {
        after_last_slash(s.drop_last()).push(s.last())
    }
}

/// The process name `ps -o comm=` printed: the trimmed text after its last `/`,
/// if any remains.
pub fn process_name_from_ps(text: &str) -> (r: Option<String>)
    ensures
        ({
            let n = after_last_slash(trim(text@));
            if n.len() > 0 {
                r matches Some(x) && x@ == n
            } else {
                r is None
            }
        }),
{
    let t = trim_str(text);
    let cs = chars_of(t.as_str());
    let mut start: usize = cs.len();
    assert(cs@.take(cs@.len() as int) =~= cs@);
    assert(cs@.skip(cs@.len() as int) =~= Seq::<char>::empty());
    assert(after_last_slash(cs@) + Seq::<char>::empty() =~= after_last_slash(cs@));
    while start > 0 && cs[start - 1] != '/'
        invariant
            start <= cs@.len(),
            after_last_slash(cs@) == after_last_slash(cs@.take(start as int)) + cs@.skip(start as int),
        decreases start,
    {
        proof {
            let p = cs@.take(start as int);
            assert(p.drop_last() =~= cs@.take(start - 1));
            assert(p.last() == cs@[start - 1]);
            assert(cs@.skip(start - 1) =~= seq![cs@[start - 1]] + cs@.skip(start as int));
            assert(after_last_slash(p) == after_last_slash(cs@.take(start - 1)).push(cs@[start - 1]));
            assert(after_last_slash(cs@.take(start - 1)).push(cs@[start - 1]) + cs@.skip(start as int)
                =~= after_last_slash(cs@.take(start - 1)) + cs@.skip(start - 1));
        }
        start -= 1;
    }
    proof {
        if start > 0 {
            assert(after_last_slash(cs@.take(start as int)) =~= Seq::<char>::empty());
        } else {
            assert(cs@.take(0) =~= Seq::<char>::empty());
        }
        assert(cs@.skip(start as int) =~= cs@.subrange(start as int, cs@.len() as int));
        assert(cs@.take(cs@.len() as int) =~= cs@);
    }
    let name = string_from_range(&cs, start, cs.len());
    if name.as_str().is_empty() {
        None
    } else {
        Some(name)
    }
}

/// The bundle ID `mdls -raw` printed: the trimmed text, unless it is empty or
/// `(null)`.
pub fn bundle_id_from_mdls(text: &str) -> (r: Option<String>)
    ensures
        ({
            let t = trim(text@);
            if t.len() == 0 || t == "(null)"@ {
                r is None
            } else {
                r matches Some(x) && x@ == t
            }
        }),
{
    let t = trim_str(text);
    if t.as_str().is_empty() || str_eq(t.as_str(), "(null)") {
        None
    } else {
        Some(t)
    }
}

/// Whether `lsappinfo`'s status output marks the frontmost application.
pub fn is_front_application(text: &str) -> (r: bool)
    ensures
        r == contains_seq(text@, "LSFrontApplication"@),
{
    str_contains(text, "LSFrontApplication")
}

/// The error for a launch the system refused: what it printed on standard
/// error, trimmed.
pub fn launch_failure(stderr: &str) -> (r: LokiError)
    ensures
        r matches LokiError::LaunchFailed(m) && m@ == crate::text::trim(stderr@),
{
    LokiError::LaunchFailed(crate::text::trim_str(stderr))
}

} // verus!
