//! The macOS desktop driver, and the window selection it applies to the
//! system window list.
use vstd::prelude::*;

use crate::element::WindowInfo;
use crate::query::{window_passes, WindowFilter};

verus! {

/// macOS implementation of the desktop driver. It holds no state: every
/// operation asks the system afresh.
#[derive(Debug, Clone, Copy)]
pub struct MacOSDriver;

impl MacOSDriver {
    pub fn new() -> (r: Self) {
        MacOSDriver
    }
}

impl Default for MacOSDriver {
    fn default() -> (r: Self) {
        MacOSDriver::new()
    }
}

/// The windows of `ws` that pass the filter, in listing order.
pub open spec fn passing_windows(ws: Seq<WindowInfo>, f: WindowFilter) -> Seq<WindowInfo>
    decreases ws.len(),
{
    if ws.len() == 0 {
        Seq::empty()
    } else {
        let rest = passing_windows(ws.drop_last(), f);
        if window_passes(f, ws.last()) {
            rest.push(ws.last())
        } else {
            rest
        }
    }
}

/// The windows of the system list `all` that the filter admits, in order
/// (see `WindowFilter::matches`).
pub fn select_windows(all: &Vec<WindowInfo>, filter: &WindowFilter) -> (r: Vec<WindowInfo>)
    ensures
        r@ == passing_windows(all@, *filter),
{
    let mut out: Vec<WindowInfo> = Vec::new();
    let mut i: usize = 0;
    while i < all.len()
        invariant
            i <= all@.len(),
            out@ == passing_windows(all@.take(i as int), *filter),
        decreases all@.len() - i,
    {
        proof {
            assert(all@.take(i + 1).drop_last() =~= all@.take(i as int));
        }
        if filter.matches(&all[i]) {
            out.push(all[i].duplicate());
        }
        i += 1;
    }
    proof {
        assert(all@.take(i as int) =~= all@);
    }
    out
}

/// The first window of the system list `all` that the filter admits.
pub fn first_window(all: &Vec<WindowInfo>, filter: &WindowFilter) -> (r: Option<WindowInfo>)
    ensures
        match r {
            Some(w) => passing_windows(all@, *filter).len() > 0 && w == passing_windows(all@, *filter)[0],
            None => passing_windows(all@, *filter).len() == 0,
        },
{
    let mut selected = select_windows(all, filter);
    if selected.len() == 0 {
        None
    } else {
        Some(selected.remove(0))
    }
}

// ───────────────────────── waiting ─────────────────────────

/// How long a wait pauses between two looks, in milliseconds.
pub const POLL_INTERVAL_MS: u64 = 100;

/// What a wait does after a look.
#[derive(Debug, Clone, Copy, PartialEq, Eq, Structural)]
pub enum WaitAction {
    /// The condition holds: stop and report success.
    Finish,
    /// Not yet, and there is time left: pause and look again.
    Retry,
    /// Not yet, and the time is up: stop with a timeout.
    GiveUp,
}

/// The step of a wait after a look at `elapsed_ms` into a wait of
/// `timeout_ms`: a satisfied look finishes it, whatever the time; otherwise it
/// goes on until the time is up.
pub fn wait_step(satisfied: bool, elapsed_ms: u64, timeout_ms: u64) -> (r: WaitAction)
    ensures
        satisfied ==> r == WaitAction::Finish,
        !satisfied && elapsed_ms >= timeout_ms ==> r == WaitAction::GiveUp,
        !satisfied && elapsed_ms < timeout_ms ==> r == WaitAction::Retry,
{
    if satisfied {
        WaitAction::Finish
    } else if elapsed_ms >= timeout_ms {
        WaitAction::GiveUp
    } else {
        WaitAction::Retry
    }
}

} // verus!
