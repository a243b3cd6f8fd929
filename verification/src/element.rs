//! The data the automation works on: application targets, windows,
//! running applications and accessibility-tree nodes.
use vstd::prelude::*;

use crate::text::{chars_of, ends_with, ends_with_chars, has_char, own, parse_u32, parse_u32_spec};

verus! {

/// How to identify an application for launch/kill/info operations.
///
/// A path is held as the text it was given.
#[derive(Debug, Clone)]
pub enum AppTarget {
    BundleId(String),
    Path(String),
    Pid(u32),
}

/// The suffix that marks an application bundle path.
pub open spec fn app_suffix() -> Seq<char> {
    seq!['.', 'a', 'p', 'p']
}

/// What `AppTarget::parse` makes of `s`: a PID when `s` parses as a `u32`,
/// a path when it contains `/` or ends with `.app`, a bundle ID otherwise.
pub open spec fn target_of(s: Seq<char>, t: AppTarget) -> bool {
    match parse_u32_spec(s) {
        Some(pid) => t == AppTarget::Pid(pid),
        None => if s.contains('/') || ends_with(s, app_suffix()) {
            t matches AppTarget::Path(p) && p@ == s
        } else {
            t matches AppTarget::BundleId(b) && b@ == s
        },
    }
}

impl AppTarget {
    /// Auto-detect the target type from a CLI string.
    /// - If the string parses as a number, treat as PID.
    /// - If it contains '/' or ends with ".app", treat as path.
    /// - Otherwise, treat as bundle ID.
    pub fn parse(s: &str) -> (r: Self)
        ensures
            target_of(s@, r),
    {
        if let Some(pid) = parse_u32(s) {
            AppTarget::Pid(pid)
        } else {
            let suffix: Vec<char> = vec!['.', 'a', 'p', 'p'];
            assert(suffix@ =~= app_suffix());
            if has_char(s, '/') || ends_with_chars(&chars_of(s), &suffix) {
                AppTarget::Path(own(s))
            } else {
                AppTarget::BundleId(own(s))
            }
        }
    }
}

/// Bounding rectangle for a window or UI element. Each coordinate is the
/// IEEE-754 bit pattern of an `f64` (`f64::to_bits`); nothing in the
/// library computes with it, it is carried through unchanged.
#[derive(Debug, Clone, Copy, PartialEq, Eq, Structural)]
pub struct ElementFrame {
    pub x: u64,
    pub y: u64,
    pub width: u64,
    pub height: u64,
}

/// Information about an on-screen window.
#[derive(Debug, Clone)]
pub struct WindowInfo {
    pub window_id: u32,
    pub pid: u32,
    pub title: String,
    pub bundle_id: Option<String>,
    pub frame: ElementFrame,
    pub is_on_screen: bool,
}

impl WindowInfo {
    /// A copy of this window's information.
    pub fn duplicate(&self) -> (r: WindowInfo)
        ensures
            r == *self,
    {
        WindowInfo {
            window_id: self.window_id,
            pid: self.pid,
            title: self.title.clone(),
            bundle_id: crate::text::clone_opt(&self.bundle_id),
            frame: self.frame,
            is_on_screen: self.is_on_screen,
        }
    }
}

/// Information about a running application.
#[derive(Debug, Clone)]
pub struct AppInfo {
    pub pid: u32,
    pub bundle_id: Option<String>,
    pub name: String,
    pub is_active: bool,
}

/// Lightweight reference to a window by ID and owning PID.
#[derive(Debug, Clone, Copy)]
pub struct WindowRef {
    pub window_id: u32,
    pub pid: u32,
}

/// Full accessibility tree node.
#[derive(Debug)]
pub struct AXElement {
    pub role: String,
    pub subrole: Option<String>,
    pub title: Option<String>,
    pub value: Option<String>,
    pub description: Option<String>,
    pub identifier: Option<String>,
    pub frame: Option<ElementFrame>,
    pub enabled: bool,
    pub focused: bool,
    pub path: Vec<usize>,
    pub children: Vec<AXElement>,
}

/// Lightweight reference to an element within a window's accessibility tree.
#[derive(Debug, Clone)]
pub struct ElementRef {
    pub window: WindowRef,
    pub path: Vec<usize>,
}

// ───────────────────────── walking the accessibility tree ─────────────────────────

/// Whether a walk of the accessibility tree at `depth` goes on into the
/// children: always without a depth limit, and with one only above it.
pub fn descends(max_depth: Option<usize>, depth: usize) -> (r: bool)
    ensures
        r == !(max_depth matches Some(d) && depth >= d),
{
    match max_depth {
        Some(d) => depth < d,
        None => true,
    }
}

/// The index path of the `i`-th child of the node at `path`.
pub fn child_path(path: &Vec<usize>, i: usize) -> (r: Vec<usize>)
    ensures
        r@ == path@.push(i),
{
    let mut r = path.clone();
    proof {
        assert(r@ =~= path@);
    }
    r.push(i);
    r
}

/// The role a node reports, or `AXUnknown` when it reports none.
pub fn role_or_unknown(role: Option<String>) -> (r: String)
    ensures
        match role {
            Some(s) => r@ == s@,
            None => r@ == "AXUnknown"@,
        },
{
    match role {
        Some(s) => s,
        None => own("AXUnknown"),
    }
}

/// `b` carries every field of `a` but no children.
pub open spec fn childless_copy_of(b: AXElement, a: AXElement) -> bool {
    &&& b.role == a.role
    &&& b.subrole == a.subrole
    &&& b.title == a.title
    &&& b.value == a.value
    &&& b.description == a.description
    &&& b.identifier == a.identifier
    &&& b.frame == a.frame
    &&& b.enabled == a.enabled
    &&& b.focused == a.focused
    &&& b.path@ == a.path@
    &&& b.children@.len() == 0
}

/// Element-wise correspondence of a result list to the nodes it copies.
pub open spec fn childless_copies(out: Seq<AXElement>, nodes: Seq<AXElement>) -> bool {
    &&& out.len() == nodes.len()
    &&& forall|i: int| 0 <= i < out.len() ==> childless_copy_of(#[trigger] out[i], nodes[i])
}

impl AXElement {
    /// A copy of this node with every field but its children.
    pub fn without_children(&self) -> (r: AXElement)
        ensures
            childless_copy_of(r, *self),
    {
        let path = self.path.clone();
        assert(path@ =~= self.path@);
        AXElement {
            role: self.role.clone(),
            subrole: crate::text::clone_opt(&self.subrole),
            title: crate::text::clone_opt(&self.title),
            value: crate::text::clone_opt(&self.value),
            description: crate::text::clone_opt(&self.description),
            identifier: crate::text::clone_opt(&self.identifier),
            frame: self.frame,
            enabled: self.enabled,
            focused: self.focused,
            path,
            children: Vec::new(),
        }
    }
}

} // verus!
