//! Manufacturing processes: which ones carry an implemented profile, what the
//! declared-but-unimplemented ones answer instead, and the naming rules of a
//! stored FDM profile.
//!
//! The profile's measured numbers, its range checks and its design-for-
//! manufacturing audits are floating-point work and live outside this crate.
use vstd::prelude::*;

verus! {

/// A manufacturing process a part may be made by. Only FDM carries an
/// implemented profile; the siblings are declared so that callers can route on
/// the process now and get an explicit refusal until their profiles exist.
#[derive(Clone, Copy, Debug, PartialEq, Eq, Structural)]
pub enum ProcessKind {
    /// Fused-deposition 3D printing.
    Fdm,
    /// Sheet-metal fabrication (no bend model yet).
    SheetMetal,
    /// Casting / moulding (no profile; the draft and undercut check exists
    /// elsewhere).
    Casting,
    /// Subtractive machining (no tool-access model yet).
    Cnc,
}

/// The stable lowercase name of a process.
pub open spec fn process_name(p: ProcessKind) -> Seq<char> {
    match p {
        ProcessKind::Fdm => "fdm"@,
        ProcessKind::SheetMetal => "sheet_metal"@,
        ProcessKind::Casting => "casting"@,
        ProcessKind::Cnc => "cnc"@,
    }
}

/// What a refused process points to instead; empty when nothing exists yet.
pub open spec fn refusal_note(p: ProcessKind) -> Seq<char> {
    match p {
        ProcessKind::Casting => " — the draft/undercut half already exists as kernel_brep::draft_analysis (per-face draft angles + undercut area); shrinkage/min-wall profiles do not"@,
        _ => ""@,
    }
}

/// The refusal of a process whose profile is not implemented.
#[derive(Clone, Copy, Debug, PartialEq, Eq)]
pub struct NotImplemented {
    /// Name of the refused process.
    pub process: &'static str,
    /// What exists today for it, or the empty string.
    pub note: &'static str,
}

impl ProcessKind {
    /// Stable lowercase name (used in messages and file names).
    pub fn name(&self) -> (r: &'static str)
        ensures
            r@ == process_name(*self),
    {
        match self {
            ProcessKind::Fdm => "fdm",
            ProcessKind::SheetMetal => "sheet_metal",
            ProcessKind::Casting => "casting",
            ProcessKind::Cnc => "cnc",
        }
    }

    /// `None` for FDM, whose profile is implemented; for every sibling, the
    /// refusal naming the process and what already exists for it.
    pub fn refusal(&self) -> (r: Option<NotImplemented>)
        ensures
            (*self == ProcessKind::Fdm) <==> r is None,
            r matches Some(e) ==> e.process@ == process_name(*self) && e.note@ == refusal_note(*self),
    {
        let note = match self {
            ProcessKind::Casting => " — the draft/undercut half already exists as kernel_brep::draft_analysis (per-face draft angles + undercut area); shrinkage/min-wall profiles do not",
            _ => "",
        };
        match self {
            ProcessKind::Fdm => None,
            _ => Some(NotImplemented { process: self.name(), note }),
        }
    }
}

// ---------------------------------------------------------------------------
// Profile names.
// ---------------------------------------------------------------------------

/// Unicode `White_Space`: the characters `str::trim` strips.
pub open spec fn is_white_space(c: char) -> bool {
    let x = c as u32;
    ||| 0x9 <= x <= 0xD
    ||| x == 0x20
    ||| x == 0x85
    ||| x == 0xA0
    ||| x == 0x1680
    ||| 0x2000 <= x <= 0x200A
    ||| x == 0x2028
    ||| x == 0x2029
    ||| x == 0x202F
    ||| x == 0x205F
    ||| x == 0x3000
}

fn white_space(c: char) -> (r: bool)
    ensures
        r == is_white_space(c),
{
    let x = c as u32;
    (0x9 <= x && x <= 0xD) || x == 0x20 || x == 0x85 || x == 0xA0 || x == 0x1680 || (0x2000 <= x && x
        <= 0x200A) || x == 0x2028 || x == 0x2029 || x == 0x202F || x == 0x205F || x == 0x3000
}

/// `t` occurs in `s` starting at position `i`.
pub open spec fn occurs_at(s: Seq<char>, t: Seq<char>, i: int) -> bool {
    0 <= i && i + t.len() <= s.len() && s.subrange(i, i + t.len()) == t
}

/// `t` occurs somewhere in `s`.
pub open spec fn occurs_in(s: Seq<char>, t: Seq<char>) -> bool {
    exists|i: int| #[trigger] occurs_at(s, t, i)
}

/// The marker a profile written from a template still carries.
pub open spec fn placeholder_marker() -> Seq<char> {
    "PLACEHOLDER"@
}

/// A stored profile must name the printer it was measured on: a name that is
/// blank (empty or white space only) or still carries the template's
/// placeholder marker is refused.
pub open spec fn profile_name_acceptable(name: Seq<char>) -> bool {
    &&& exists|i: int| 0 <= i < name.len() && !#[trigger] is_white_space(name[i])
    &&& !occurs_in(name, placeholder_marker())
}

/// Whether `t` occurs in `s` at position `i`.
fn occurs_at_exec(s: &str, t: &str, i: usize, n: usize, m: usize) -> (b: bool)
    requires
        n == s@.len(),
        m == t@.len(),
        i + m <= n,
    ensures
        b == occurs_at(s@, t@, i as int),
{
    let mut j: usize = 0;
    while j < m
        invariant
            n == s@.len(),
            m == t@.len(),
            i + m <= n,
            j <= m,
            forall|k: int| 0 <= k < j ==> s@[i + k] == #[trigger] t@[k],
        decreases m - j,
    {
        if s.get_char(i + j) != t.get_char(j) {
            assert(s@.subrange(i as int, i + m)[j as int] != t@[j as int]);
            return false;
        }
        j = j + 1;
    }
    assert(s@.subrange(i as int, i + m) =~= t@);
    true
}

/// Whether `t` occurs anywhere in `s`.
fn occurs_in_exec(s: &str, t: &str) -> (b: bool)
    ensures
        b == occurs_in(s@, t@),
{
    let n = s.unicode_len();
    let m = t.unicode_len();
    if m > n {
        assert forall|i: int| !#[trigger] occurs_at(s@, t@, i) by {}
        return false;
    }
    if m == 0 {
        assert(occurs_at(s@, t@, 0)) by {
            assert(s@.subrange(0, 0) =~= t@);
        }
        return true;
    }
    let last = n - m;
    let mut i: usize = 0;
    while i <= last
        invariant
            n == s@.len(),
            m == t@.len(),
            1 <= m <= n,
            last == n - m,
            i <= last + 1,
            forall|k: int| 0 <= k < i ==> !#[trigger] occurs_at(s@, t@, k),
        decreases last + 1 - i,
    {
        if occurs_at_exec(s, t, i, n, m) {
            return true;
        }
        i = i + 1;
    }
    assert forall|k: int| !#[trigger] occurs_at(s@, t@, k) by {
        if 0 <= k < i {
        }
    }
    false
}

/// Whether a profile name is acceptable: not blank, and not still a
/// placeholder.
pub fn profile_name_ok(name: &str) -> (ok: bool)
    ensures
        ok == profile_name_acceptable(name@),
{
    let n = name.unicode_len();
    let mut i: usize = 0;
    let mut blank = true;
    while i < n
        invariant
            n == name@.len(),
            i <= n,
            blank == forall|k: int| 0 <= k < i ==> #[trigger] is_white_space(name@[k]),
        decreases n - i,
    {
        if !white_space(name.get_char(i)) {
            blank = false;
        }
        i = i + 1;
    }
    if blank {
        return false;
    }
    !occurs_in_exec(name, "PLACEHOLDER")
}

/// The repository path of a named profile: `profiles/<name>.json`.
pub fn profiles_path(name: &str) -> (p: String)
    ensures
        p@ == "profiles/"@ + name@ + ".json"@,
{
    String::from_str("profiles/").concat(name).concat(".json")
}

} // verus!
