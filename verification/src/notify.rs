//! The texts of toast notifications for AetherLink events.
use vstd::prelude::*;
use vstd::string::*;

use crate::text::{count, decimal};

verus! {

/// A toast notification.
#[derive(Debug, PartialEq, Eq)]
pub struct Toast {
    /// The headline.
    pub summary: String,
    /// The text below it.
    pub body: String,
}

impl View for Toast {
    type V = (Seq<char>, Seq<char>);

    open spec fn view(&self) -> (Seq<char>, Seq<char>) {
        (self.summary@, self.body@)
    }
}

/// The view of a toast that may be missing.
pub open spec fn toast_view(t: Option<Toast>) -> Option<(Seq<char>, Seq<char>)> {
    match t {
        Some(t) => Some(t@),
        None => None,
    }
}

/// The plural ending of a count.
pub open spec fn plural(n: nat) -> Seq<char> {
    if n == 1 {
        ""@
    } else {
        "s"@
    }
}

/// The plural ending of a count.
pub fn plural_of(n: usize) -> (s: &'static str)
    ensures
        s@ == plural(n as nat),
{
    if n == 1 {
        ""
    } else {
        "s"
    }
}

/// The toast for a refused write.
pub open spec fn write_blocked_toast(file_path: Seq<char>, violations: nat) -> (
    Seq<char>,
    Seq<char>,
) {
    (
        "AetherLink: Write Blocked"@,
        if violations == 1 {
            "1 architectural violation in "@ + file_path
        } else {
            decimal(violations) + " architectural violations in "@ + file_path
        },
    )
}

/// The toast for a project that breaks its rules.
pub open spec fn scan_illegal_toast(project_path: Seq<char>, violations: nat) -> (
    Seq<char>,
    Seq<char>,
) {
    (
        "AetherLink: Project ILLEGAL"@,
        if violations == 1 {
            "1 violation in "@ + project_path
        } else {
            decimal(violations) + " violations in "@ + project_path
        },
    )
}

/// The toast for a write while the bypass is engaged.
pub open spec fn bypass_active_toast(file_path: Seq<char>, violations: nat) -> (
    Seq<char>,
    Seq<char>,
) {
    (
        "AetherLink: BYPASS ACTIVE — CRITICAL"@,
        if violations == 0 {
            "Wrote "@ + file_path + " without validation (project was clean anyway)"@
        } else {
            "Wrote "@ + file_path + " despite "@ + decimal(violations)
                + " architectural violation"@ + plural(violations)
                + ". Validation was BYPASSED."@
        },
    )
}

/// The toast for a path outside the project root.
pub open spec fn path_escape_toast(attempted: Seq<char>) -> (Seq<char>, Seq<char>) {
    (
        "AetherLink: PATH ESCAPE BLOCKED — CRITICAL"@,
        "Refused to write outside the project root: "@ + attempted,
    )
}

/// The toast for a project that obeys its rules again.
pub open spec fn scan_legal_toast(project_path: Seq<char>) -> (Seq<char>, Seq<char>) {
    ("AetherLink: Project Legal"@, "All architectural rules pass in "@ + project_path)
}

/// The toast for a `WRITE BLOCKED`.
pub fn write_blocked(file_path: &str, violation_count: usize) -> (t: Toast)
    ensures
        t@ == write_blocked_toast(file_path@, violation_count as nat),
{
    let mut body: String;
    if violation_count == 1 {
        body = "1 architectural violation in ".to_owned();
    } else {
        body = count(violation_count);
        body.append(" architectural violations in ");
    }
    body.append(file_path);
    Toast { summary: "AetherLink: Write Blocked".to_owned(), body }
}

/// The toast for when `scan_project` finds the project illegal.
pub fn scan_illegal(project_path: &str, violation_count: usize) -> (t: Toast)
    ensures
        t@ == scan_illegal_toast(project_path@, violation_count as nat),
{
    let mut body: String;
    if violation_count == 1 {
        body = "1 violation in ".to_owned();
    } else {
        body = count(violation_count);
        body.append(" violations in ");
    }
    body.append(project_path);
    Toast { summary: "AetherLink: Project ILLEGAL".to_owned(), body }
}

/// The CRITICAL warning for when `.aetherlink_bypass` is engaged and a write
/// went through without validation.
pub fn bypass_active(file_path: &str, violation_count: usize) -> (t: Toast)
    ensures
        t@ == bypass_active_toast(file_path@, violation_count as nat),
{
    let mut body = "Wrote ".to_owned();
    body.append(file_path);
    if violation_count == 0 {
        body.append(" without validation (project was clean anyway)");
    } else {
        body.append(" despite ");
        body.append(&count(violation_count));
        body.append(" architectural violation");
        body.append(plural_of(violation_count));
        body.append(". Validation was BYPASSED.");
    }
    Toast { summary: "AetherLink: BYPASS ACTIVE — CRITICAL".to_owned(), body }
}

/// The toast for when a path-escape attempt is blocked.
pub fn path_escape_blocked(attempted: &str) -> (t: Toast)
    ensures
        t@ == path_escape_toast(attempted@),
{
    let mut body = "Refused to write outside the project root: ".to_owned();
    body.append(attempted);
    Toast { summary: "AetherLink: PATH ESCAPE BLOCKED — CRITICAL".to_owned(), body }
}

/// The toast for when a previously-illegal project becomes legal again.
pub fn scan_legal(project_path: &str) -> (t: Toast)
    ensures
        t@ == scan_legal_toast(project_path@),
{
    let mut body = "All architectural rules pass in ".to_owned();
    body.append(project_path);
    Toast { summary: "AetherLink: Project Legal".to_owned(), body }
}

/// A toast about more or fewer violations than one gives their number, and each
/// toast ends with, or holds, the path that it is about.
pub proof fn law_toasts_give_number_and_path(path: Seq<char>, n: nat)
    ensures
        n != 1 ==> write_blocked_toast(path, n).1 == decimal(n) + " architectural violations in "@
            + path,
        n != 1 ==> scan_illegal_toast(path, n).1 == decimal(n) + " violations in "@ + path,
        write_blocked_toast(path, 1).1 == "1 architectural violation in "@ + path,
        scan_illegal_toast(path, 1).1 == "1 violation in "@ + path,
        path_escape_toast(path).1 == "Refused to write outside the project root: "@ + path,
        scan_legal_toast(path).1 == "All architectural rules pass in "@ + path,
        n > 1 ==> bypass_active_toast(path, n).1 == "Wrote "@ + path + " despite "@ + decimal(n)
            + " architectural violations. Validation was BYPASSED."@,
{
    reveal_strlit("s");
    reveal_strlit(" architectural violation");
    reveal_strlit(". Validation was BYPASSED.");
    reveal_strlit(" architectural violations. Validation was BYPASSED.");
    assert(" architectural violation"@ + "s"@ + ". Validation was BYPASSED."@
        =~= " architectural violations. Validation was BYPASSED."@);
    if n > 1 {
        let head = "Wrote "@ + path + " despite "@ + decimal(n);
        lemma_regroup(
            head,
            " architectural violation"@,
            "s"@,
            ". Validation was BYPASSED."@,
        );
    }
}

proof fn lemma_regroup(a: Seq<char>, b: Seq<char>, c: Seq<char>, d: Seq<char>)
    ensures
        a + b + c + d == a + (b + c + d),
{
    assert(a + b + c + d =~= a + (b + c + d));
}

} // verus!
