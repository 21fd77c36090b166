//! Path sandbox + emergency bypass switch.
//!
//! Every proposed write goes through this module before it reaches the disk.
//!
//! 1. **Sandbox.** The proposed file path is resolved against the project root,
//!    and refused if the real path falls outside.
//! 2. **Bypass.** A file named `.aetherlink_bypass` in the project root acts
//!    as a "break glass" override that lets writes through even when the
//!    validator says no.
//!
//! Whether a path exists and what its real form is are questions to the file
//! system. They are answered by the caller; what follows from the answers is
//! decided here.
use vstd::prelude::*;
use vstd::string::*;

use crate::disk::{DiskSnapshot, DiskView};
use crate::paths::{
    absolute, canonical, components, file_name, file_name_of, is_name, join_path, join_paths,
    lemma_components_are_list, lemma_join_name, lemma_parent_is_shorter, parent, parent_of,
    path_starts_with, starts_with,
};
use crate::text::{chars_of, opt_view, views};

verus! {

/// Filename of the kill switch. Presence in the project root engages bypass.
pub open spec fn bypass_file_name() -> Seq<char> {
    ".aetherlink_bypass"@
}

/// Where the kill switch of a project is.
pub fn bypass_path(project_root: &str) -> (p: String)
    ensures
        p@ == join_paths(project_root@, bypass_file_name()),
{
    join_path(project_root, ".aetherlink_bypass")
}

/// True if the project has a `.aetherlink_bypass` file in its root.
pub fn bypass_engaged(project_root: &str, disk: &DiskSnapshot) -> (r: bool)
    ensures
        r == disk@.present.contains(join_paths(project_root@, bypass_file_name())),
{
    disk.has(&bypass_path(project_root))
}

// ---------------------------------------------------------------------------
// Where a path really is
// ---------------------------------------------------------------------------

/// The target below the project root, unless it is absolute.
pub open spec fn absolute_target(project_root: Seq<char>, target: Seq<char>) -> Seq<char> {
    if absolute(target) {
        target
    } else {
        join_paths(project_root, target)
    }
}

/// The nearest of the path and its ancestors at which something is, and the
/// names that were taken off after those in `tail`, the last name first. `None` where the
/// search comes to a path without a file name.
pub open spec fn nearest(path: Seq<char>, disk: DiskView, tail: Seq<Seq<char>>) -> Option<
    (Seq<char>, Seq<Seq<char>>),
>
    decreases path.len(),
{
    if disk.is_taken(path) {
        Some((path, tail))
    } else {
        match file_name(path) {
            Some(name) => {
                proof {
                    lemma_parent_is_shorter(path);
                }
                nearest(parent(path)->0, disk, tail.push(name))
            },
            None => None,
        }
    }
}

/// The path and its ancestors, as far as the search for the nearest one that
/// exists may go.
pub open spec fn lineage(path: Seq<char>) -> Seq<Seq<char>>
    decreases path.len(),
{
    match file_name(path) {
        Some(_) => {
            proof {
                lemma_parent_is_shorter(path);
            }
            seq![path] + lineage(parent(path)->0)
        },
        None => seq![path],
    }
}

/// The names put back below the path, the last one first.
pub open spec fn rejoined(path: Seq<char>, tail: Seq<Seq<char>>) -> Seq<char>
    decreases tail.len(),
{
    if tail.len() == 0 {
        path
    } else {
        rejoined(join_paths(path, tail.last()), tail.drop_last())
    }
}

/// Why a path is refused.
#[derive(Debug, PartialEq, Eq)]
pub enum SandboxError {
    /// The project root has no real form.
    Root(String),
    /// The path exists and has no real form.
    Target(String),
    /// An ancestor of the path exists and has no real form.
    Ancestor(String),
    /// No ancestor of the path exists.
    NoAncestor(String),
    /// The path lies outside the project root.
    Escape {
        /// The path.
        target: String,
        /// Its real form.
        resolved: String,
        /// The real form of the project root.
        root: String,
    },
}

/// What a [`SandboxError`] holds.
pub enum SandboxErrorView {
    /// The project root has no real form.
    Root(Seq<char>),
    /// The path exists and has no real form.
    Target(Seq<char>),
    /// An ancestor of the path exists and has no real form.
    Ancestor(Seq<char>),
    /// No ancestor of the path exists.
    NoAncestor(Seq<char>),
    /// The path lies outside the project root.
    Escape(Seq<char>, Seq<char>, Seq<char>),
}

impl View for SandboxError {
    type V = SandboxErrorView;

    open spec fn view(&self) -> SandboxErrorView {
        match self {
            SandboxError::Root(p) => SandboxErrorView::Root(p@),
            SandboxError::Target(p) => SandboxErrorView::Target(p@),
            SandboxError::Ancestor(p) => SandboxErrorView::Ancestor(p@),
            SandboxError::NoAncestor(p) => SandboxErrorView::NoAncestor(p@),
            SandboxError::Escape { target, resolved, root } => SandboxErrorView::Escape(
                target@,
                resolved@,
                root@,
            ),
        }
    }
}

impl SandboxErrorView {
    /// What the error says.
    pub open spec fn text(self) -> Seq<char> {
        match self {
            SandboxErrorView::Root(p) => "canonicalizing project root "@ + p,
            SandboxErrorView::Target(p) => "canonicalizing "@ + p,
            SandboxErrorView::Ancestor(p) => "canonicalizing existing ancestor "@ + p,
            SandboxErrorView::NoAncestor(p) => "could not find any existing ancestor of "@ + p,
            SandboxErrorView::Escape(target, resolved, root) => "PATH ESCAPE BLOCKED: '"@ + target
                + "' resolves to '"@ + resolved + "', which is outside the project root '"@ + root
                + "'."@,
        }
    }
}

impl SandboxError {
    /// What the error says.
    pub fn message(&self) -> (s: String)
        ensures
            s@ == self@.text(),
    {
        match self {
            SandboxError::Root(p) => {
                let mut s = "canonicalizing project root ".to_owned();
                s.append(p);
                s
            },
            SandboxError::Target(p) => {
                let mut s = "canonicalizing ".to_owned();
                s.append(p);
                s
            },
            SandboxError::Ancestor(p) => {
                let mut s = "canonicalizing existing ancestor ".to_owned();
                s.append(p);
                s
            },
            SandboxError::NoAncestor(p) => {
                let mut s = "could not find any existing ancestor of ".to_owned();
                s.append(p);
                s
            },
            SandboxError::Escape { target, resolved, root } => {
                let mut s = "PATH ESCAPE BLOCKED: '".to_owned();
                s.append(target);
                s.append("' resolves to '");
                s.append(resolved);
                s.append("', which is outside the project root '");
                s.append(root);
                s.append("'.");
                s
            },
        }
    }
}

/// The real form of the target, if it lies inside the project root. `real_root`
/// is the real form of the root, and `real_probe` that of the nearest of the
/// target and its ancestors at which something is; each is missing where the
/// file system could not tell it. A link that leads nowhere has no real form.
pub open spec fn under_root(
    project_root: Seq<char>,
    target: Seq<char>,
    disk: DiskView,
    real_root: Option<Seq<char>>,
    real_probe: Option<Seq<char>>,
) -> Result<Seq<char>, SandboxErrorView> {
    let path = absolute_target(project_root, target);
    match real_root {
        None => Err(SandboxErrorView::Root(project_root)),
        Some(root) => match nearest(path, disk, Seq::empty()) {
            None => Err(SandboxErrorView::NoAncestor(path)),
            Some((probe, tail)) => match (if disk.dangling.contains(probe) {
                None
            } else {
                real_probe
            }) {
                None => if tail.len() == 0 {
                    Err(SandboxErrorView::Target(path))
                } else {
                    Err(SandboxErrorView::Ancestor(probe))
                },
                Some(form) => {
                    let resolved = rejoined(form, tail);
                    if starts_with(resolved, root) {
                        Ok(resolved)
                    } else {
                        Err(SandboxErrorView::Escape(target, resolved, root))
                    }
                },
            },
        },
    }
}

fn is_absolute(s: &str) -> (r: bool)
    ensures
        r == absolute(s@),
{
    let chars = chars_of(s);
    chars.len() > 0 && chars[0] == '/'
}

/// The target below the project root, unless it is absolute.
pub fn resolve_target(project_root: &str, target: &str) -> (p: String)
    ensures
        p@ == absolute_target(project_root@, target@),
{
    if is_absolute(target) {
        target.to_owned()
    } else {
        join_path(project_root, target)
    }
}

/// The paths whose existence the sandbox needs to know of: the target and its
/// ancestors.
pub fn sandbox_probes(project_root: &str, target: &str) -> (out: Vec<String>)
    ensures
        views(out@) == lineage(absolute_target(project_root@, target@)),
{
    let mut probe = resolve_target(project_root, target);
    let ghost all = lineage(probe@);
    let mut out: Vec<String> = Vec::new();
    assert(views(out@) + lineage(probe@) =~= all);
    loop
        invariant
            views(out@) + lineage(probe@) == all,
            all == lineage(absolute_target(project_root@, target@)),
        decreases probe@.len(),
    {
        let ghost before = views(out@);
        out.push(probe.clone());
        assert(views(out@) =~= before.push(probe@));
        if file_name_of(&probe).is_none() {
            assert(views(out@) =~= all);
            return out;
        }
        proof {
            lemma_parent_is_shorter(probe@);
        }
        match parent_of(&probe) {
            Some(p) => {
                assert(views(out@) + lineage(p@) =~= before + lineage(probe@));
                probe = p;
            },
            None => {
                return out;
            },
        }
    }
}

fn nearest_of(path: &str, disk: &DiskSnapshot) -> (r: Option<(String, Vec<String>)>)
    ensures
        nearest(path@, disk@, Seq::empty()) == (match r {
            Some((p, tail)) => Some((p@, views(tail@))),
            None => None::<(Seq<char>, Seq<Seq<char>>)>,
        }),
{
    let mut probe = path.to_owned();
    let mut tail: Vec<String> = Vec::new();
    assert(views(tail@) =~= Seq::<Seq<char>>::empty());
    loop
        invariant
            nearest(probe@, disk@, views(tail@)) == nearest(path@, disk@, Seq::empty()),
        decreases probe@.len(),
    {
        if disk.has(&probe) || disk.is_dangling(&probe) {
            return Some((probe, tail));
        }
        let name = match file_name_of(&probe) {
            Some(name) => name,
            None => return None,
        };
        proof {
            lemma_parent_is_shorter(probe@);
        }
        let ghost before = views(tail@);
        let ghost taken = name@;
        tail.push(name);
        assert(views(tail@) =~= before.push(taken));
        match parent_of(&probe) {
            Some(p) => {
                probe = p;
            },
            None => {
                return None;
            },
        }
    }
}

/// The path whose real form the sandbox needs to know: the nearest of the target
/// and its ancestors at which something is.
pub fn sandbox_anchor(project_root: &str, target: &str, disk: &DiskSnapshot) -> (r: Option<String>)
    ensures
        opt_view(r) == (match nearest(
            absolute_target(project_root@, target@),
            disk@,
            Seq::empty(),
        ) {
            Some((p, _)) => Some(p),
            None => None,
        }),
{
    match nearest_of(&resolve_target(project_root, target), disk) {
        Some((p, _)) => Some(p),
        None => None,
    }
}

fn rejoin(path: &str, tail: &Vec<String>) -> (out: String)
    ensures
        out@ == rejoined(path@, views(tail@)),
{
    let mut out = path.to_owned();
    let ghost all = views(tail@);
    let mut i: usize = tail.len();
    assert(all.subrange(0, all.len() as int) =~= all);
    while i > 0
        invariant
            i <= tail@.len(),
            all == views(tail@),
            rejoined(out@, all.subrange(0, i as int)) == rejoined(path@, all),
        decreases i,
    {
        proof {
            let rest = all.subrange(0, i as int);
            assert(rest.last() == tail@[i - 1]@);
            assert(rest.drop_last() =~= all.subrange(0, i - 1));
        }
        i -= 1;
        out = join_path(&out, &tail[i]);
    }
    out
}

/// Resolve a target path to its real form and confirm it lives inside the real
/// project root. Returns the real target path.
///
/// - **Existing files** have a real form of their own.
/// - **Brand-new files** have none. The real form of the nearest existing
///   ancestor is taken, and the missing components are re-appended.
/// - **Relative target paths** are resolved against the project root.
/// - **Links that lead nowhere** have no real form, and neither has what lies
///   below them: they are refused.
///
/// `disk` tells which of the [`sandbox_probes`] exist, `real_root` is the real
/// form of the project root, and `real_anchor` that of the
/// [`sandbox_anchor`]; both are missing where the file system could not tell
/// them.
pub fn canonicalize_under_root(
    project_root: &str,
    target: &str,
    disk: &DiskSnapshot,
    real_root: Option<&str>,
    real_anchor: Option<&str>,
) -> (r: Result<String, SandboxError>)
    ensures
        under_root(
            project_root@,
            target@,
            disk@,
            match real_root {
                Some(s) => Some(s@),
                None => None,
            },
            match real_anchor {
                Some(s) => Some(s@),
                None => None,
            },
        ) == (match r {
            Ok(p) => Ok(p@),
            Err(e) => Err(e@),
        }),
{
    let root = match real_root {
        Some(root) => root,
        None => return Err(SandboxError::Root(project_root.to_owned())),
    };
    let path = resolve_target(project_root, target);
    let (anchor, tail) = match nearest_of(&path, disk) {
        Some(found) => found,
        None => return Err(SandboxError::NoAncestor(path)),
    };
    assert(views(tail@).len() == tail@.len());
    let real_anchor = if disk.is_dangling(&anchor) {
        None
    } else {
        real_anchor
    };
    let form = match real_anchor {
        Some(form) => form,
        None => {
            return if tail.len() == 0 {
                Err(SandboxError::Target(path))
            } else {
                Err(SandboxError::Ancestor(anchor))
            };
        },
    };
    let resolved = rejoin(form, &tail);
    if path_starts_with(&resolved, root) {
        Ok(resolved)
    } else {
        Err(SandboxError::Escape { target: target.to_owned(), resolved, root: root.to_owned() })
    }
}

// ---------------------------------------------------------------------------
// Laws
// ---------------------------------------------------------------------------

/// Nothing escapes: a target that is accepted lies inside the real project
/// root, whatever it looks like and whatever the disk holds.
pub proof fn law_accepted_targets_are_inside(
    project_root: Seq<char>,
    target: Seq<char>,
    disk: DiskView,
    real_root: Option<Seq<char>>,
    real_probe: Option<Seq<char>>,
)
    requires
        under_root(project_root, target, disk, real_root, real_probe) is Ok,
    ensures
        real_root is Some,
        starts_with(
            under_root(project_root, target, disk, real_root, real_probe)->Ok_0,
            real_root->0,
        ),
{
}

/// Whether the names can be put back below a path: each is a proper file name.
pub open spec fn proper_names(names: Seq<Seq<char>>) -> bool {
    forall|i: int|
        0 <= i < names.len() ==> is_name(#[trigger] names[i]) && names[i] != seq!['.']
            && names[i] != seq!['.', '.']
}

proof fn lemma_nearest_names(path: Seq<char>, disk: DiskView, tail: Seq<Seq<char>>)
    requires
        proper_names(tail),
    ensures
        nearest(path, disk, tail) matches Some(found) ==> proper_names(found.1)
            && disk.is_taken(found.0),
    decreases path.len(),
{
    if !disk.is_taken(path) && file_name(path) is Some {
        lemma_parent_is_shorter(path);
        lemma_components_are_list(path);
        let name = file_name(path)->0;
        let c = components(path);
        assert(c[c.len() - 1] == name);
        assert(proper_names(tail.push(name))) by {
            let more = tail.push(name);
            assert forall|i: int| 0 <= i < more.len() implies is_name(#[trigger] more[i])
                && more[i] != seq!['.'] && more[i] != seq!['.', '.'] by {
                if i < tail.len() {
                    assert(more[i] == tail[i]);
                }
            }
        }
        lemma_nearest_names(parent(path)->0, disk, tail.push(name));
    }
}

/// The names that are put back below the nearest existing ancestor are proper
/// file names: none of them leads upwards.
pub proof fn law_missing_tail_leads_nowhere_else(path: Seq<char>, disk: DiskView)
    ensures
        nearest(path, disk, Seq::empty()) matches Some(found) ==> proper_names(found.1)
            && disk.is_taken(found.0),
{
    lemma_nearest_names(path, disk, Seq::empty());
}

proof fn lemma_rejoined_is_below(path: Seq<char>, tail: Seq<Seq<char>>, root: Seq<char>)
    requires
        path == canonical(path),
        path.len() > 0,
        proper_names(tail),
        starts_with(path, root),
    ensures
        starts_with(rejoined(path, tail), root),
    decreases tail.len(),
{
    if tail.len() > 0 {
        let name = tail.last();
        assert(tail[tail.len() - 1] == name);
        lemma_join_name(path, name);
        let next = join_paths(path, name);
        assert(proper_names(tail.drop_last())) by {
            assert forall|i: int| 0 <= i < tail.drop_last().len() implies is_name(
                #[trigger] tail.drop_last()[i],
            ) && tail.drop_last()[i] != seq!['.'] && tail.drop_last()[i] != seq!['.', '.'] by {
                assert(tail.drop_last()[i] == tail[i]);
            }
        }
        assert(starts_with(next, root)) by {
            let c = components(path);
            let d = components(next);
            let r = components(root);
            assert(r =~= d.subrange(0, r.len() as int)) by {
                assert(r =~= c.subrange(0, r.len() as int));
                assert forall|i: int| 0 <= i < r.len() implies r[i] == d[i] by {
                    assert(c.subrange(0, r.len() as int)[i] == c[i]);
                    assert(d[i] == c[i]);
                }
            }
        }
        lemma_rejoined_is_below(next, tail.drop_last(), root);
    }
}

/// No false alarms: a target whose nearest existing ancestor really lies inside
/// the project root is accepted, however many folders above it are still
/// missing. Real forms have the plainest text.
pub proof fn law_new_files_inside_are_accepted(
    project_root: Seq<char>,
    target: Seq<char>,
    disk: DiskView,
    real_root: Seq<char>,
    real_probe: Seq<char>,
)
    requires
        nearest(absolute_target(project_root, target), disk, Seq::empty()) matches Some(found)
            && !disk.dangling.contains(found.0),
        starts_with(real_probe, real_root),
        real_probe == canonical(real_probe),
        real_probe.len() > 0,
    ensures
        under_root(project_root, target, disk, Some(real_root), Some(real_probe)) is Ok,
{
    let path = absolute_target(project_root, target);
    lemma_nearest_names(path, disk, Seq::empty());
    let found = nearest(path, disk, Seq::empty())->0;
    lemma_rejoined_is_below(real_probe, found.1, real_root);
}

/// Nothing is written through a link that leads nowhere: a target that is such a
/// link, or would lie below one, is refused, whatever is said of real forms.
pub proof fn law_dangling_links_are_refused(
    project_root: Seq<char>,
    target: Seq<char>,
    disk: DiskView,
    real_root: Option<Seq<char>>,
    real_probe: Option<Seq<char>>,
)
    requires
        nearest(absolute_target(project_root, target), disk, Seq::empty()) matches Some(found)
            && disk.dangling.contains(found.0),
    ensures
        under_root(project_root, target, disk, real_root, real_probe) is Err,
        disk.dangling.contains(absolute_target(project_root, target)) && real_root is Some
            ==> under_root(project_root, target, disk, real_root, real_probe) == Err::<
            Seq<char>,
            SandboxErrorView,
        >(SandboxErrorView::Target(absolute_target(project_root, target))),
{
}

/// The answer depends on no more of the disk than the target and its ancestors.
pub proof fn law_search_looks_at_lineage_only(
    path: Seq<char>,
    disk: DiskView,
    other: DiskView,
    tail: Seq<Seq<char>>,
)
    requires
        forall|i: int|
            0 <= i < lineage(path).len() ==> disk.is_taken(#[trigger] lineage(path)[i])
                == other.is_taken(lineage(path)[i]),
    ensures
        nearest(path, disk, tail) == nearest(path, other, tail),
    decreases path.len(),
{
    let all = lineage(path);
    assert(all[0] == path);
    if file_name(path) is Some {
        lemma_parent_is_shorter(path);
        let up = parent(path)->0;
        assert forall|i: int| 0 <= i < lineage(up).len() implies disk.is_taken(
            #[trigger] lineage(up)[i],
        ) == other.is_taken(lineage(up)[i]) by {
            assert(all[i + 1] == lineage(up)[i]);
        }
        law_search_looks_at_lineage_only(up, disk, other, tail.push(file_name(path)->0));
    }
}

} // verus!
