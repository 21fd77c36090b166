//! Baseline / ratchet support.
//!
//! A baseline is a frozen snapshot of the violations that existed in the
//! project at the time `aetherlink --baseline` was run. Future scans and
//! guarded writes filter their violations against the baseline:
//!
//!  * Violations with a fingerprint **in** the baseline are pre-existing rot.
//!    They are surfaced but do **not** block writes.
//!
//!  * Violations with a fingerprint **not** in the baseline are *new* rot
//!    introduced by the change being evaluated. These block as normal.
use vstd::hash_set::StringHashSet;
use vstd::prelude::*;

use super::{fingerprint_of, fingerprint_text, violations_view, RuleViolation, ViolationView};
use crate::paths::{join_path, join_paths};

verus! {

/// The name of the baseline file.
pub open spec fn baseline_file_name() -> Seq<char> {
    ".aetherlink-baseline.json"@
}

/// One entry in the baseline file. It holds the full message, so that a human
/// who inspects the file can see what was grandfathered in.
#[derive(Debug, PartialEq, Eq)]
pub struct BaselineEntry {
    /// The name of the rule.
    pub rule: String,
    /// What breaks it.
    pub message: String,
}

impl View for BaselineEntry {
    type V = (Seq<char>, Seq<char>);

    open spec fn view(&self) -> (Seq<char>, Seq<char>) {
        (self.rule@, self.message@)
    }
}

impl Clone for BaselineEntry {
    fn clone(&self) -> (out: Self)
        ensures
            out@ == self@,
    {
        BaselineEntry { rule: self.rule.clone(), message: self.message.clone() }
    }
}

impl BaselineEntry {
    /// The identity of the violation that was frozen.
    pub fn fingerprint(&self) -> (s: String)
        ensures
            s@ == fingerprint_of(self@.0, self@.1),
    {
        fingerprint_text(&self.rule, &self.message)
    }
}

/// The full baseline. The `version` field exists so that future format changes
/// can be detected.
#[derive(Debug, PartialEq, Eq)]
pub struct Baseline {
    /// The version of the format.
    pub version: u32,
    /// The violations that are frozen.
    pub entries: Vec<BaselineEntry>,
}

/// What a [`Baseline`] holds.
#[verifier::ext_equal]
pub struct BaselineView {
    /// The version of the format.
    pub version: u32,
    /// The rule and the message of each violation that is frozen.
    pub entries: Seq<(Seq<char>, Seq<char>)>,
}

impl View for Baseline {
    type V = BaselineView;

    open spec fn view(&self) -> BaselineView {
        BaselineView {
            version: self.version,
            entries: Seq::new(self.entries@.len(), |i: int| self.entries@[i]@),
        }
    }
}

impl Clone for Baseline {
    fn clone(&self) -> (out: Self)
        ensures
            out@ == self@,
    {
        let mut entries: Vec<BaselineEntry> = Vec::new();
        let mut i: usize = 0;
        while i < self.entries.len()
            invariant
                i <= self.entries@.len(),
                entries@.len() == i,
                forall|k: int| 0 <= k < i ==> #[trigger] entries@[k]@ == self.entries@[k]@,
            decreases self.entries.len() - i,
        {
            entries.push(self.entries[i].clone());
            i += 1;
        }
        let out = Baseline { version: self.version, entries };
        assert(out@ =~= self@);
        out
    }
}

/// The baseline that freezes the violations.
pub open spec fn baseline_of(violations: Seq<ViolationView>) -> BaselineView {
    BaselineView {
        version: 1,
        entries: Seq::new(violations.len(), |i: int| (violations[i].rule, violations[i].message)),
    }
}

/// Whether the baseline has an entry with the fingerprint.
pub open spec fn is_frozen(baseline: BaselineView, fingerprint: Seq<char>) -> bool {
    exists|i: int|
        0 <= i < baseline.entries.len() && fingerprint_of(
            (#[trigger] baseline.entries[i]).0,
            baseline.entries[i].1,
        ) == fingerprint
}

/// Whether a violation is new with regard to a baseline. Without a baseline
/// every violation is new.
pub open spec fn is_new(baseline: Option<BaselineView>, v: ViolationView) -> bool {
    match baseline {
        Some(b) => !is_frozen(b, v.fingerprint()),
        None => true,
    }
}

/// The violations that are new, or those that are not, in order.
pub open spec fn share(
    violations: Seq<ViolationView>,
    baseline: Option<BaselineView>,
    new: bool,
) -> Seq<ViolationView>
    decreases violations.len(),
{
    if violations.len() == 0 {
        Seq::empty()
    } else {
        let before = share(violations.drop_last(), baseline, new);
        if is_new(baseline, violations.last()) == new {
            before.push(violations.last())
        } else {
            before
        }
    }
}

impl Baseline {
    /// The baseline that freezes the violations.
    pub fn from_violations(violations: &[RuleViolation]) -> (b: Baseline)
        ensures
            b@ == baseline_of(violations_view(violations@)),
    {
        let mut entries: Vec<BaselineEntry> = Vec::new();
        let mut i: usize = 0;
        while i < violations.len()
            invariant
                i <= violations@.len(),
                entries@.len() == i,
                forall|k: int|
                    0 <= k < i ==> #[trigger] entries@[k]@ == (
                        violations@[k].rule@,
                        violations@[k].message@,
                    ),
            decreases violations.len() - i,
        {
            entries.push(
                BaselineEntry {
                    rule: violations[i].rule.clone(),
                    message: violations[i].message.clone(),
                },
            );
            i += 1;
        }
        let b = Baseline { version: 1, entries };
        assert(b@.entries =~= baseline_of(violations_view(violations@)).entries);
        b
    }

    /// Where the baseline of a project is.
    pub fn path_in(project_root: &str) -> (p: String)
        ensures
            p@ == join_paths(project_root@, baseline_file_name()),
    {
        join_path(project_root, ".aetherlink-baseline.json")
    }

    /// The fingerprints of all entries.
    pub fn fingerprints(&self) -> (set: StringHashSet)
        ensures
            forall|f: Seq<char>| #[trigger] set@.contains(f) <==> is_frozen(self@, f),
    {
        let mut set = StringHashSet::new();
        let mut i: usize = 0;
        while i < self.entries.len()
            invariant
                i <= self.entries@.len(),
                forall|f: Seq<char>| #[trigger]
                    set@.contains(f) <==> exists|k: int|
                        0 <= k < i && fingerprint_of(
                            (#[trigger] self@.entries[k]).0,
                            self@.entries[k].1,
                        ) == f,
            decreases self.entries.len() - i,
        {
            let ghost before = set@;
            let text = self.entries[i].fingerprint();
            let ghost added = text@;
            set.insert(text);
            proof {
                assert(self@.entries[i as int] == self.entries@[i as int]@);
                assert forall|f: Seq<char>| #[trigger]
                    set@.contains(f) <==> exists|k: int|
                        0 <= k < i + 1 && fingerprint_of(
                            (#[trigger] self@.entries[k]).0,
                            self@.entries[k].1,
                        ) == f by {
                    if set@.contains(f) && f != added {
                        assert(before.contains(f));
                    }
                    if exists|k: int|
                        0 <= k < i + 1 && fingerprint_of(
                            (#[trigger] self@.entries[k]).0,
                            self@.entries[k].1,
                        ) == f {
                        let k = choose|k: int|
                            0 <= k < i + 1 && fingerprint_of(
                                (#[trigger] self@.entries[k]).0,
                                self@.entries[k].1,
                            ) == f;
                        if k < i {
                            assert(before.contains(f));
                        }
                    }
                }
            }
            i += 1;
        }
        set
    }
}

/// Split a violation set into `(new, grandfathered)` using the baseline.
/// `new` are the violations that were *not* present at baseline time and
/// should block writes; `grandfathered` are pre-existing rot that should be
/// surfaced (e.g. in the report) but not block.
pub fn split_against_baseline(violations: Vec<RuleViolation>, baseline: Option<&Baseline>) -> (r: (
    Vec<RuleViolation>,
    Vec<RuleViolation>,
))
    ensures
        violations_view(r.0@) == share(
            violations_view(violations@),
            match baseline {
                Some(b) => Some(b@),
                None => None,
            },
            true,
        ),
        violations_view(r.1@) == share(
            violations_view(violations@),
            match baseline {
                Some(b) => Some(b@),
                None => None,
            },
            false,
        ),
{
    let ghost all = violations_view(violations@);
    let baseline = match baseline {
        Some(b) => b,
        None => {
            proof {
                law_everything_is_new_without_baseline(all);
            }
            let none: Vec<RuleViolation> = Vec::new();
            assert(violations_view(none@) =~= Seq::<ViolationView>::empty());
            return (violations, none);
        },
    };
    let frozen = baseline.fingerprints();
    let ghost held = Some(baseline@);
    let mut new: Vec<RuleViolation> = Vec::new();
    let mut grandfathered: Vec<RuleViolation> = Vec::new();
    let mut i: usize = 0;
    assert(all.subrange(0, 0) =~= Seq::<ViolationView>::empty());
    assert(violations_view(new@) =~= Seq::<ViolationView>::empty());
    assert(violations_view(grandfathered@) =~= Seq::<ViolationView>::empty());
    while i < violations.len()
        invariant
            i <= violations@.len(),
            all == violations_view(violations@),
            held == Some(baseline@),
            forall|f: Seq<char>| #[trigger] frozen@.contains(f) <==> is_frozen(baseline@, f),
            violations_view(new@) == share(all.subrange(0, i as int), held, true),
            violations_view(grandfathered@) == share(all.subrange(0, i as int), held, false),
        decreases violations.len() - i,
    {
        let v = violations[i].clone();
        let ghost next = all.subrange(0, i + 1);
        let ghost new_before = violations_view(new@);
        let ghost old_before = violations_view(grandfathered@);
        assert(next.drop_last() =~= all.subrange(0, i as int));
        assert(next.last() == v@);
        if frozen.contains(&v.fingerprint()) {
            grandfathered.push(v);
            assert(violations_view(grandfathered@) =~= old_before.push(next.last()));
        } else {
            new.push(v);
            assert(violations_view(new@) =~= new_before.push(next.last()));
        }
        i += 1;
    }
    assert(all.subrange(0, all.len() as int) =~= all);
    (new, grandfathered)
}

// ---------------------------------------------------------------------------
// Laws
// ---------------------------------------------------------------------------

/// Without a baseline every violation is new, and none is grandfathered.
pub proof fn law_everything_is_new_without_baseline(violations: Seq<ViolationView>)
    ensures
        share(violations, None, true) == violations,
        share(violations, None, false) == Seq::<ViolationView>::empty(),
    decreases violations.len(),
{
    if violations.len() > 0 {
        law_everything_is_new_without_baseline(violations.drop_last());
        assert(violations.drop_last().push(violations.last()) =~= violations);
    }
}

/// A violation is passed on either as new or as grandfathered: none is lost,
/// and none comes twice.
pub proof fn law_split_loses_nothing(
    violations: Seq<ViolationView>,
    baseline: Option<BaselineView>,
)
    ensures
        share(violations, baseline, true).len() + share(violations, baseline, false).len()
            == violations.len(),
        forall|i: int|
            0 <= i < violations.len() ==> share(
                violations,
                baseline,
                is_new(baseline, #[trigger] violations[i]),
            ).contains(violations[i]),
        forall|new: bool, i: int|
            0 <= i < share(violations, baseline, new).len() ==> violations.contains(
                #[trigger] share(violations, baseline, new)[i],
            ) && is_new(baseline, share(violations, baseline, new)[i]) == new,
    decreases violations.len(),
{
    if violations.len() > 0 {
        let front = violations.drop_last();
        law_split_loses_nothing(front, baseline);
        assert forall|i: int| 0 <= i < violations.len() implies share(
            violations,
            baseline,
            is_new(baseline, #[trigger] violations[i]),
        ).contains(violations[i]) by {
            let new = is_new(baseline, violations[i]);
            let before = share(front, baseline, new);
            let all = share(violations, baseline, new);
            if i < front.len() {
                assert(front[i] == violations[i]);
                let k = choose|k: int| 0 <= k < before.len() && before[k] == front[i];
                assert(all[k] == violations[i]);
            } else {
                assert(all[all.len() - 1] == violations[i]);
            }
        }
        assert forall|new: bool, i: int|
            0 <= i < share(violations, baseline, new).len() implies violations.contains(
            #[trigger] share(violations, baseline, new)[i],
        ) && is_new(baseline, share(violations, baseline, new)[i]) == new by {
            let before = share(front, baseline, new);
            let all = share(violations, baseline, new);
            if i < before.len() {
                assert(all[i] == before[i]);
                assert(front.contains(before[i]));
                let k = choose|k: int| 0 <= k < front.len() && front[k] == before[i];
                assert(violations[k] == all[i]);
            } else {
                assert(violations[violations.len() - 1] == all[i]);
            }
        }
    }
}

proof fn lemma_all_frozen(violations: Seq<ViolationView>, baseline: BaselineView)
    requires
        forall|i: int|
            0 <= i < violations.len() ==> is_frozen(
                baseline,
                (#[trigger] violations[i]).fingerprint(),
            ),
    ensures
        share(violations, Some(baseline), true) == Seq::<ViolationView>::empty(),
        share(violations, Some(baseline), false) == violations,
    decreases violations.len(),
{
    if violations.len() > 0 {
        let front = violations.drop_last();
        assert forall|i: int| 0 <= i < front.len() implies is_frozen(
            baseline,
            (#[trigger] front[i]).fingerprint(),
        ) by {
            assert(front[i] == violations[i]);
        }
        lemma_all_frozen(front, baseline);
        assert(is_frozen(baseline, violations[violations.len() - 1].fingerprint()));
        assert(front.push(violations.last()) =~= violations);
    }
}

/// A baseline freezes the violations that it was made of: where each violation
/// has the rule and the message of one of them, nothing is new.
pub proof fn law_baseline_freezes_its_violations(
    frozen: Seq<ViolationView>,
    violations: Seq<ViolationView>,
)
    requires
        forall|i: int|
            0 <= i < violations.len() ==> exists|k: int|
                0 <= k < frozen.len() && (#[trigger] frozen[k]).fingerprint() == (
                #[trigger] violations[i]).fingerprint(),
    ensures
        share(violations, Some(baseline_of(frozen)), true) == Seq::<ViolationView>::empty(),
        share(violations, Some(baseline_of(frozen)), false) == violations,
{
    let baseline = baseline_of(frozen);
    assert forall|i: int| 0 <= i < violations.len() implies is_frozen(
        baseline,
        (#[trigger] violations[i]).fingerprint(),
    ) by {
        let k = choose|k: int|
            0 <= k < frozen.len() && (#[trigger] frozen[k]).fingerprint()
                == violations[i].fingerprint();
        assert(baseline.entries[k] == (frozen[k].rule, frozen[k].message));
    }
    lemma_all_frozen(violations, baseline);
}

/// A baseline freezes nothing but the violations that it was made of: a
/// violation is new unless one of them has the same rule and message.
pub proof fn law_baseline_freezes_nothing_else(frozen: Seq<ViolationView>, v: ViolationView)
    ensures
        is_new(Some(baseline_of(frozen)), v) <==> forall|i: int|
            0 <= i < frozen.len() ==> (#[trigger] frozen[i]).fingerprint() != v.fingerprint(),
{
    let baseline = baseline_of(frozen);
    if is_frozen(baseline, v.fingerprint()) {
        let k = choose|k: int|
            0 <= k < baseline.entries.len() && fingerprint_of(
                (#[trigger] baseline.entries[k]).0,
                baseline.entries[k].1,
            ) == v.fingerprint();
        assert(frozen[k].fingerprint() == v.fingerprint());
    }
    if exists|i: int|
        0 <= i < frozen.len() && (#[trigger] frozen[i]).fingerprint() == v.fingerprint() {
        let i = choose|i: int|
            0 <= i < frozen.len() && (#[trigger] frozen[i]).fingerprint() == v.fingerprint();
        assert(baseline.entries[i] == (frozen[i].rule, frozen[i].message));
    }
}

} // verus!
