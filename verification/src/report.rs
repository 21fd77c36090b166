//! Lists of violations as text.
use vstd::prelude::*;
use vstd::string::*;

use crate::notify::{plural, plural_of};
use crate::rules::{violations_view, RuleViolation, ViolationView};
use crate::text::{count, decimal, views};

verus! {

/// The line of a violation: its number between `open` and `close`, its rule and
/// its message.
pub open spec fn numbered_line(
    number: nat,
    v: ViolationView,
    open: Seq<char>,
    close: Seq<char>,
    middle: Seq<char>,
) -> Seq<char> {
    open + decimal(number) + close + v.rule + middle + v.message
}

/// The line of each violation, numbered from one.
pub open spec fn numbered_lines(
    violations: Seq<ViolationView>,
    open: Seq<char>,
    close: Seq<char>,
    middle: Seq<char>,
) -> Seq<Seq<char>> {
    Seq::new(
        violations.len(),
        |i: int| numbered_line((i + 1) as nat, violations[i], open, close, middle),
    )
}

/// The line of each violation, numbered from one.
pub fn number_violations(
    violations: &Vec<RuleViolation>,
    open: &str,
    close: &str,
    middle: &str,
) -> (out: Vec<String>)
    ensures
        views(out@) == numbered_lines(violations_view(violations@), open@, close@, middle@),
{
    let ghost all = numbered_lines(violations_view(violations@), open@, close@, middle@);
    let mut out: Vec<String> = Vec::new();
    let mut i: usize = 0;
    while i < violations.len()
        invariant
            i <= violations@.len(),
            all == numbered_lines(violations_view(violations@), open@, close@, middle@),
            out@.len() == i,
            forall|k: int| 0 <= k < i ==> #[trigger] out@[k]@ == all[k],
        decreases violations.len() - i,
    {
        let v = &violations[i];
        let mut line = open.to_owned();
        line.append(&count(i + 1));
        line.append(close);
        line.append(&v.rule);
        line.append(middle);
        line.append(&v.message);
        assert(violations_view(violations@)[i as int] == v@);
        assert(line@ == all[i as int]);
        out.push(line);
        i += 1;
    }
    assert(views(out@) =~= all);
    out
}

/// The entry of a violation in a report.
pub open spec fn report_entry(number: nat, v: ViolationView) -> Seq<char> {
    "["@ + decimal(number) + "] "@ + v.severity.name() + " — rule: "@ + v.rule + "\n    "@
        + v.message + "\n\n"@
}

/// The entries of the first `n` violations, numbered from one.
pub open spec fn report_entries(violations: Seq<ViolationView>, n: int) -> Seq<char>
    decreases n,
{
    if n <= 0 {
        Seq::empty()
    } else {
        report_entries(violations, n - 1) + report_entry(n as nat, violations[n - 1])
    }
}

/// The entries of the violations, numbered from one.
pub fn append_entries(report: &mut String, violations: &Vec<RuleViolation>)
    ensures
        final(report)@ == old(report)@ + report_entries(
            violations_view(violations@),
            violations@.len() as int,
        ),
{
    let ghost all = violations_view(violations@);
    let ghost start = report@;
    let mut i: usize = 0;
    assert(report@ =~= start + report_entries(all, 0));
    while i < violations.len()
        invariant
            i <= violations@.len(),
            all == violations_view(violations@),
            report@ == start + report_entries(all, i as int),
        decreases violations.len() - i,
    {
        let v = &violations[i];
        assert(all[i as int] == v@);
        let mut line = "[".to_owned();
        line.append(&count(i + 1));
        line.append("] ");
        line.append(&v.severity.label());
        line.append(" — rule: ");
        line.append(&v.rule);
        line.append("\n    ");
        line.append(&v.message);
        line.append("\n\n");
        assert(line@ == report_entry((i + 1) as nat, v@));
        report.append(&line);
        assert(report@ =~= start + report_entries(all, i + 1));
        i += 1;
    }
}

/// A count of violations with its noun.
pub open spec fn counted(n: nat, noun: Seq<char>) -> Seq<char> {
    decimal(n) + noun + plural(n)
}

/// A count with its noun.
pub fn append_counted(s: &mut String, n: usize, noun: &str)
    ensures
        final(s)@ == old(s)@ + counted(n as nat, noun@),
{
    let ghost start = s@;
    s.append(&count(n));
    s.append(noun);
    s.append(plural_of(n));
    assert(s@ =~= start + counted(n as nat, noun@));
}

/// A count is followed by its noun, in the plural but for one.
pub proof fn law_counts_agree_with_their_noun(n: nat, noun: Seq<char>)
    ensures
        counted(1, noun) == decimal(1) + noun,
        n != 1 ==> counted(n, noun) == decimal(n) + noun + seq!['s'],
{
    reveal_strlit("");
    reveal_strlit("s");
    assert("s"@ =~= seq!['s']);
    assert(decimal(1) + noun + ""@ =~= decimal(1) + noun);
}

/// The lines of a list are as many as the violations, in their order, and are
/// numbered from one.
pub proof fn law_lines_are_numbered_from_one(
    violations: Seq<ViolationView>,
    open: Seq<char>,
    close: Seq<char>,
    middle: Seq<char>,
    i: int,
)
    ensures
        numbered_lines(violations, open, close, middle).len() == violations.len(),
        0 <= i < violations.len() ==> numbered_lines(violations, open, close, middle)[i] == open
            + decimal((i + 1) as nat) + close + violations[i].rule + middle
            + violations[i].message,
{
}

} // verus!
