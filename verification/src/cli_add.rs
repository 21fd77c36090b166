//! The interactive rule manager, without its prompts.
use vstd::prelude::*;
use vstd::string::*;

use crate::change::{empty_graph, graph_fits};
use crate::disk::DiskSnapshot;
use crate::graph::{built, DependencyGraph};
use crate::report::{append_counted, counted, number_violations, numbered_lines};
use crate::rules::config::{forbidden_view, RulesFileView, RulesView};
use crate::rules::edit::{arrow_rule, arrow_text, RemovalView};
use crate::rules::validator::{all_violations, validate};
use crate::rules::{violations_view, RuleRemoval, RuleViolation, Rules, ViolationView};
use crate::scanner::{files_view, ScannedFile};
use crate::text::{
    chars_of, count, decimal, join, joined, string_of_range, trim_chars, trim_end_chars, trimmed,
    trimmed_end, CharClass,
};
use crate::text_laws::{all_in, law_trim_removes_the_ends};

verus! {

// ---------------------------------------------------------------------------
// Folder names
// ---------------------------------------------------------------------------

/// Whether the character parts a path.
pub open spec fn is_separator(c: char) -> bool {
    c == '/' || c == '\\'
}

/// What follows the last separator before `end`.
pub open spec fn tail_from(s: Seq<char>, end: int) -> Seq<char>
    decreases end,
{
    if end <= 0 {
        s
    } else if is_separator(s[end - 1]) {
        s.subrange(end, s.len() as int)
    } else {
        tail_from(s, end - 1)
    }
}

/// The last segment of a path, without white space and separators around it.
pub open spec fn final_segment(input: Seq<char>) -> Seq<char> {
    let path = trimmed_end(trimmed(input), CharClass::Slash);
    tail_from(path, path.len() as int)
}

/// Take a slash- or backslash-separated path like `src/db` and keep just the
/// final segment (`db`). The forbidden_imports rule matches on directory
/// component names, so passing the full prefix would never match anything.
pub fn last_segment(input: &str) -> (s: String)
    ensures
        s@ == final_segment(input@),
{
    let path = trim_end_chars(
        &trim_chars(&chars_of(input), CharClass::Space),
        CharClass::Slash,
    );
    let mut end: usize = path.len();
    while end > 0
        invariant
            end <= path@.len(),
            tail_from(path@, path@.len() as int) == tail_from(path@, end as int),
            final_segment(input@) == tail_from(path@, path@.len() as int),
        decreases end,
    {
        if path[end - 1] == '/' || path[end - 1] == '\\' {
            return string_of_range(&path, end, path.len());
        }
        end -= 1;
    }
    let s = string_of_range(&path, 0, path.len());
    assert(s@ =~= path@);
    s
}

proof fn lemma_tail_is_plain(s: Seq<char>, end: int)
    requires
        0 <= end <= s.len(),
        forall|k: int| end <= k < s.len() ==> !is_separator(#[trigger] s[k]),
    ensures
        forall|k: int|
            0 <= k < tail_from(s, end).len() ==> !is_separator(#[trigger] tail_from(s, end)[k]),
    decreases end,
{
    let tail = tail_from(s, end);
    if end > 0 && !is_separator(s[end - 1]) {
        lemma_tail_is_plain(s, end - 1);
        assert(tail == tail_from(s, end - 1));
    } else {
        assert forall|k: int| 0 <= k < tail.len() implies !is_separator(#[trigger] tail[k]) by {
            assert(tail[k] == s[end + k]);
        }
    }
}

/// The last segment holds no separator: it is the name of one folder.
pub proof fn law_segment_is_one_name(input: Seq<char>)
    ensures
        forall|k: int|
            0 <= k < final_segment(input).len() ==> !is_separator(
                #[trigger] final_segment(input)[k],
            ),
{
    let path = trimmed_end(trimmed(input), CharClass::Slash);
    lemma_tail_is_plain(path, path.len() as int);
}

// ---------------------------------------------------------------------------
// Rules to remove
// ---------------------------------------------------------------------------

/// A rule that can be removed.
#[derive(Debug)]
pub struct RemovalOption {
    /// How it is shown.
    pub label: String,
    /// What removes it.
    pub removal: RuleRemoval,
}

impl View for RemovalOption {
    type V = (Seq<char>, RemovalView);

    open spec fn view(&self) -> (Seq<char>, RemovalView) {
        (self.label@, self.removal@)
    }
}

/// The views of a sequence of options.
pub open spec fn options_view(v: Seq<RemovalOption>) -> Seq<(Seq<char>, RemovalView)> {
    Seq::new(v.len(), |i: int| v[i]@)
}

/// The rules that are set, in the order in which they are shown.
pub open spec fn set_rules(rules: RulesView) -> Seq<(Seq<char>, RemovalView)> {
    (match rules.max_file_lines {
        Some(n) => seq![("max_file_lines = "@ + decimal(n as nat), RemovalView::MaxFileLines)],
        None => Seq::empty(),
    }) + (if rules.no_cycles {
        seq![("no_cycles = true"@, RemovalView::NoCycles)]
    } else {
        Seq::empty()
    }) + Seq::new(
        rules.forbidden_imports.len(),
        |i: int|
            (
                "forbidden_import: "@ + arrow_text(
                    rules.forbidden_imports[i].0,
                    rules.forbidden_imports[i].1,
                ),
                RemovalView::ForbiddenImport {
                    from: rules.forbidden_imports[i].0,
                    to: rules.forbidden_imports[i].1,
                },
            ),
    )
}

/// The list of currently-set rules the user can pick from.
pub fn removal_options(rules: &Rules) -> (out: Vec<RemovalOption>)
    ensures
        options_view(out@) == set_rules(rules@),
{
    let mut out: Vec<RemovalOption> = Vec::new();
    assert(options_view(out@) =~= Seq::empty());
    match rules.max_file_lines {
        Some(n) => {
            let mut label = "max_file_lines = ".to_owned();
            label.append(&count(n));
            out.push(RemovalOption { label, removal: RuleRemoval::MaxFileLines });
        },
        None => {},
    }
    let ghost first = match rules@.max_file_lines {
        Some(n) => seq![("max_file_lines = "@ + decimal(n as nat), RemovalView::MaxFileLines)],
        None => Seq::empty(),
    };
    assert(options_view(out@) =~= first);
    if rules.no_cycles {
        out.push(
            RemovalOption {
                label: "no_cycles = true".to_owned(),
                removal: RuleRemoval::NoCycles,
            },
        );
    }
    let ghost start = first + (if rules@.no_cycles {
        seq![("no_cycles = true"@, RemovalView::NoCycles)]
    } else {
        Seq::empty()
    });
    assert(options_view(out@) =~= start);
    let ghost held = rules@.forbidden_imports;
    let ghost all = Seq::new(
        held.len(),
        |i: int|
            (
                "forbidden_import: "@ + arrow_text(held[i].0, held[i].1),
                RemovalView::ForbiddenImport { from: held[i].0, to: held[i].1 },
            ),
    );
    let mut i: usize = 0;
    assert(options_view(out@) =~= start + all.subrange(0, 0));
    while i < rules.forbidden_imports.len()
        invariant
            i <= rules.forbidden_imports@.len(),
            held == forbidden_view(rules.forbidden_imports@),
            all == Seq::new(
                held.len(),
                |i: int|
                    (
                        "forbidden_import: "@ + arrow_text(held[i].0, held[i].1),
                        RemovalView::ForbiddenImport { from: held[i].0, to: held[i].1 },
                    ),
            ),
            options_view(out@) == start + all.subrange(0, i as int),
        decreases rules.forbidden_imports.len() - i,
    {
        let rule = &rules.forbidden_imports[i];
        assert(held[i as int] == rule@);
        let ghost before = options_view(out@);
        let mut label = "forbidden_import: ".to_owned();
        label.append(&arrow_rule(&rule.from, &rule.to));
        out.push(
            RemovalOption {
                label,
                removal: RuleRemoval::ForbiddenImport {
                    from: rule.from.clone(),
                    to: rule.to.clone(),
                },
            },
        );
        assert(options_view(out@) =~= before.push(all[i as int]));
        assert(options_view(out@) =~= start + all.subrange(0, i + 1));
        i += 1;
    }
    assert(all.subrange(0, all.len() as int) =~= all);
    out
}

// ---------------------------------------------------------------------------
// The scan afterwards
// ---------------------------------------------------------------------------

/// The summary of a scan.
pub open spec fn scan_summary_text(
    files: nat,
    edges: nat,
    violations: Seq<ViolationView>,
) -> Seq<char> {
    "Scanned "@ + decimal(files) + " files, "@ + decimal(edges) + " graph edges.\n"@ + (if violations.len()
        == 0 {
        "LEGAL: project passes all rules.\n"@
    } else {
        "\nWARNING: project currently has "@ + counted(violations.len(), " violation"@)
            + " of the rule set:\n"@ + joined(
            numbered_lines(violations, "  ["@, "] "@, " — "@),
            "\n"@,
        ) + "\n"@
    })
}

/// The summary of a scan.
pub fn format_scan_summary(
    files: usize,
    edges: usize,
    violations: &Vec<RuleViolation>,
) -> (s: String)
    ensures
        s@ == scan_summary_text(files as nat, edges as nat, violations_view(violations@)),
{
    let mut s = "Scanned ".to_owned();
    s.append(&count(files));
    s.append(" files, ");
    s.append(&count(edges));
    s.append(" graph edges.\n");
    let ghost head = s@;
    assert(violations_view(violations@).len() == violations@.len());
    if violations.len() == 0 {
        s.append("LEGAL: project passes all rules.\n");
    } else {
        s.append("\nWARNING: project currently has ");
        append_counted(&mut s, violations.len(), " violation");
        s.append(" of the rule set:\n");
        s.append(&join(&number_violations(violations, "  [", "] ", " — "), "\n"));
        s.append("\n");
    }
    assert(s@ =~= scan_summary_text(files as nat, edges as nat, violations_view(violations@)));
    s
}

/// Scan the files against the rules and say what came out. Overrides are not
/// applied here.
pub fn scan_summary(
    project_root: &str,
    files: &[ScannedFile],
    disk: &DiskSnapshot,
    rules: &Rules,
) -> (s: String)
    requires
        graph_fits(files_view(files@)),
    ensures
        ({
            let all = files_view(files@);
            let graph = built(empty_graph(project_root@), all, disk@);
            s@ == scan_summary_text(
                all.len(),
                graph.edges.len(),
                all_violations(
                    all,
                    graph,
                    RulesFileView { rules: rules@, overrides: Seq::empty() },
                    None,
                ),
            )
        }),
{
    let mut graph = DependencyGraph::new(project_root);
    assert(graph@ =~= empty_graph(project_root@));
    graph.build(files, disk);
    let violations = validate(files, &graph, rules);
    format_scan_summary(files.len(), graph.edge_count(), &violations)
}

/// Of a path that is entered for a folder the last name is kept, whatever stands
/// before it and whatever slashes and blanks stand behind it.
pub proof fn law_last_name_is_kept(
    pre: Seq<char>,
    front: Seq<char>,
    name: Seq<char>,
    slashes: Seq<char>,
    post: Seq<char>,
)
    requires
        all_in(pre, CharClass::Space),
        all_in(post, CharClass::Space),
        all_in(slashes, CharClass::Slash),
        name.len() > 0,
        forall|i: int| 0 <= i < name.len() ==> #[trigger] name[i] != '/' && name[i] != '\\',
        !CharClass::Space.has(name[name.len() - 1]),
        front.len() == 0 || ((front.last() == '/' || front.last() == '\\')
            && !CharClass::Space.has(front[0])),
        front.len() == 0 ==> !CharClass::Space.has(name[0]),
    ensures
        final_segment(pre + (front + name + slashes) + post) == name,
{
    let mid = front + name + slashes;
    let path = front + name;
    assert(mid[0] == (if front.len() > 0 {
        front[0]
    } else {
        name[0]
    }));
    if slashes.len() > 0 {
        assert(mid[mid.len() - 1] == slashes[slashes.len() - 1]);
        assert(CharClass::Slash.has(slashes[slashes.len() - 1]));
    } else {
        assert(mid[mid.len() - 1] == name[name.len() - 1]);
    }
    law_trim_removes_the_ends(pre, mid, post, CharClass::Space);
    assert(path[path.len() - 1] == name[name.len() - 1]);
    lemma_slashes_fall(path, slashes);
    lemma_tail(path, front.len() as int, path.len() as int);
    assert(path.subrange(front.len() as int, path.len() as int) =~= name);
}

proof fn lemma_slashes_fall(path: Seq<char>, slashes: Seq<char>)
    requires
        path.len() > 0,
        !CharClass::Slash.has(path[path.len() - 1]),
        all_in(slashes, CharClass::Slash),
    ensures
        trimmed_end(path + slashes, CharClass::Slash) == path,
    decreases slashes.len(),
{
    let all = path + slashes;
    if slashes.len() == 0 {
        assert(all =~= path);
    } else {
        let less = slashes.drop_last();
        assert(all[all.len() - 1] == slashes[slashes.len() - 1]);
        assert(all.subrange(0, all.len() - 1) =~= path + less);
        assert forall|i: int| 0 <= i < less.len() implies CharClass::Slash.has(
            #[trigger] less[i],
        ) by {
            assert(less[i] == slashes[i]);
        }
        lemma_slashes_fall(path, less);
    }
}

proof fn lemma_tail(path: Seq<char>, k: int, end: int)
    requires
        0 <= k <= end <= path.len(),
        k == 0 || path[k - 1] == '/' || path[k - 1] == '\\',
        forall|i: int| k <= i < end ==> path[i] != '/' && path[i] != '\\',
    ensures
        tail_from(path, end) == path.subrange(k, path.len() as int),
    decreases end,
{
    if end > k {
        lemma_tail(path, k, end - 1);
    } else if k == 0 {
        assert(path.subrange(0, path.len() as int) =~= path);
    }
}

/// Every rule that is set is offered for removal, and nothing else: the line
/// limit, the ban of cycles, and each of the forbidden imports.
pub proof fn law_every_set_rule_is_offered(rules: RulesView, i: int)
    ensures
        set_rules(rules).len() == (if rules.max_file_lines is Some {
            1int
        } else {
            0int
        }) + (if rules.no_cycles {
            1int
        } else {
            0int
        }) + rules.forbidden_imports.len(),
        rules.max_file_lines matches Some(n) ==> set_rules(rules)[0] == (
            "max_file_lines = "@ + decimal(n as nat),
            RemovalView::MaxFileLines,
        ),
        rules.no_cycles ==> set_rules(rules).contains(
            ("no_cycles = true"@, RemovalView::NoCycles),
        ),
        0 <= i < rules.forbidden_imports.len() ==> set_rules(rules)[set_rules(rules).len()
            - rules.forbidden_imports.len() + i] == (
            "forbidden_import: "@ + arrow_text(
                rules.forbidden_imports[i].0,
                rules.forbidden_imports[i].1,
            ),
            RemovalView::ForbiddenImport {
                from: rules.forbidden_imports[i].0,
                to: rules.forbidden_imports[i].1,
            },
        ),
{
    if rules.no_cycles {
        let k: int = if rules.max_file_lines is Some {
            1
        } else {
            0
        };
        assert(set_rules(rules)[k] == ("no_cycles = true"@, RemovalView::NoCycles));
    }
}

} // verus!
