//! The status that the server publishes and the tray shows.
use vstd::prelude::*;
use vstd::string::*;

use crate::path_laws::{is_plain_name, law_joining_puts_one_below_the_other};
use crate::paths::{components, join_path, join_paths};
use crate::rules::{violations_view, RuleViolation, ViolationView};

verus! {

/// How the project fares.
#[derive(Debug, Clone, Copy, PartialEq, Eq, Structural)]
pub enum State {
    /// It obeys its rules.
    Legal,
    /// It breaks some.
    Illegal,
    /// It was not scanned.
    Unknown,
}

/// A violation as the tray shows it.
#[derive(Debug, PartialEq, Eq)]
pub struct ViolationSummary {
    /// The name of the rule.
    pub rule: String,
    /// What breaks it.
    pub message: String,
}

impl View for ViolationSummary {
    type V = (Seq<char>, Seq<char>);

    open spec fn view(&self) -> (Seq<char>, Seq<char>) {
        (self.rule@, self.message@)
    }
}

/// The views of a sequence of summaries.
pub open spec fn summaries_view(v: Seq<ViolationSummary>) -> Seq<(Seq<char>, Seq<char>)> {
    Seq::new(v.len(), |i: int| v[i]@)
}

/// The summaries of violations.
pub open spec fn summaries_of(v: Seq<ViolationView>) -> Seq<(Seq<char>, Seq<char>)> {
    Seq::new(v.len(), |i: int| (v[i].rule, v[i].message))
}

/// The latest result of a scan or a write.
#[derive(Debug, PartialEq, Eq)]
pub struct Status {
    /// How the project fares.
    pub state: State,
    /// Where the project is.
    pub project_path: String,
    /// How many violations there are.
    pub violation_count: usize,
    /// The violations.
    pub violations: Vec<ViolationSummary>,
    /// Source of the update, so that the tray tooltip can show why the state
    /// changed.
    pub source: String,
    /// When the status was made, in seconds since the Unix epoch.
    pub updated_at_secs: u64,
}

/// What a [`Status`] holds.
#[verifier::ext_equal]
pub struct StatusView {
    /// How the project fares.
    pub state: State,
    /// Where the project is.
    pub project_path: Seq<char>,
    /// How many violations there are.
    pub violation_count: usize,
    /// The violations.
    pub violations: Seq<(Seq<char>, Seq<char>)>,
    /// Source of the update.
    pub source: Seq<char>,
    /// When the status was made, in seconds since the Unix epoch.
    pub updated_at_secs: u64,
}

impl View for Status {
    type V = StatusView;

    open spec fn view(&self) -> StatusView {
        StatusView {
            state: self.state,
            project_path: self.project_path@,
            violation_count: self.violation_count,
            violations: summaries_view(self.violations@),
            source: self.source@,
            updated_at_secs: self.updated_at_secs,
        }
    }
}

/// `std::time::SystemTime::elapsed` of the Unix epoch, in whole seconds: some
/// number, or none where the clock stands before the epoch.
#[verifier::external_body]
fn unix_seconds() -> Option<u64> {
    std::time::UNIX_EPOCH.elapsed().ok().map(|d| d.as_secs())
}

impl Status {
    /// A status with a given time.
    pub fn at(
        state: State,
        project_path: &str,
        violations: Vec<ViolationSummary>,
        source: &str,
        updated_at_secs: u64,
    ) -> (s: Status)
        ensures
            s@ == (StatusView {
                state,
                project_path: project_path@,
                violation_count: violations@.len() as usize,
                violations: summaries_view(violations@),
                source: source@,
                updated_at_secs,
            }),
    {
        Status {
            state,
            project_path: project_path.to_owned(),
            violation_count: violations.len(),
            violations,
            source: source.to_owned(),
            updated_at_secs,
        }
    }

    /// A status with the time that the clock shows, in seconds since the Unix
    /// epoch; with the epoch where the clock stands before it.
    pub fn at_clock(
        state: State,
        project_path: &str,
        violations: Vec<ViolationSummary>,
        source: &str,
        clock: Option<u64>,
    ) -> (s: Status)
        ensures
            s@ == (StatusView {
                state,
                project_path: project_path@,
                violation_count: violations@.len() as usize,
                violations: summaries_view(violations@),
                source: source@,
                updated_at_secs: match clock {
                    Some(secs) => secs,
                    None => 0,
                },
            }),
    {
        let secs: u64 = match clock {
            Some(secs) => secs,
            None => 0,
        };
        Status::at(state, project_path, violations, source, secs)
    }

    /// A status with the present time, as [`Status::at_clock`] takes it from the
    /// clock. The clock decides which time that is.
    pub fn now(
        state: State,
        project_path: &str,
        violations: Vec<ViolationSummary>,
        source: &str,
    ) -> (s: Status)
        ensures
            s@ == (StatusView {
                state,
                project_path: project_path@,
                violation_count: violations@.len() as usize,
                violations: summaries_view(violations@),
                source: source@,
                updated_at_secs: s.updated_at_secs,
            }),
    {
        Status::at_clock(state, project_path, violations, source, unix_seconds())
    }
}

/// Convert validator output into the lightweight summaries the tray reads.
pub fn summarize(violations: &Vec<RuleViolation>) -> (out: Vec<ViolationSummary>)
    ensures
        summaries_view(out@) == summaries_of(violations_view(violations@)),
{
    let mut out: Vec<ViolationSummary> = Vec::new();
    let mut i: usize = 0;
    while i < violations.len()
        invariant
            i <= violations@.len(),
            out@.len() == i,
            forall|k: int|
                0 <= k < i ==> #[trigger] out@[k]@ == (
                    violations@[k].rule@,
                    violations@[k].message@,
                ),
        decreases violations.len() - i,
    {
        out.push(
            ViolationSummary {
                rule: violations[i].rule.clone(),
                message: violations[i].message.clone(),
            },
        );
        i += 1;
    }
    assert(summaries_view(out@) =~= summaries_of(violations_view(violations@)));
    out
}

/// The platforms that keep application data in different places.
#[derive(Debug, Clone, Copy, PartialEq, Eq, Structural)]
pub enum Platform {
    /// Windows.
    Windows,
    /// macOS.
    MacOs,
    /// Linux.
    Linux,
    /// Any other.
    Other,
}

/// The folder of the status file, below the folder that the platform's
/// environment names.
pub open spec fn status_folder(platform: Platform, base: Seq<char>) -> Seq<char> {
    match platform {
        Platform::Windows => join_paths(base, "AetherLink"@),
        Platform::MacOs => join_paths(
            join_paths(join_paths(base, "Library"@), "Application Support"@),
            "AetherLink"@,
        ),
        _ => join_paths(join_paths(base, ".config"@), "AetherLink"@),
    }
}

/// The environment variable that names the folder.
pub open spec fn status_variable(platform: Platform) -> Seq<char> {
    match platform {
        Platform::Windows => "APPDATA"@,
        _ => "HOME"@,
    }
}

/// What is said where the environment variable is missing.
pub open spec fn missing_variable(platform: Platform) -> Seq<char> {
    match platform {
        Platform::Windows => "APPDATA environment variable is not set"@,
        _ => "HOME is not set"@,
    }
}

impl Platform {
    /// The environment variable that names the folder of application data.
    pub fn variable(self) -> (s: &'static str)
        ensures
            s@ == status_variable(self),
    {
        match self {
            Platform::Windows => "APPDATA",
            _ => "HOME",
        }
    }
}

/// The folder of the status file, given the value of the environment variable
/// that names the folder of application data.
pub fn status_dir(platform: Platform, base: Option<&str>) -> (r: Result<String, &'static str>)
    ensures
        match base {
            Some(b) => r matches Ok(p) && p@ == status_folder(platform, b@),
            None => r matches Err(e) && e@ == missing_variable(platform),
        },
{
    let base = match base {
        Some(b) => b,
        None => {
            return match platform {
                Platform::Windows => Err("APPDATA environment variable is not set"),
                _ => Err("HOME is not set"),
            };
        },
    };
    Ok(
        match platform {
            Platform::Windows => join_path(base, "AetherLink"),
            Platform::MacOs => join_path(
                &join_path(&join_path(base, "Library"), "Application Support"),
                "AetherLink",
            ),
            _ => join_path(&join_path(base, ".config"), "AetherLink"),
        },
    )
}

/// Per-platform location of the status file.
pub fn status_file_path(platform: Platform, base: Option<&str>) -> (r: Result<
    String,
    &'static str,
>)
    ensures
        match base {
            Some(b) => r matches Ok(p) && p@ == join_paths(
                status_folder(platform, b@),
                "status.json"@,
            ),
            None => r matches Err(e) && e@ == missing_variable(platform),
        },
{
    match status_dir(platform, base) {
        Ok(dir) => Ok(join_path(&dir, "status.json")),
        Err(e) => Err(e),
    }
}

/// The status is kept in a folder of the program below the folder that the
/// platform has for settings.
pub proof fn law_status_is_below_the_settings(base: Seq<char>)
    ensures
        components(status_folder(Platform::Windows, base)) == components(base).push("AetherLink"@),
        components(status_folder(Platform::MacOs, base)) == components(base).push(
            "Library"@,
        ).push("Application Support"@).push("AetherLink"@),
        components(status_folder(Platform::Linux, base)) == components(base).push(".config"@).push(
            "AetherLink"@,
        ),
{
    reveal_strlit("AetherLink");
    reveal_strlit("Library");
    reveal_strlit("Application Support");
    reveal_strlit(".config");
    assert("AetherLink"@.len() == 10 && "Library"@.len() == 7 && "Application Support"@.len() == 19
        && ".config"@.len() == 7);
    assert(is_plain_name("AetherLink"@));
    assert(is_plain_name("Library"@));
    assert(is_plain_name("Application Support"@));
    assert(is_plain_name(".config"@));
    law_joining_puts_one_below_the_other(base, "AetherLink"@);
    law_joining_puts_one_below_the_other(base, "Library"@);
    law_joining_puts_one_below_the_other(base, ".config"@);
    let library = join_paths(base, "Library"@);
    law_joining_puts_one_below_the_other(library, "Application Support"@);
    law_joining_puts_one_below_the_other(
        join_paths(library, "Application Support"@),
        "AetherLink"@,
    );
    law_joining_puts_one_below_the_other(
        join_paths(base, ".config"@),
        "AetherLink"@,
    );
}

} // verus!
