use aetherlink::notify::{bypass_active, path_escape_blocked, scan_illegal, scan_legal, write_blocked};
use aetherlink::status::{status_dir, status_file_path, Platform, State, Status, ViolationSummary};
use aetherlink::tray::{format_tooltip, is_news, make_icon, ICON_SIZE};

fn status(state: State, count: usize) -> Status {
    let violations = (0..count)
        .map(|i| ViolationSummary { rule: "r".into(), message: i.to_string() })
        .collect();
    Status::at(state, "/p", violations, "scan_project", 9)
}

#[test]
fn status_counts_its_violations() {
    let s = status(State::Illegal, 2);
    assert_eq!(s.violation_count, 2);
    assert_eq!((s.project_path.as_str(), s.source.as_str(), s.updated_at_secs), ("/p", "scan_project", 9));
    let s = Status::now(State::Legal, "/p", vec![], "test");
    assert_eq!(s.violation_count, 0);
    assert!(s.updated_at_secs > 1_600_000_000);
}

#[test]
fn clock_before_the_epoch_gives_the_epoch() {
    let s = Status::at_clock(State::Legal, "/p", vec![], "test", None);
    assert_eq!(s.updated_at_secs, 0);
    let s = Status::at_clock(State::Illegal, "/p", vec![], "test", Some(17));
    assert_eq!((s.state, s.updated_at_secs), (State::Illegal, 17));
}

#[test]
fn status_file_goes_by_platform() {
    assert_eq!(status_file_path(Platform::Windows, Some("/a")), Ok("/a/AetherLink/status.json".into()));
    assert_eq!(
        status_file_path(Platform::MacOs, Some("/h")),
        Ok("/h/Library/Application Support/AetherLink/status.json".into())
    );
    assert_eq!(status_file_path(Platform::Linux, Some("/h")), Ok("/h/.config/AetherLink/status.json".into()));
    assert_eq!(status_dir(Platform::Other, Some("/h")), Ok("/h/.config/AetherLink".into()));
    assert_eq!(status_file_path(Platform::Windows, None), Err("APPDATA environment variable is not set"));
    assert_eq!(status_file_path(Platform::Linux, None), Err("HOME is not set"));
    assert_eq!(Platform::Windows.variable(), "APPDATA");
    assert_eq!(Platform::Other.variable(), "HOME");
}

#[test]
fn icon_is_a_bordered_square() {
    for (state, color) in [
        (State::Legal, [40u8, 200, 80]),
        (State::Illegal, [220, 50, 50]),
        (State::Unknown, [150, 150, 150]),
    ] {
        let rgba = make_icon(state);
        let size = ICON_SIZE as usize;
        assert_eq!(rgba.len(), size * size * 4);
        for y in 0..size {
            for x in 0..size {
                let i = (y * size + x) * 4;
                let border = x == 0 || y == 0 || x == size - 1 || y == size - 1;
                let part = if border { 2 } else { 1 };
                let expected = [color[0] / part, color[1] / part, color[2] / part, 255];
                assert_eq!(rgba[i..i + 4], expected, "{x},{y}");
            }
        }
    }
}

#[test]
fn tooltip_tells_the_state() {
    assert_eq!(format_tooltip(&status(State::Legal, 0)), "AetherLink — LEGAL\n/p");
    assert_eq!(format_tooltip(&status(State::Illegal, 1)), "AetherLink — 1 VIOLATION\n/p");
    assert_eq!(format_tooltip(&status(State::Illegal, 2)), "AetherLink — 2 VIOLATIONS\n/p");
    assert_eq!(format_tooltip(&status(State::Unknown, 0)), "AetherLink — no scans yet");
    assert!(is_news(None, State::Legal));
    assert!(is_news(Some(State::Illegal), State::Legal));
    assert!(!is_news(Some(State::Legal), State::Legal));
}

#[test]
fn toasts_are_exact() {
    let t = write_blocked("a.rs", 2);
    assert_eq!((t.summary.as_str(), t.body.as_str()), ("AetherLink: Write Blocked", "2 architectural violations in a.rs"));
    let t = scan_illegal("/p", 3);
    assert_eq!((t.summary.as_str(), t.body.as_str()), ("AetherLink: Project ILLEGAL", "3 violations in /p"));
    let t = bypass_active("a.rs", 0);
    assert_eq!(t.summary, "AetherLink: BYPASS ACTIVE — CRITICAL");
    assert_eq!(t.body, "Wrote a.rs without validation (project was clean anyway)");
    assert_eq!(
        bypass_active("a.rs", 1).body,
        "Wrote a.rs despite 1 architectural violation. Validation was BYPASSED."
    );
    assert_eq!(
        path_escape_blocked("../x").body,
        "Refused to write outside the project root: ../x"
    );
    assert_eq!(scan_legal("/p").body, "All architectural rules pass in /p");
}
