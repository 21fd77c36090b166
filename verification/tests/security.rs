use aetherlink::disk::DiskSnapshot;
use aetherlink::paths::path_starts_with;
use aetherlink::security::{
    bypass_engaged, bypass_path, canonicalize_under_root, sandbox_anchor, sandbox_probes,
    SandboxError,
};

/// A disk with the paths on it.
fn disk(paths: &[&str]) -> DiskSnapshot {
    let mut d = DiskSnapshot::new();
    for p in paths {
        d.record(p, false);
    }
    d
}

#[test]
fn allows_existing_file_under_root() {
    let d = disk(&["/tmp/ok", "/tmp/ok/src", "/tmp/ok/src/foo.rs"]);
    let canon =
        canonicalize_under_root("/tmp/ok", "/tmp/ok/src/foo.rs", &d, Some("/tmp/ok"), Some("/tmp/ok/src/foo.rs"))
            .unwrap();
    assert!(path_starts_with(&canon, "/tmp/ok"));
}

#[test]
fn allows_brand_new_file_in_existing_subdir() {
    let d = disk(&["/tmp/ok", "/tmp/ok/src"]);
    let target = "/tmp/ok/src/does_not_exist_yet.rs";
    assert_eq!(sandbox_anchor("/tmp/ok", target, &d), Some("/tmp/ok/src".to_string()));
    let canon = canonicalize_under_root("/tmp/ok", target, &d, Some("/tmp/ok"), Some("/tmp/ok/src")).unwrap();
    assert!(path_starts_with(&canon, "/tmp/ok"));
    assert!(canon.ends_with("does_not_exist_yet.rs"));
}

#[test]
fn allows_brand_new_file_in_brand_new_subdir() {
    let d = disk(&["/tmp", "/tmp/ok"]);
    let target = "/tmp/ok/src/new_module/foo.rs";
    assert_eq!(sandbox_anchor("/tmp/ok", target, &d), Some("/tmp/ok".to_string()));
    let canon = canonicalize_under_root("/tmp/ok", target, &d, Some("/tmp/ok"), Some("/tmp/ok")).unwrap();
    assert_eq!(canon, target);
    assert!(path_starts_with(&canon, "/tmp/ok"));
}

#[test]
fn rejects_dotdot_escape_to_sibling_dir() {
    let attempt = "/tmp/parent/project/../not_my_project/steal_me.txt";
    let d = disk(&[attempt, "/tmp/parent/project"]);
    let err = canonicalize_under_root(
        "/tmp/parent/project",
        attempt,
        &d,
        Some("/tmp/parent/project"),
        Some("/tmp/parent/not_my_project/steal_me.txt"),
    )
    .unwrap_err();
    assert!(err.message().contains("PATH ESCAPE BLOCKED"));
}

#[test]
fn rejects_absolute_path_outside_root() {
    let d = disk(&["/tmp/root", "/tmp/outside/evil.txt"]);
    let err = canonicalize_under_root(
        "/tmp/root",
        "/tmp/outside/evil.txt",
        &d,
        Some("/tmp/root"),
        Some("/tmp/outside/evil.txt"),
    )
    .unwrap_err();
    assert!(err.message().contains("PATH ESCAPE BLOCKED"));
    assert_eq!(
        err.message(),
        "PATH ESCAPE BLOCKED: '/tmp/outside/evil.txt' resolves to '/tmp/outside/evil.txt', which is outside the project root '/tmp/root'."
    );
}

#[test]
fn allows_dotdot_that_resolves_back_inside() {
    // src/../src/foo.rs is just src/foo.rs
    let d = disk(&["/tmp/ok", "/tmp/ok/src", "/tmp/ok/src/..", "/tmp/ok/src/../src"]);
    let target = "/tmp/ok/src/../src/foo.rs";
    assert_eq!(sandbox_anchor("/tmp/ok", target, &d), Some("/tmp/ok/src/../src".to_string()));
    let canon = canonicalize_under_root("/tmp/ok", target, &d, Some("/tmp/ok"), Some("/tmp/ok/src")).unwrap();
    assert_eq!(canon, "/tmp/ok/src/foo.rs");
}

#[test]
fn relative_target_resolves_against_project_root() {
    let d = disk(&["/tmp/ok", "/tmp/ok/src"]);
    let canon = canonicalize_under_root("/tmp/ok", "src/new.rs", &d, Some("/tmp/ok"), Some("/tmp/ok/src")).unwrap();
    assert!(path_starts_with(&canon, "/tmp/ok"));
    assert!(canon.ends_with("new.rs"));
}

#[test]
fn bypass_engaged_detects_kill_switch_file() {
    let mut d = DiskSnapshot::new();
    assert!(!bypass_engaged("/p", &d));
    d.record(&bypass_path("/p"), true);
    assert!(bypass_engaged("/p", &d));
    assert!(!bypass_engaged("/q", &d));
    assert_eq!(bypass_path("/p"), "/p/.aetherlink_bypass");
}

#[test]
fn symlinked_ancestor_that_leads_outside_is_refused() {
    let d = disk(&["/p", "/p/link"]);
    let err = canonicalize_under_root("/p", "link/new/file.rs", &d, Some("/p"), Some("/elsewhere")).unwrap_err();
    assert_eq!(
        err,
        SandboxError::Escape {
            target: "link/new/file.rs".into(),
            resolved: "/elsewhere/new/file.rs".into(),
            root: "/p".into()
        }
    );
}

#[test]
fn prefix_of_a_name_is_not_inside() {
    let d = disk(&["/pp"]);
    assert!(canonicalize_under_root("/p", "/pp/a.rs", &d, Some("/p"), Some("/pp")).is_err());
}

#[test]
fn each_sandbox_error_has_an_input() {
    let d = disk(&["/p", "/p/a.rs"]);
    let error = |t: &str, root: Option<&str>, probe: Option<&str>| {
        canonicalize_under_root("/p", t, &d, root, probe).unwrap_err()
    };
    assert_eq!(error("a.rs", None, None), SandboxError::Root("/p".into()));
    assert_eq!(error("a.rs", Some("/p"), None), SandboxError::Target("/p/a.rs".into()));
    assert_eq!(error("b/c.rs", Some("/p"), None), SandboxError::Ancestor("/p".into()));
    assert_eq!(error("b/../c.rs", Some("/p"), None), SandboxError::NoAncestor("/p/b/../c.rs".into()));
    assert_eq!(SandboxError::Root("/p".into()).message(), "canonicalizing project root /p");
    assert_eq!(SandboxError::Target("/t".into()).message(), "canonicalizing /t");
    assert_eq!(SandboxError::Ancestor("/a".into()).message(), "canonicalizing existing ancestor /a");
    assert_eq!(
        SandboxError::NoAncestor("/n".into()).message(),
        "could not find any existing ancestor of /n"
    );
}

#[test]
fn probes_are_the_target_and_its_ancestors() {
    assert_eq!(sandbox_probes("/p", "a/b.rs"), vec!["/p/a/b.rs", "/p/a", "/p", "/"]);
    assert_eq!(sandbox_probes("p", "b.rs"), vec!["p/b.rs", "p", ""]);
    assert_eq!(sandbox_probes("/p", "/x/../y"), vec!["/x/../y", "/x/.."]);
}

#[test]
fn dangling_links_are_refused() {
    let mut d = disk(&["/p"]);
    d.record_dangling("/p/link");
    assert!(!d.has("/p/link"));
    assert!(d.is_dangling("/p/link"));
    assert!(!d.is_dangling("/p"));
    assert_eq!(sandbox_anchor("/p", "link", &d), Some("/p/link".to_string()));
    assert_eq!(
        canonicalize_under_root("/p", "link", &d, Some("/p"), None),
        Err(SandboxError::Target("/p/link".into()))
    );
    assert_eq!(
        canonicalize_under_root("/p", "link", &d, Some("/p"), Some("/p/link")),
        Err(SandboxError::Target("/p/link".into()))
    );
    assert_eq!(
        canonicalize_under_root("/p", "link/new.txt", &d, Some("/p"), Some("/p/link")),
        Err(SandboxError::Ancestor("/p/link".into()))
    );
    assert_eq!(
        canonicalize_under_root("/p", "new.txt", &d, Some("/p"), Some("/p")),
        Ok("/p/new.txt".to_string())
    );
}
