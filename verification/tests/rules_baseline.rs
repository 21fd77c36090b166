use aetherlink::rules::{split_against_baseline, Baseline, RuleViolation, Severity};

fn v(rule: &str, msg: &str) -> RuleViolation {
    RuleViolation {
        rule: rule.into(),
        message: msg.into(),
        severity: Severity::Error,
    }
}

#[test]
fn split_with_no_baseline_returns_all_as_new() {
    let vs = vec![v("max_file_lines", "a 600 over 400")];
    let (new, old) = split_against_baseline(vs.clone(), None);
    assert_eq!(new.len(), 1);
    assert!(old.is_empty());
}

#[test]
fn split_grandfathers_known_violations() {
    let baseline = Baseline::from_violations(&[v("max_file_lines", "huge.js 9000 over 400")]);
    let vs = vec![
        v("max_file_lines", "huge.js 9000 over 400"), // grandfathered
        v("max_file_lines", "new.js 500 over 400"),    // new
    ];
    let (new, old) = split_against_baseline(vs, Some(&baseline));
    assert_eq!(new.len(), 1);
    assert_eq!(new[0].message, "new.js 500 over 400");
    assert_eq!(old.len(), 1);
}

#[test]
fn baseline_freezes_what_it_was_made_of() {
    let vs = vec![v("a", "one"), v("b", "two"), v("a", "one")];
    let baseline = Baseline::from_violations(&vs);
    assert_eq!(baseline.version, 1);
    assert_eq!(baseline.entries.len(), 3);
    assert_eq!(baseline.entries[1].fingerprint(), "b::two");
    assert!(baseline.fingerprints().contains("a::one"));
    assert!(!baseline.fingerprints().contains("a::two"));
    let (new, old) = split_against_baseline(vs, Some(&baseline.clone()));
    assert!(new.is_empty());
    assert_eq!(old.len(), 3);
}

#[test]
fn split_keeps_order_and_loses_nothing() {
    let baseline = Baseline::from_violations(&[v("r", "2"), v("r", "4")]);
    let vs = vec![v("r", "1"), v("r", "2"), v("r", "3"), v("r", "4")];
    let (new, old) = split_against_baseline(vs, Some(&baseline));
    let texts = |l: &Vec<RuleViolation>| l.iter().map(|x| x.message.clone()).collect::<Vec<_>>().join(",");
    assert_eq!(texts(&new), "1,3");
    assert_eq!(texts(&old), "2,4");
}

#[test]
fn baseline_file_lies_in_the_root() {
    assert_eq!(Baseline::path_in("/p"), "/p/.aetherlink-baseline.json");
    assert_eq!(v("rule", "message").fingerprint(), "rule::message");
}

#[test]
fn severity_does_not_matter_to_a_baseline() {
    let baseline = Baseline::from_violations(&[v("a", "one")]);
    let warned = RuleViolation { severity: Severity::Warning, ..v("a", "one") };
    let (new, old) = split_against_baseline(vec![warned], Some(&baseline));
    assert!(new.is_empty());
    assert_eq!(old.len(), 1);
}
