use mitase_workbench_server::readiness::{
    closure_readiness_blockers, readiness_impact, readiness_subject_matches, readiness_view,
    ReadinessAxis, ReadinessLevel, ReadinessReport, ReadinessSubject,
};

fn axis(required: usize, blockers: &[&str]) -> ReadinessAxis {
    ReadinessAxis {
        required,
        blockers: blockers.iter().map(|b| b.to_string()).collect(),
        subjects: vec![],
    }
}

fn report(target: ReadinessLevel) -> ReadinessReport {
    ReadinessReport {
        target,
        inventory: axis(2, &[]),
        ownership: axis(1, &[]),
        seedability: axis(1, &["no seed"]),
        workability: axis(0, &[]),
        verification: axis(1, &["no runner"]),
        closed_loop: axis(0, &["loop open"]),
        execution_state: "idle".into(),
    }
}

#[test]
fn readiness_counts_the_blockers_of_the_required_axes() {
    let traceable = readiness_view(report(ReadinessLevel::Traceable));
    assert_eq!(traceable.status, "Ready");
    assert!(traceable.blockers.is_empty());
    let seedable = readiness_view(report(ReadinessLevel::Seedable));
    assert_eq!(seedable.status, "Blocked");
    assert_eq!(seedable.blockers, vec!["no seed"]);
    let closed = readiness_view(report(ReadinessLevel::ClosedLoop));
    assert_eq!(closed.blockers, vec!["no seed", "no runner", "loop open"]);
    assert_eq!(closed.blocking_subjects, 3);
    let unassessed = readiness_view(report(ReadinessLevel::Unassessed));
    assert_eq!(unassessed.status, "Blocked");
    let names: Vec<&str> = closed.axes.iter().map(|e| e.name.as_str()).collect();
    assert_eq!(
        names,
        vec!["closed_loop", "inventory", "ownership", "seedability", "verification", "workability"]
    );
    let mut empty = report(ReadinessLevel::Traceable);
    empty.inventory.required = 0;
    empty.ownership.required = 0;
    assert_eq!(readiness_view(empty).status, "Blocked");
}

#[test]
fn readiness_impact_counts_every_blocker() {
    let impact = readiness_impact(&report(ReadinessLevel::Traceable));
    assert_eq!(impact.blocking_subjects, 3);
    assert_eq!(impact.status, "blocked");
    let mut clear = report(ReadinessLevel::Traceable);
    clear.seedability.blockers.clear();
    clear.verification.blockers.clear();
    clear.closed_loop.blockers.clear();
    assert_eq!(readiness_impact(&clear).status, "ready");
}

#[test]
fn closure_blockers_come_from_subjects_naming_the_item_or_criterion() {
    let subject = |id: &str, scope: &str, blockers: &[&str]| ReadinessSubject {
        id: id.into(),
        scope_id: scope.into(),
        blockers: blockers.iter().map(|b| b.to_string()).collect(),
    };
    assert!(readiness_subject_matches(&subject("REQ-1", "x", &[]), "REQ-1", "REQ-1#criterion.a"));
    assert!(!readiness_subject_matches(&subject("REQ-2", "x", &[]), "REQ-1", "REQ-1#criterion.a"));
    let mut r = report(ReadinessLevel::Traceable);
    r.ownership.subjects = vec![
        subject("REQ-1", "x", &["owner missing"]),
        subject("REQ-2", "y", &["other"]),
    ];
    r.verification.subjects = vec![subject("z", "REQ-1#criterion.a", &["no test"])];
    let view = readiness_view(r);
    assert_eq!(
        closure_readiness_blockers(&view, "REQ-1", "REQ-1#criterion.a"),
        vec!["owner missing", "no test"]
    );
}
