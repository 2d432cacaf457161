use backstage_app_lib::api::ApiError;
use backstage_app_lib::index::{
    admission_refusal, cache_write_warning, finish_scan, ScanFinish,
    CompletionDisposition, IndexSnapshot, ScanCoordinator, CURRENT_INDEX_SCHEMA_VERSION,
};

fn snapshot(root_id: &str, generation: u64, configuration_revision: u64) -> IndexSnapshot {
    IndexSnapshot {
        schema_version: CURRENT_INDEX_SCHEMA_VERSION,
        root_id: root_id.to_owned(),
        generation,
        indexed_at: "2026-08-13T12:00:00Z".to_owned(),
        configuration_revision,
        projects: vec![],
        warnings: vec![],
    }
}

#[test]
fn generations_strictly_increase_across_roots() {
    let mut coordinator = ScanCoordinator::new();
    assert_eq!(coordinator.last_generation(), 0);
    let a = coordinator.begin("root_a");
    let b = coordinator.begin_for_revision("root_b", 4);
    let c = coordinator.begin("root_a");
    assert_eq!((a.generation, b.generation, c.generation), (1, 2, 3));
    assert_eq!(coordinator.last_generation(), 3);
    assert!(a.admitted && b.admitted && c.admitted);
}

#[test]
fn a_cancelled_scan_cannot_publish() {
    let mut coordinator = ScanCoordinator::new();
    let permit = coordinator.begin("root_a");
    coordinator.cancel(&permit);
    assert_eq!(
        coordinator.complete(&permit, snapshot("root_a", permit.generation, 0)),
        CompletionDisposition::Superseded
    );
    assert_eq!(coordinator.current("root_a"), None);
}

#[test]
fn roots_do_not_affect_each_other() {
    let mut coordinator = ScanCoordinator::new();
    let a = coordinator.begin("root_a");
    assert_eq!(
        coordinator.complete(&a, snapshot("root_a", a.generation, 0)),
        CompletionDisposition::Accepted
    );
    let b = coordinator.begin("root_b");
    coordinator.fail(&b, "unreadable".to_owned());
    coordinator.forget("root_b");
    let c = coordinator.begin("root_c");
    coordinator.cancel(&c);
    coordinator.hydrate(snapshot("root_d", 1, 0));

    assert_eq!(coordinator.current("root_a"), Some(snapshot("root_a", 1, 0)));
    assert_eq!(coordinator.failure("root_a"), None);
    assert_eq!(coordinator.failure("root_b"), None);
    assert_eq!(coordinator.current("root_d"), Some(snapshot("root_d", 1, 0)));
}

#[test]
fn a_delayed_completion_after_the_root_was_forgotten_is_superseded() {
    let mut coordinator = ScanCoordinator::new();
    let permit = coordinator.begin_for_revision("root_a", 2);
    coordinator.forget("root_a");
    assert_eq!(
        coordinator.complete(&permit, snapshot("root_a", permit.generation, 2)),
        CompletionDisposition::Superseded
    );
    assert_eq!(coordinator.current("root_a"), None);
}

#[test]
fn refused_admissions_and_failed_cache_writes_are_reported() {
    let mut coordinator = ScanCoordinator::new();
    let newer = coordinator.begin_for_revision("root_a", 3);
    assert_eq!(admission_refusal(&newer), None);
    let stale = coordinator.begin_for_revision("root_a", 2);
    let refusal = admission_refusal(&stale).expect("refused");
    assert_eq!(refusal.code, "scan_superseded");
    assert_eq!(refusal.message, "A newer scan configuration is already active");

    assert_eq!(cache_write_warning("/w", Ok(())), None);
    let warning = cache_write_warning("/w", Err("disk full".to_owned())).expect("warning");
    assert_eq!(warning.code, "cache_write_failed");
    assert_eq!(warning.path, "/w");
    assert_eq!(
        warning.message,
        "The new index is usable in memory but could not be cached: disk full"
    );
}

#[test]
fn finished_scans_are_settled_by_their_outcome() {
    let mut coordinator = ScanCoordinator::new();
    let permit = coordinator.begin("root_a");
    let finish = finish_scan(
        &mut coordinator,
        &permit,
        Ok(()),
        false,
        snapshot("root_a", permit.generation, 0),
    );
    assert_eq!(finish, ScanFinish::Save(snapshot("root_a", 1, 0)));
    assert_eq!(coordinator.current("root_a"), Some(snapshot("root_a", 1, 0)));

    let stale = coordinator.begin("root_a");
    let newer = coordinator.begin("root_a");
    assert_eq!(
        finish_scan(&mut coordinator, &stale, Ok(()), false, snapshot("root_a", stale.generation, 0)),
        ScanFinish::Superseded
    );
    assert_eq!(finish_scan(&mut coordinator, &newer, Ok(()), true, snapshot("root_a", 3, 0)), ScanFinish::Cancelled);
    assert_eq!(coordinator.current("root_a"), Some(snapshot("root_a", 1, 0)));

    let failing = coordinator.begin("root_a");
    let error = ApiError::new("operation_failed", "store offline".to_owned());
    assert_eq!(
        finish_scan(&mut coordinator, &failing, Err(error.clone()), false, snapshot("root_a", 4, 0)),
        ScanFinish::Refused(error)
    );
    assert_eq!(coordinator.failure("root_a"), Some("store offline".to_owned()));

    let vanished = coordinator.begin("root_a");
    let missing = ApiError::new("root_not_found", "Approved root is no longer available".to_owned());
    assert_eq!(
        finish_scan(&mut coordinator, &vanished, Err(missing.clone()), false, snapshot("root_a", 5, 0)),
        ScanFinish::Refused(missing)
    );
    assert_eq!(coordinator.current("root_a"), None);
}
