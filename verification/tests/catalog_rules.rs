use backstage_app_lib::catalog::{
    partial_detail_warning, progress_unavailable_warning, selected_artifact_not_utf8,
    selected_artifact_unreadable,
};
use backstage_app_lib::catalog::stop_reason_of;
use backstage_app_lib::catalog::{
    is_markdown, is_tasks_member, partial_warning, CatalogError, ProjectScanBudget,
    ScanStopReason,
};
use backstage_app_lib::discovery::{CancellationToken, ScanPolicy, ScanWarning};

#[test]
fn markdown_is_recognized_by_a_case_insensitive_md_extension() {
    assert!(is_markdown("README.md"));
    assert!(is_markdown("docs/Guide.MD"));
    assert!(is_markdown("notes/plan.Md"));
    assert!(is_markdown("a.b.md"));
    assert!(!is_markdown(".md"));
    assert!(!is_markdown("docs/.md"));
    assert!(!is_markdown("README.markdown"));
    assert!(!is_markdown("README"));
    assert!(!is_markdown("md"));
    assert!(!is_markdown("docs.md/readme.txt"));
    assert!(is_markdown("docs/readme.md/"));
}

#[test]
fn only_tasks_md_members_carry_task_progress() {
    assert!(is_tasks_member("tasks.md"));
    assert!(is_tasks_member("openspec/changes/search/tasks.md"));
    assert!(!is_tasks_member("openspec/changes/search/subtasks.md"));
    assert!(!is_tasks_member("tasks.md.bak"));
}

#[test]
fn interrupted_project_indexing_reports_bounded_partial_results() {
    let policy = ScanPolicy {
        timeout_ms: 1500,
        ..ScanPolicy::default()
    };
    assert_eq!(
        partial_warning(ScanStopReason::TimedOut, "C:\\repo\\web", &policy),
        ScanWarning {
            code: "artifact_index_timeout".to_owned(),
            path: "C:/repo/web".to_owned(),
            message: "Artifact indexing stopped after 1500 ms; the index contains bounded partial results"
                .to_owned(),
        }
    );
    assert_eq!(
        partial_warning(ScanStopReason::Cancelled, "/repo", &policy),
        ScanWarning {
            code: "artifact_index_cancelled".to_owned(),
            path: "/repo".to_owned(),
            message: "Artifact indexing was cancelled; the index contains bounded partial results"
                .to_owned(),
        }
    );
}

#[test]
fn project_budget_stops_on_cancellation_before_the_deadline() {
    let token = CancellationToken::new();
    let relaxed = ProjectScanBudget::new(&ScanPolicy::default(), &token);
    assert_eq!(relaxed.stop_reason(), None);

    let expired = ProjectScanBudget::new(
        &ScanPolicy {
            timeout_ms: 0,
            ..ScanPolicy::default()
        },
        &token,
    );
    assert_eq!(expired.stop_reason(), Some(ScanStopReason::TimedOut));

    token.cancel();
    assert_eq!(expired.stop_reason(), Some(ScanStopReason::Cancelled));
    assert_eq!(relaxed.stop_reason(), Some(ScanStopReason::Cancelled));
}

#[test]
fn catalog_errors_describe_themselves() {
    assert_eq!(
        CatalogError::NotFound.describe(),
        "indexed Markdown ID was not found in the current index"
    );
    assert_eq!(
        CatalogError::Read("too large".to_owned()).describe(),
        "artifact could not be read safely: too large"
    );
}

#[test]
fn cancellation_is_decided_before_the_deadline() {
    assert_eq!(stop_reason_of(true, true), Some(ScanStopReason::Cancelled));
    assert_eq!(stop_reason_of(true, false), Some(ScanStopReason::Cancelled));
    assert_eq!(stop_reason_of(false, true), Some(ScanStopReason::TimedOut));
    assert_eq!(stop_reason_of(false, false), None);
}

#[test]
fn artifact_read_problems_name_the_member() {
    assert_eq!(
        selected_artifact_unreadable("tasks.md", Some("too large")),
        CatalogError::Read("Selected artifact tasks.md could not be read: too large".to_owned())
    );
    assert_eq!(
        selected_artifact_unreadable("tasks.md", None),
        CatalogError::Read("Selected artifact tasks.md could not be read: snapshot is unavailable".to_owned())
    );
    assert_eq!(
        selected_artifact_not_utf8("a.md"),
        CatalogError::Read("Selected artifact a.md is not UTF-8".to_owned())
    );
    assert_eq!(
        progress_unavailable_warning("x/tasks.md"),
        "x/tasks.md is not UTF-8; deterministic progress is unavailable"
    );
    assert_eq!(
        partial_detail_warning("x/design.md", "gone"),
        "x/design.md could not be read; deterministic detail is partial: gone"
    );
}
