use backstage_app_lib::catalog::ScanStopReason;
use backstage_app_lib::discovery::{Discovery, WalkedEntry};
use backstage_app_lib::discovery::{
    add_project, admit_entry, cancelled_before_walk, file_name, git_context_from_head,
    needs_root_project, project_is_new, record_symlink, record_unreadable, sort_projects,
    stable_id, warning, worktree_pointer_message, CancellationToken, DiscoveryResult, GitContext,
    ProjectCandidate, ScanPolicy, ScanWarning, SymlinkResolution,
};

fn candidate(name: &str, root_path: &str) -> ProjectCandidate {
    ProjectCandidate {
        id: stable_id("project", root_path),
        name: name.to_owned(),
        root_path: root_path.to_owned(),
        git: None,
    }
}

#[test]
fn default_policy_excludes_generated_directories_and_bounds_the_walk() {
    let policy = ScanPolicy::default();
    assert_eq!(
        policy.exclusions,
        [".git", "node_modules", "target", ".cache", ".next", "dist", "build"]
    );
    assert_eq!(policy.max_depth, 8);
    assert_eq!(policy.max_entries, 50_000);
    assert_eq!(policy.max_file_bytes, 2 * 1024 * 1024);
    assert_eq!(policy.timeout_ms, 30_000);
}

#[test]
fn stable_ids_are_prefixed_truncated_sha256_digests() {
    assert_eq!(
        stable_id("project", "/tmp/workbench"),
        "project_37164669e8f2d7879c707a33"
    );
    assert_eq!(stable_id("root", "/Users/dev"), "root_0b34ca0d949feb1aa2f71a3d");
    assert_eq!(stable_id("project", "/tmp/workbench"), stable_id("project", "/tmp/workbench"));
    assert_ne!(stable_id("project", "/tmp/workbench"), stable_id("project", "/tmp/root"));
}

#[test]
fn git_head_names_the_branch() {
    assert_eq!(
        git_context_from_head("ref: refs/heads/main\n"),
        Ok(GitContext {
            branch: "main".to_owned()
        })
    );
    assert_eq!(
        git_context_from_head("  4f2c1d9e\n"),
        Ok(GitContext {
            branch: "4f2c1d9e".to_owned()
        })
    );
    assert_eq!(git_context_from_head(" \n"), Err("Git HEAD is empty".to_owned()));
    assert_eq!(
        git_context_from_head("ref: refs/heads/"),
        Err("Git HEAD is empty".to_owned())
    );
    assert_eq!(
        worktree_pointer_message(),
        "Git worktree pointers are not inspected in v1"
    );
}

#[test]
fn file_names_follow_the_last_path_component() {
    assert_eq!(file_name("/tmp/a/alpha").as_deref(), Some("alpha"));
    assert_eq!(file_name("/tmp/a/alpha/").as_deref(), Some("alpha"));
    assert_eq!(file_name("/tmp/a/alpha/.").as_deref(), Some("alpha"));
    assert_eq!(file_name("/tmp/a/.."), None);
    assert_eq!(file_name("/"), None);
    assert_eq!(file_name(""), None);
}

#[test]
fn cancellation_before_the_walk_reports_an_empty_cancelled_result() {
    let token = CancellationToken::new();
    assert!(!token.is_cancelled());
    let shared = token.clone();
    shared.cancel();
    assert!(token.is_cancelled());

    let result = cancelled_before_walk();
    assert!(result.cancelled);
    assert!(result.projects.is_empty());
    assert!(result.warnings.is_empty());
    assert_eq!(result.entries_inspected, 0);
    assert!(!needs_root_project(&result));
}

#[test]
fn admission_stops_on_cancellation_timeout_and_entry_limit() {
    let policy = ScanPolicy {
        max_entries: 2,
        timeout_ms: 250,
        ..ScanPolicy::default()
    };
    let mut result = DiscoveryResult::default();
    assert!(admit_entry(&mut result, false, false, &policy, "C:\\work"));
    assert!(admit_entry(&mut result, false, false, &policy, "C:\\work"));
    assert_eq!(result.entries_inspected, 2);
    assert!(!admit_entry(&mut result, false, false, &policy, "C:\\work"));
    assert_eq!(
        result.warnings,
        [ScanWarning {
            code: "entry_limit_reached".to_owned(),
            path: "C:/work".to_owned(),
            message: "Scan stopped after 2 entries".to_owned(),
        }]
    );

    let mut timed = DiscoveryResult::default();
    assert!(!admit_entry(&mut timed, false, true, &policy, "/w"));
    assert_eq!(timed.warnings[0].code, "scan_timeout");
    assert_eq!(timed.warnings[0].message, "Scan stopped after 250 ms");
    assert_eq!(timed.entries_inspected, 0);

    let mut cancelled = DiscoveryResult::default();
    assert!(!admit_entry(&mut cancelled, true, true, &policy, "/w"));
    assert!(cancelled.cancelled);
    assert!(cancelled.warnings.is_empty());
}

#[test]
fn unreadable_entries_and_symlinks_become_warnings() {
    let mut result = DiscoveryResult::default();
    record_unreadable(&mut result, "/w", "permission denied".to_owned());
    record_symlink(&mut result, "/w/link", SymlinkResolution::Contained);
    record_symlink(
        &mut result,
        "/w/escape",
        SymlinkResolution::Escapes {
            resolved: "/etc/passwd".to_owned(),
        },
    );
    record_symlink(
        &mut result,
        "/w/broken",
        SymlinkResolution::Unavailable {
            message: "dangling".to_owned(),
        },
    );

    assert_eq!(
        result.warnings,
        [
            warning("path_unreadable", "/w", "permission denied".to_owned()),
            warning(
                "symlink_escape",
                "/w/escape",
                "Skipped symlink resolving outside approved root: /etc/passwd".to_owned()
            ),
            warning("symlink_unavailable", "/w/broken", "dangling".to_owned()),
        ]
    );
    assert!(result.projects.is_empty());
}

#[test]
fn projects_are_recorded_once_with_git_context_or_a_warning() {
    let mut result = DiscoveryResult::default();
    let mut seen = Vec::new();
    assert!(needs_root_project(&result));

    add_project(
        &mut result,
        &mut seen,
        "/tmp/a/alpha",
        Ok(GitContext {
            branch: "main".to_owned(),
        }),
    );
    add_project(&mut result, &mut seen, "/tmp/a/alpha", Err("ignored".to_owned()));
    add_project(&mut result, &mut seen, "/tmp/workbench", Err("HEAD unreadable".to_owned()));

    assert_eq!(seen, ["/tmp/a/alpha", "/tmp/workbench"]);
    assert!(!project_is_new(&seen, "/tmp/a/alpha"));
    assert!(project_is_new(&seen, "/tmp/a"));
    assert_eq!(
        result.projects,
        [
            ProjectCandidate {
                id: "project_d20208dbbb9ad57e83432a5d".to_owned(),
                name: "alpha".to_owned(),
                root_path: "/tmp/a/alpha".to_owned(),
                git: Some(GitContext {
                    branch: "main".to_owned()
                }),
            },
            ProjectCandidate {
                id: "project_37164669e8f2d7879c707a33".to_owned(),
                name: "workbench".to_owned(),
                root_path: "/tmp/workbench".to_owned(),
                git: None,
            },
        ]
    );
    assert_eq!(
        result.warnings,
        [warning("git_unavailable", "/tmp/workbench", "HEAD unreadable".to_owned())]
    );
    assert!(!needs_root_project(&result));
}

#[test]
fn a_root_without_a_file_name_is_named_by_its_path() {
    let mut result = DiscoveryResult::default();
    let mut seen = Vec::new();
    add_project(&mut result, &mut seen, "/", Err("no git".to_owned()));
    assert_eq!(result.projects[0].name, "/");
    assert_eq!(result.projects[0].root_path, "/");
}

#[test]
fn projects_sort_by_case_insensitive_name_then_root_path() {
    let mut result = DiscoveryResult {
        projects: vec![
            candidate("beta", "/z/beta"),
            candidate("Alpha", "/y/Alpha"),
            candidate("alpha", "/x/alpha"),
            candidate("Gamma", "/a/Gamma"),
        ],
        warnings: vec![warning("partial", "/", "kept".to_owned())],
        cancelled: false,
        entries_inspected: 9,
    };

    sort_projects(&mut result);

    let order: Vec<&str> = result
        .projects
        .iter()
        .map(|project| project.root_path.as_str())
        .collect();
    assert_eq!(order, ["/x/alpha", "/y/Alpha", "/z/beta", "/a/Gamma"]);
    assert_eq!(result.warnings.len(), 1);
    assert_eq!(result.entries_inspected, 9);
}

#[test]
fn a_discovery_pass_records_each_entry_and_finishes_in_order() {
    let policy = ScanPolicy {
        max_entries: 4,
        ..ScanPolicy::default()
    };
    let mut discovery = Discovery::new(&policy, "/w");
    assert!(discovery.admit_next(false, false));
    discovery.record(
        WalkedEntry::Unreadable {
            message: "denied".to_owned(),
        },
    );
    assert!(discovery.admit_next(false, false));
    assert!(discovery.wants_project("/w/zeta"));
    discovery.record(
        WalkedEntry::Directory {
            path: "/w/zeta".to_owned(),
            git: Some(Ok(GitContext {
                branch: "main".to_owned(),
            })),
        },
    );
    assert!(!discovery.wants_project("/w/zeta"));
    assert!(discovery.admit_next(false, false));
    discovery.record(
        WalkedEntry::Directory {
            path: "/w/Alpha".to_owned(),
            git: Some(Err("HEAD unreadable".to_owned())),
        },
    );
    assert!(discovery.admit_next(false, false));
    discovery.record(
        WalkedEntry::Symlink {
            path: "/w/link".to_owned(),
            resolution: SymlinkResolution::Escapes {
                resolved: "/etc".to_owned(),
            },
        },
    );
    assert!(!discovery.admit_next(false, false));
    assert!(!discovery.needs_root_project());

    let result = discovery.finish(None);
    let names: Vec<&str> = result.projects.iter().map(|p| p.name.as_str()).collect();
    assert_eq!(names, ["Alpha", "zeta"]);
    assert_eq!(result.entries_inspected, 4);
    assert_eq!(
        result.warnings.iter().map(|w| w.code.as_str()).collect::<Vec<_>>(),
        ["path_unreadable", "git_unavailable", "symlink_escape", "entry_limit_reached"]
    );
}

#[test]
fn an_empty_pass_records_the_root_unless_cancelled() {
    let discovery = Discovery::new(&ScanPolicy::default(), "/w");
    assert!(discovery.needs_root_project());
    let result = discovery.finish(
        Some(Ok(GitContext {
            branch: "dev".to_owned(),
        })),
    );
    assert_eq!(result.projects.len(), 1);
    assert_eq!(result.projects[0].root_path, "/w");

    let mut cancelled = Discovery::new(&ScanPolicy::default(), "/w");
    assert!(!cancelled.admit_next(true, false));
    assert!(!cancelled.needs_root_project());
    let result = cancelled.finish(None);
    assert!(result.cancelled);
    assert!(result.projects.is_empty());
}

#[test]
fn directories_outside_the_root_are_no_projects_of_the_pass() {
    let mut discovery = Discovery::new(&ScanPolicy::default(), "C:\\work");
    assert!(discovery.admit_next(false, false));
    discovery.record(WalkedEntry::Directory {
        path: "/elsewhere/repo".to_owned(),
        git: Some(Ok(GitContext {
            branch: "main".to_owned(),
        })),
    });
    assert!(discovery.admit_next(false, false));
    discovery.record(WalkedEntry::Directory {
        path: "C:\\work\\repo".to_owned(),
        git: Some(Ok(GitContext {
            branch: "main".to_owned(),
        })),
    });
    let result = discovery.finish(None);
    assert_eq!(result.projects.len(), 1);
    assert_eq!(result.projects[0].root_path, "C:/work/repo");
}

#[test]
fn discovery_finds_git_working_trees_without_mutating_them() {
    let mut discovery = Discovery::new(&ScanPolicy::default(), "/tmp/fixture");
    assert!(discovery.admit_next(false, false));
    discovery.record(WalkedEntry::Other);
    assert!(discovery.admit_next(false, false));
    discovery.record(WalkedEntry::Directory {
        path: "/tmp/fixture/openspec".to_owned(),
        git: None,
    });
    assert!(discovery.needs_root_project());
    let result = discovery.finish(Some(git_context_from_head("ref: refs/heads/main\n")));

    assert_eq!(result.projects.len(), 1);
    assert_eq!(result.projects[0].root_path, "/tmp/fixture");
    assert!(!result.cancelled);
}

#[test]
fn discovery_honors_cancellation_and_preserves_repository() {
    let mut discovery = Discovery::new(&ScanPolicy::default(), "/tmp/fixture");
    assert!(!discovery.admit_next(true, false));
    assert!(!discovery.needs_root_project());
    let result = discovery.finish(None);

    assert!(result.cancelled);
    assert!(result.projects.is_empty());
    assert!(cancelled_before_walk().cancelled);
}

#[test]
fn malformed_git_metadata_does_not_hide_a_readable_project() {
    let discovery = Discovery::new(&ScanPolicy::default(), "/tmp/fixture");
    let result = discovery.finish(Some(Err(worktree_pointer_message())));

    assert_eq!(result.projects.len(), 1);
    assert!(result.projects[0].git.is_none());
    assert!(result
        .warnings
        .iter()
        .any(|warning| warning.code == "git_unavailable"));
}

#[test]
fn the_budget_stop_reason_ends_the_walk() {
    let mut going = Discovery::new(&ScanPolicy::default(), "/w");
    assert!(going.admit_after(None));

    let mut cancelled = Discovery::new(&ScanPolicy::default(), "/w");
    assert!(!cancelled.admit_after(Some(ScanStopReason::Cancelled)));
    let result = cancelled.finish(None);
    assert!(result.cancelled);
    assert!(result.warnings.is_empty());

    let mut late = Discovery::new(&ScanPolicy::default(), "/w");
    assert!(!late.admit_after(Some(ScanStopReason::TimedOut)));
    let result = late.finish(Some(Err("no HEAD".to_owned())));
    assert!(!result.cancelled);
    assert_eq!(
        result.warnings.iter().map(|w| w.code.as_str()).collect::<Vec<_>>(),
        ["scan_timeout", "git_unavailable"]
    );
}
