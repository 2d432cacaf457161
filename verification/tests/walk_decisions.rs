use backstage_app_lib::filesystem::{DirectoryWalk, EntryKind, PendingDirectory, WalkRecord};
use backstage_app_lib::pi::{poll_action, PollAction};

fn walk(max_depth: usize, max_entries: usize) -> DirectoryWalk {
    DirectoryWalk::new(
        "/root",
        String::new(),
        max_depth,
        max_entries,
        vec![".git".to_owned(), "node_modules".to_owned()],
    )
}

#[test]
fn the_walk_records_entries_and_descends_into_allowed_directories() {
    let mut walk = walk(8, 10);
    let top = walk.next_directory(false).expect("start directory");
    assert_eq!(
        top,
        PendingDirectory {
            relative: String::new(),
            depth: 0,
            handle: 0
        }
    );
    assert!(walk.may_record(false));
    assert_eq!(walk.record_entry("README.md", EntryKind::File), None);
    assert_eq!(walk.record_entry(".git", EntryKind::Directory), None);
    assert_eq!(walk.record_entry("src", EntryKind::Directory), Some(3));
    walk.admit_child();
    walk.admit_child();
    let src = walk.next_directory(false).expect("src is next");
    assert_eq!(
        src,
        PendingDirectory {
            relative: "src".to_owned(),
            depth: 1,
            handle: 3
        }
    );
    walk.record_unreadable(Some("locked"), "permission denied".to_owned());
    assert_eq!(walk.record_entry("lib.rs", EntryKind::File), None);
    walk.record_unreadable(None, "listing stopped".to_owned());
    assert_eq!(walk.next_directory(false), None);

    assert_eq!(
        walk.finish(),
        [
            WalkRecord::Entry {
                path: "/root/README.md".to_owned(),
                kind: EntryKind::File
            },
            WalkRecord::Entry {
                path: "/root/.git".to_owned(),
                kind: EntryKind::Directory
            },
            WalkRecord::Entry {
                path: "/root/src".to_owned(),
                kind: EntryKind::Directory
            },
            WalkRecord::Unreadable {
                path: "/root/src/locked".to_owned(),
                message: "permission denied".to_owned()
            },
            WalkRecord::Entry {
                path: "/root/src/lib.rs".to_owned(),
                kind: EntryKind::File
            },
            WalkRecord::Unreadable {
                path: "/root/src".to_owned(),
                message: "listing stopped".to_owned()
            },
        ]
    );
}

#[test]
fn a_walk_from_a_subdirectory_stays_below_it() {
    let mut walk = DirectoryWalk::new("/root", "docs".to_owned(), 1, 10, vec![]);
    walk.next_directory(false).expect("docs");
    assert_eq!(walk.record_entry("guide", EntryKind::Directory), Some(1));
    walk.admit_child();
    let guide = walk.next_directory(false).expect("guide");
    assert_eq!(guide.relative, "docs/guide");
    assert_eq!(guide.depth, 1);
    assert_eq!(walk.record_entry("deeper", EntryKind::Directory), None);
    walk.admit_child();
    assert_eq!(walk.next_directory(false), None);
    assert_eq!(
        walk.finish(),
        [
            WalkRecord::Entry {
                path: "/root/docs/guide".to_owned(),
                kind: EntryKind::Directory
            },
            WalkRecord::Entry {
                path: "/root/docs/guide/deeper".to_owned(),
                kind: EntryKind::Directory
            },
        ]
    );
}

#[test]
fn the_walk_stops_at_its_entry_limit_and_depth_limit() {
    let mut walk = walk(0, 2);
    assert_eq!(walk.record_entry("before", EntryKind::File), None);
    walk.next_directory(false).expect("start directory");
    assert_eq!(walk.record_entry("deep", EntryKind::Directory), None);
    walk.admit_child();
    assert_eq!(walk.record_entry("b", EntryKind::File), None);
    assert!(!walk.may_record(false));
    assert_eq!(walk.record_entry("c", EntryKind::File), None);
    walk.record_unreadable(None, "ignored".to_owned());
    assert_eq!(walk.next_directory(false), None);
    assert_eq!(walk.finish().len(), 2);
}

#[test]
fn a_cancelled_walk_hands_out_no_directory() {
    let mut walk = walk(8, 10);
    assert!(!walk.may_record(true));
    assert_eq!(walk.next_directory(true), None);
    assert!(walk.next_directory(false).is_some());
}

#[test]
fn polling_collects_exited_processes_and_stops_cancelled_or_late_ones() {
    assert_eq!(poll_action(true, true, true), PollAction::Collect);
    assert_eq!(
        poll_action(false, true, true),
        PollAction::Stop("Pi invocation cancelled".to_owned())
    );
    assert_eq!(
        poll_action(false, false, true),
        PollAction::Stop("Pi invocation timed out".to_owned())
    );
    assert_eq!(poll_action(false, false, false), PollAction::Wait);
}
