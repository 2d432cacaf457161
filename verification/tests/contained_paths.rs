use backstage_app_lib::filesystem::{
    check_read_size, contained_relative, contained_relative_allow_root, map_capability_error,
    should_descend, validate_metadata, walk_may_continue, ReadError,
};

fn outside(path: &str) -> ReadError {
    ReadError::OutsideApprovedRoot {
        path: path.to_owned(),
        resolved: path.to_owned(),
    }
}

#[test]
fn contained_reader_rejects_relative_and_traversal_paths() {
    let root = "/tmp/fixture";
    assert_eq!(
        contained_relative("openspec/changes/ship-search/tasks.md", root, root),
        Err(ReadError::PathMustBeAbsolute)
    );
    assert_eq!(
        contained_relative("/tmp/fixture/../outside.md", root, root),
        Err(outside("/tmp/fixture/../outside.md"))
    );
}

#[test]
fn contained_paths_are_relative_to_either_root() {
    let canonical = "/private/tmp/fixture";
    let approved = "/tmp/fixture";
    assert_eq!(
        contained_relative("/private/tmp/fixture/openspec/tasks.md", canonical, approved),
        Ok("openspec/tasks.md".to_owned())
    );
    assert_eq!(
        contained_relative("/tmp/fixture//openspec/./tasks.md", canonical, approved),
        Ok("openspec/tasks.md".to_owned())
    );
    assert_eq!(
        contained_relative("/tmp/fixture-other/a.md", canonical, approved),
        Err(outside("/tmp/fixture-other/a.md"))
    );
    assert_eq!(
        contained_relative("/tmp/fixture", canonical, approved),
        Err(outside("/tmp/fixture"))
    );
    assert_eq!(
        contained_relative_allow_root("/tmp/fixture/", canonical, approved),
        Ok(String::new())
    );
    assert_eq!(
        contained_relative_allow_root("/etc/passwd", canonical, approved),
        Err(outside("/etc/passwd"))
    );
}

#[test]
fn files_must_be_regular_and_within_the_byte_limit() {
    assert_eq!(validate_metadata("/r/a.md", true, 8, 8), Ok(()));
    assert_eq!(
        validate_metadata("/r/dir", false, 0, 8),
        Err(ReadError::NotAFile {
            path: "/r/dir".to_owned()
        })
    );
    assert_eq!(
        validate_metadata("/r/a.md", true, 9, 8),
        Err(ReadError::FileTooLarge {
            path: "/r/a.md".to_owned(),
            actual: 9,
            limit: 8
        })
    );
    assert_eq!(check_read_size("/r/a.md", 8, 8), Ok(()));
    assert_eq!(
        check_read_size("/r/a.md", 9, 8),
        Err(ReadError::FileTooLarge {
            path: "/r/a.md".to_owned(),
            actual: 9,
            limit: 8
        })
    );
}

#[test]
fn capability_denials_are_escapes() {
    assert_eq!(
        map_capability_error("/r/link", true, "denied".to_owned()),
        outside("/r/link")
    );
    assert_eq!(
        map_capability_error("/r/gone", false, "not found".to_owned()),
        ReadError::Unavailable {
            path: "/r/gone".to_owned(),
            message: "not found".to_owned()
        }
    );
}

#[test]
fn walk_bounds_and_exclusions() {
    let exclusions = vec![".git".to_owned(), "node_modules".to_owned()];
    assert!(should_descend(true, 0, 8, "src", &exclusions));
    assert!(!should_descend(true, 8, 8, "src", &exclusions));
    assert!(!should_descend(true, 0, 8, "node_modules", &exclusions));
    assert!(!should_descend(false, 0, 8, "src", &exclusions));
    assert!(walk_may_continue(false, 2, 3));
    assert!(!walk_may_continue(false, 3, 3));
    assert!(!walk_may_continue(true, 0, 3));
}

#[test]
fn read_errors_describe_themselves() {
    assert_eq!(ReadError::PathMustBeAbsolute.describe(), "path must be absolute");
    assert_eq!(
        outside("/r/x").describe(),
        "path /r/x resolves outside the approved root to /r/x"
    );
    assert_eq!(
        ReadError::FileTooLarge {
            path: "/r/a".to_owned(),
            actual: 12,
            limit: 8
        }
        .describe(),
        "file /r/a is 12 bytes, above the 8 byte limit"
    );
    assert_eq!(
        ReadError::Unavailable {
            path: "/r/a".to_owned(),
            message: "gone".to_owned()
        }
        .describe(),
        "path is unavailable: /r/a: gone"
    );
}
