use backstage_app_lib::discovery::{GitContext, ProjectCandidate, ScanWarning};
use backstage_app_lib::index::{
    openspec_record_key, IndexPersistence, IndexSession, IndexSnapshot, IndexedProject,
    CURRENT_INDEX_SCHEMA_VERSION,
};
use std::sync::Mutex;

fn index(generation: u64) -> IndexSnapshot {
    IndexSnapshot {
        schema_version: CURRENT_INDEX_SCHEMA_VERSION,
        root_id: "root_1".to_owned(),
        generation,
        indexed_at: "2026-08-13T12:00:00Z".to_owned(),
        configuration_revision: 0,
        projects: vec![IndexedProject {
            project: ProjectCandidate {
                id: "project_1".to_owned(),
                name: "Workbench".to_owned(),
                root_path: "/tmp/workbench".to_owned(),
                git: Some(GitContext {
                    branch: "main".to_owned(),
                }),
            },
            source_count: 2,
        }],
        warnings: vec![ScanWarning {
            code: "partial".to_owned(),
            path: "/tmp/workbench".to_owned(),
            message: "One path was unreadable".to_owned(),
        }],
    }
}

struct FailingPersistence;

impl IndexPersistence for FailingPersistence {
    fn save_index(&self, _snapshot: &IndexSnapshot) -> Result<(), String> {
        Err("disk full".to_owned())
    }

    fn load_index(&self, _root_id: &str) -> Result<Option<IndexSnapshot>, String> {
        Ok(None)
    }
}

#[derive(Default)]
struct MemoryPersistence {
    saved: Mutex<Vec<IndexSnapshot>>,
}

impl IndexPersistence for MemoryPersistence {
    fn save_index(&self, snapshot: &IndexSnapshot) -> Result<(), String> {
        self.saved.lock().expect("saved lock").push(snapshot.clone());
        Ok(())
    }

    fn load_index(&self, root_id: &str) -> Result<Option<IndexSnapshot>, String> {
        Ok(self
            .saved
            .lock()
            .expect("saved lock")
            .iter()
            .rev()
            .find(|snapshot| snapshot.root_id == root_id)
            .cloned())
    }
}

#[test]
fn cache_write_failure_keeps_the_new_in_memory_index_usable() {
    let mut session = IndexSession::default();
    let expected = index(7);

    session.publish(expected.clone(), &FailingPersistence);

    assert_eq!(session.current(), Some(&expected));
    assert_eq!(session.operational_warnings().len(), 1);
    assert!(session.operational_warnings()[0].contains("disk full"));
}

#[test]
fn cache_write_failure_warning_quotes_the_failure() {
    let mut session = IndexSession::default();

    session.publish(index(1), &FailingPersistence);

    assert_eq!(
        session.operational_warnings(),
        ["Index is usable in memory but could not be cached: disk full".to_owned()]
    );
}

#[test]
fn successful_publication_is_cached_without_warnings() {
    let mut session = IndexSession::default();
    let persistence = MemoryPersistence::default();
    assert_eq!(session.current(), None);

    session.publish(index(3), &persistence);
    session.publish(index(4), &persistence);

    assert_eq!(session.current(), Some(&index(4)));
    assert!(session.operational_warnings().is_empty());
    assert_eq!(persistence.load_index("root_1"), Ok(Some(index(4))));
}

#[test]
fn openspec_record_keys_name_the_change_directory() {
    assert_eq!(
        openspec_record_key("openspec/changes/search/tasks.md").as_deref(),
        Some("openspec/changes/search")
    );
    assert_eq!(
        openspec_record_key("openspec/changes/search/design/api.md").as_deref(),
        Some("openspec/changes/search")
    );
    assert_eq!(
        openspec_record_key("openspec/changes/archive/2026-01-01-search/proposal.md").as_deref(),
        Some("openspec/changes/archive/2026-01-01-search")
    );
    assert_eq!(openspec_record_key("openspec/changes/search"), None);
    assert_eq!(openspec_record_key("openspec/changes/archive/old"), None);
    assert_eq!(openspec_record_key("openspec/project.md"), None);
    assert_eq!(openspec_record_key("docs/openspec/changes/x/tasks.md"), None);
}

#[test]
fn save_results_add_a_warning_only_on_failure() {
    let mut session = IndexSession::default();
    session.record_save(Ok(()));
    assert!(session.operational_warnings().is_empty());
    session.record_save(Err("read-only".to_owned()));
    assert_eq!(
        session.operational_warnings(),
        ["Index is usable in memory but could not be cached: read-only".to_owned()]
    );
    assert_eq!(session.current(), None);
}
