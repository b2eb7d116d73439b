//! Snapshot service: anchoring, failure handling, restore round trips.

use index_controller::error::Error;
use index_controller::index_actor::IndexActorHandleImpl;
use index_controller::snapshot::LoadAction;
use index_controller::snapshot::SnapshotService;
use index_controller::snapshot::load_snapshot;
use index_controller::snapshot::restore_resolver;
use index_controller::update_actor::UpdateActorHandleImpl;
use index_controller::update_store::UpdateMeta;
use index_controller::uuid_resolver::UuidResolverHandleImpl;

fn service(names: &[&str], with_stores: bool) -> SnapshotService {
    let mut resolver = UuidResolverHandleImpl::new("name_store".to_string()).unwrap();
    let worker = IndexActorHandleImpl::new("indexes".to_string(), 4096).unwrap();
    let mut update_handle = UpdateActorHandleImpl::new(worker, "updates".to_string(), 4096).unwrap();
    for name in names {
        let id = resolver.create(name.to_string()).unwrap();
        if with_stores {
            update_handle.create(id).unwrap();
        }
    }
    SnapshotService::new(resolver, update_handle, 100, ".".to_string(), "data.ms".to_string())
}

#[test]
fn test_normal() {
    // Several ids live, each with a store to dump: the snapshot commits.
    let mut s = service(&["a", "b", "c", "d", "e"], true);
    s.perform_snapshot().unwrap();
    let archive = s.committed.as_ref().unwrap();
    assert_eq!(archive.entries.len(), 5);
    assert_eq!(archive.dumps.len(), 5);
    for (i, (name, id)) in archive.entries.iter().enumerate() {
        assert_eq!(name, &["a", "b", "c", "d", "e"][i].to_string());
        assert_eq!(archive.dumps[i].0, *id);
    }
}

#[test]
fn empty_id_set_commits_nothing() {
    let mut s = service(&[], true);
    s.perform_snapshot().unwrap();
    assert!(s.committed.is_none());
}

#[test]
fn error_performing_index_snapshot() {
    // Five ids are live but one per-index dump fails: nothing named
    // `data.ms.snapshot` is written, and the service keeps serving.
    let mut s = service(&["a", "b", "c", "d", "e"], true);
    let extra = s.uuid_resolver_handle.create("f".to_string()).unwrap();
    let _ = extra;
    assert!(s.perform_snapshot().is_err());
    assert!(s.committed.is_none());
    // The next period retries and succeeds once every id has a store.
    s.update_handle.create(extra).unwrap();
    s.perform_snapshot().unwrap();
    assert!(s.committed.is_some());
}

#[test]
fn test_loop() {
    // The loop swallows snapshot failures: a failing run leaves the
    // service alive and the committed snapshot untouched.
    let mut s = service(&["a"], false);
    s.run();
    s.run();
    assert!(s.committed.is_none());
    s.update_handle.create(s.uuid_resolver_handle.get(&"a".to_string()).unwrap()).unwrap();
    s.run();
    assert!(s.committed.is_some());
}

#[test]
fn snapshot_reflects_queues_at_anchor_time() {
    let mut s = service(&["a"], true);
    let id = s.uuid_resolver_handle.get(&"a".to_string()).unwrap();
    s.update_handle.update(UpdateMeta::ClearDocuments, id, 1).unwrap();
    s.perform_snapshot().unwrap();
    let archive = s.committed.as_ref().unwrap();
    assert_eq!(archive.dumps.len(), 1);
    assert_eq!(archive.dumps[0].0, id);
    assert_eq!(archive.dumps[0].1.len(), 1);
}

#[test]
fn restore_then_snapshot_preserves_resolver_contents() {
    let mut s = service(&["a", "b"], true);
    s.perform_snapshot().unwrap();
    let archive = s.committed.take().unwrap();
    // Extracted into an empty database, the archive yields a resolver
    // whose listing equals the ids reported at snapshot time.
    let restored = restore_resolver(&archive, "name_store".to_string()).unwrap();
    let listing = restored.list();
    assert_eq!(listing.len(), archive.entries.len());
    for (i, (name, id)) in listing.iter().enumerate() {
        assert_eq!(name, &archive.entries[i].0);
        assert_eq!(*id, archive.entries[i].1);
    }
    // Snapshot -> restore -> snapshot: same resolver contents again.
    let worker = IndexActorHandleImpl::new("indexes".to_string(), 4096).unwrap();
    let mut update_handle = UpdateActorHandleImpl::new(worker, "updates".to_string(), 4096).unwrap();
    for (_, id) in restored.list() {
        update_handle.create(id).unwrap();
    }
    let mut s2 = SnapshotService::new(
        restored,
        update_handle,
        100,
        ".".to_string(),
        "data.ms".to_string(),
    );
    s2.perform_snapshot().unwrap();
    let archive2 = s2.committed.as_ref().unwrap();
    assert_eq!(archive2.entries, archive.entries);
}

#[test]
fn load_snapshot_decision_table() {
    // Missing database, snapshot present: extract.
    assert_eq!(load_snapshot(false, true, false, false).unwrap(), LoadAction::Extract);
    assert_eq!(load_snapshot(false, true, true, true).unwrap(), LoadAction::Extract);
    // Database present and not ignored: refuse.
    assert!(matches!(load_snapshot(true, true, false, false), Err(Error::AlreadyExists)));
    // Snapshot missing and not ignored: refuse.
    assert!(matches!(load_snapshot(false, false, false, false), Err(Error::NotFound)));
    // Everything else is a no-op.
    assert_eq!(load_snapshot(true, true, true, false).unwrap(), LoadAction::Nothing);
    assert_eq!(load_snapshot(false, false, false, true).unwrap(), LoadAction::Nothing);
}
