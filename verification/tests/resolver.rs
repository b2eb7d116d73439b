//! Name resolver behaviour: creation, resolution, deletion, renaming.

use index_controller::error::Error;
use index_controller::uuid_resolver::UuidResolverHandleImpl;

fn resolver() -> UuidResolverHandleImpl {
    UuidResolverHandleImpl::new("name_store".to_string()).unwrap()
}

#[test]
fn create_then_resolve_returns_same_id() {
    let mut r = resolver();
    let id = r.create("movies".to_string()).unwrap();
    assert_eq!(r.get(&"movies".to_string()).unwrap(), id);
}

#[test]
fn resolve_unknown_name_is_not_found() {
    let r = resolver();
    assert!(matches!(r.get(&"nope".to_string()), Err(Error::NotFound)));
}

#[test]
fn create_taken_name_already_exists() {
    let mut r = resolver();
    r.create("movies".to_string()).unwrap();
    assert!(matches!(r.create("movies".to_string()), Err(Error::AlreadyExists)));
}

#[test]
fn delete_frees_name_until_recreated() {
    let mut r = resolver();
    let id = r.create("movies".to_string()).unwrap();
    let freed = r.delete(&"movies".to_string()).unwrap();
    assert_eq!(freed, id);
    // After deletion the name resolves to nothing...
    assert!(matches!(r.get(&"movies".to_string()), Err(Error::NotFound)));
    // ...and only a subsequent creation binds it again.
    let id2 = r.create("movies".to_string()).unwrap();
    assert_eq!(r.get(&"movies".to_string()).unwrap(), id2);
}

#[test]
fn delete_unknown_name_is_not_found() {
    let mut r = resolver();
    assert!(matches!(r.delete(&"movies".to_string()), Err(Error::NotFound)));
}

#[test]
fn rename_moves_binding_atomically() {
    let mut r = resolver();
    let id = r.create("old".to_string()).unwrap();
    r.create("other".to_string()).unwrap();
    let moved = r.store.rename(&"old".to_string(), "new".to_string()).unwrap();
    assert_eq!(moved, id);
    assert!(matches!(r.get(&"old".to_string()), Err(Error::NotFound)));
    assert_eq!(r.get(&"new".to_string()).unwrap(), id);
    // An occupied target name is refused.
    assert!(matches!(
        r.store.rename(&"new".to_string(), "other".to_string()),
        Err(Error::AlreadyExists)
    ));
}

#[test]
fn list_and_snapshot_agree_on_ids() {
    let mut r = resolver();
    let a = r.create("a".to_string()).unwrap();
    let b = r.create("b".to_string()).unwrap();
    let listing = r.list();
    assert_eq!(listing.len(), 2);
    assert_eq!(listing[0].0, "a");
    assert_eq!(listing[0].1, a);
    assert_eq!(listing[1].0, "b");
    assert_eq!(listing[1].1, b);
    assert_eq!(r.snapshot(), vec![a, b]);
}

#[test]
fn freed_id_is_never_reused() {
    let mut r = resolver();
    let id = r.create("movies".to_string()).unwrap();
    r.delete(&"movies".to_string()).unwrap();
    // A re-creation of the name binds a genuinely fresh id...
    let id2 = r.create("movies".to_string()).unwrap();
    assert_ne!(id2, id);
    // ...and even an explicit insert of the retired id is refused.
    assert!(matches!(r.insert("other".to_string(), id), Err(Error::Internal { .. })));
    assert!(matches!(r.get(&"other".to_string()), Err(Error::NotFound)));
}

#[test]
fn insert_rejects_duplicate_id() {
    let mut r = resolver();
    r.insert("a".to_string(), 7).unwrap();
    assert!(matches!(r.insert("b".to_string(), 7), Err(Error::Internal { .. })));
    assert!(matches!(r.get(&"b".to_string()), Err(Error::NotFound)));
}
