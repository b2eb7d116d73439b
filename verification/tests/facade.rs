//! The name-keyed façade and the bounded mailbox.

use index_controller::data::Data;
use index_controller::error::Error;
use index_controller::index_actor::Document;
use index_controller::index_actor::IndexActorHandleImpl;
use index_controller::mailbox::Mailbox;
use index_controller::update_actor::UpdateActorHandleImpl;
use index_controller::update_store::IndexDocumentsMethod;
use index_controller::update_store::Settings;
use index_controller::update_store::UpdateFormat;
use index_controller::update_store::UpdateMeta;
use index_controller::update_store::UpdateStatus;
use index_controller::update_store::UpdateStore;

fn data() -> Data {
    let resolver = index_controller::uuid_resolver::UuidResolverHandleImpl::new(
        "name_store".to_string(),
    )
    .unwrap();
    let worker = IndexActorHandleImpl::new("indexes".to_string(), 4096).unwrap();
    let update_handle = UpdateActorHandleImpl::new(worker, "updates".to_string(), 4096).unwrap();
    Data::new(resolver, update_handle)
}

fn empty_settings() -> Settings {
    Settings {
        displayed_attributes: None,
        searchable_attributes: None,
        ranking_rules: None,
        stop_words: None,
        distinct_attribute: None,
        primary_key: None,
    }
}

fn doc(fields: &[(&str, &str)]) -> Document {
    Document {
        fields: fields.iter().map(|(n, v)| (n.to_string(), v.to_string())).collect(),
    }
}

#[test]
fn operations_on_unknown_names_are_not_found() {
    let mut d = data();
    assert!(matches!(
        d.add_documents("none".to_string(), IndexDocumentsMethod::ReplaceDocuments,
            UpdateFormat::Json, None),
        Err(Error::NotFound)
    ));
    assert!(matches!(d.clear_documents("none".to_string()), Err(Error::NotFound)));
    assert!(matches!(d.delete_index("none".to_string()), Err(Error::NotFound)));
    assert!(matches!(d.get_update_status("none".to_string(), 0), Err(Error::NotFound)));
    assert!(matches!(d.get_updates_status("none".to_string()), Err(Error::NotFound)));
    assert!(matches!(
        d.update_settings("none".to_string(), empty_settings(), false),
        Err(Error::NotFound)
    ));
}

#[test]
fn settings_update_with_create_materializes_index() {
    let mut d = data();
    let st = d.update_settings("test".to_string(), empty_settings(), true).unwrap();
    assert!(matches!(st, UpdateStatus::Enqueued { .. }));
    // The name resolves from now on and the worker has the index: as in
    // a fresh service, it holds no documents and is not indexing.
    let id = d.uuid_resolver.get(&"test".to_string()).unwrap();
    let meta = d.update_handle.index_handle.get_index_meta(id).unwrap();
    assert_eq!(meta.number_of_documents, 0);
}

#[test]
fn submitted_documents_reach_the_index() {
    let mut d = data();
    d.update_settings("test".to_string(), empty_settings(), true).unwrap();
    let id = d.uuid_resolver.get(&"test".to_string()).unwrap();
    // The settings job is first in the queue; apply it.
    let no_docs: Result<Vec<Document>, String> = Ok(vec![]);
    d.update_handle.process_next(id, &no_docs, 1, 2).unwrap().unwrap();
    let st = d
        .add_documents(
            "test".to_string(),
            IndexDocumentsMethod::ReplaceDocuments,
            UpdateFormat::Json,
            None,
        )
        .unwrap();
    // While the job is pending the status reads back as enqueued.
    let uid = match &st {
        UpdateStatus::Enqueued { from } => from.update_id,
        _ => panic!("expected an enqueued status"),
    };
    assert!(matches!(
        d.get_update_status("test".to_string(), uid).unwrap(),
        UpdateStatus::Enqueued { .. }
    ));
    let decoded = Ok(vec![
        doc(&[("id", "1"), ("name", "Alexey")]),
        doc(&[("id", "2"), ("age", "45")]),
    ]);
    let done = d.update_handle.process_next(id, &decoded, 3, 4).unwrap().unwrap();
    assert!(matches!(done, UpdateStatus::Processed { .. }));
    // After completion the index holds both documents.
    let meta = d.update_handle.index_handle.get_index_meta(id).unwrap();
    assert_eq!(meta.number_of_documents, 2);
    assert!(matches!(
        d.get_update_status("test".to_string(), uid).unwrap(),
        UpdateStatus::Processed { .. }
    ));
    let all = d.get_updates_status("test".to_string()).unwrap();
    assert_eq!(all.len(), 2);
}

#[test]
fn delete_index_frees_name_and_tears_down_state() {
    let mut d = data();
    d.update_settings("test".to_string(), empty_settings(), true).unwrap();
    let id = d.uuid_resolver.get(&"test".to_string()).unwrap();
    d.delete_index("test".to_string()).unwrap();
    assert!(matches!(d.uuid_resolver.get(&"test".to_string()), Err(Error::NotFound)));
    assert!(matches!(d.update_handle.update_status(id, 0), Err(Error::NotFound)));
    assert!(matches!(d.update_handle.index_handle.get_index_meta(id), Err(Error::NotFound)));
    // The name can be bound again afterwards.
    d.update_settings("test".to_string(), empty_settings(), true).unwrap();
    assert!(d.uuid_resolver.get(&"test".to_string()).is_ok());
}

#[test]
fn update_index_renames_and_sets_primary_key() {
    let mut d = data();
    d.update_settings("old".to_string(), empty_settings(), true).unwrap();
    let id = d.uuid_resolver.get(&"old".to_string()).unwrap();
    let meta = d
        .update_index("old".to_string(), Some("id".to_string()), Some("new".to_string()))
        .unwrap();
    assert_eq!(meta.primary_key, Some("id".to_string()));
    assert!(matches!(d.uuid_resolver.get(&"old".to_string()), Err(Error::NotFound)));
    assert_eq!(d.uuid_resolver.get(&"new".to_string()).unwrap(), id);
    // A conflicting primary key is refused.
    assert!(matches!(
        d.update_index("new".to_string(), Some("other".to_string()), None),
        Err(Error::PrimaryKeyMismatch)
    ));
}

fn distribution_count(stats: &index_controller::data::IndexStats, name: &str) -> Option<u64> {
    stats
        .fields_distribution
        .iter()
        .find(|(n, _)| n == name)
        .map(|(_, c)| *c)
}

#[test]
fn fresh_index_stats_are_empty_and_idle() {
    let mut d = data();
    d.update_settings("test".to_string(), empty_settings(), true).unwrap();
    let id = d.uuid_resolver.get(&"test".to_string()).unwrap();
    let no_docs: Result<Vec<Document>, String> = Ok(vec![]);
    while d.update_handle.process_next(id, &no_docs, 0, 0).unwrap().is_some() {}
    let stats = d.index_stats("test".to_string()).unwrap();
    assert_eq!(stats.number_of_documents, 0);
    assert!(!stats.is_indexing);
    assert!(stats.fields_distribution.is_empty());
}

#[test]
fn stats_reflect_submission_and_completion() {
    let mut d = data();
    d.update_settings("test".to_string(), empty_settings(), true).unwrap();
    let id = d.uuid_resolver.get(&"test".to_string()).unwrap();
    let no_docs: Result<Vec<Document>, String> = Ok(vec![]);
    while d.update_handle.process_next(id, &no_docs, 0, 0).unwrap().is_some() {}
    d.add_documents(
        "test".to_string(),
        IndexDocumentsMethod::ReplaceDocuments,
        UpdateFormat::Json,
        None,
    )
    .unwrap();
    // Immediately after submission the index is indexing.
    let stats = d.index_stats("test".to_string()).unwrap();
    assert!(stats.is_indexing);
    // After completion both documents are in, with their field counts.
    let decoded = Ok(vec![
        doc(&[("id", "1"), ("name", "Alexey")]),
        doc(&[("id", "2"), ("age", "45")]),
    ]);
    while d.update_handle.process_next(id, &decoded, 1, 2).unwrap().is_some() {}
    let stats = d.index_stats("test".to_string()).unwrap();
    assert_eq!(stats.number_of_documents, 2);
    assert!(!stats.is_indexing);
    assert_eq!(distribution_count(&stats, "id"), Some(2));
    assert_eq!(distribution_count(&stats, "name"), Some(1));
    assert_eq!(distribution_count(&stats, "age"), Some(1));
    assert_eq!(distribution_count(&stats, "other"), None);
}

#[test]
fn engine_failures_settle_jobs_as_failed() {
    let mut s = UpdateStore::new();
    s.register_update(UpdateMeta::ClearDocuments, 1).unwrap();
    s.next_job(2).unwrap();
    let done = s
        .finish(Err(Error::EngineError { cause: "index store full".to_string() }), 3)
        .unwrap();
    match done {
        UpdateStatus::Failed { error, .. } => {
            assert!(matches!(error, Error::EngineError { .. }));
        },
        _ => panic!("expected a failed job"),
    }
    // Finalizing with no job in flight is an internal fault.
    assert!(matches!(
        s.finish(Err(Error::IoError { cause: "disk gone".to_string() }), 4),
        Err(Error::Internal { .. })
    ));
}

#[test]
fn mailbox_saturation_blocks_but_never_drops() {
    let mut m: Mailbox<u32> = Mailbox::with_capacity(2);
    assert!(m.try_send(1).is_ok());
    assert!(m.try_send(2).is_ok());
    // Full: the producer is refused and keeps its message.
    assert_eq!(m.try_send(3), Err(3));
    assert_eq!(m.len(), 2);
    // Messages come out in order, none dropped.
    assert_eq!(m.try_recv(), Some(1));
    assert!(m.try_send(3).is_ok());
    assert_eq!(m.try_recv(), Some(2));
    assert_eq!(m.try_recv(), Some(3));
    assert_eq!(m.try_recv(), None);
}
