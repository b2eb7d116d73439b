//! The update pipeline: submission, processing, recovery and blobs.

use index_controller::error::Error;
use index_controller::index_actor::Document;
use index_controller::index_actor::IndexActorHandleImpl;
use index_controller::update_actor::UpdateActorHandleImpl;
use index_controller::update_store::IndexDocumentsMethod;
use index_controller::update_store::UpdateFormat;
use index_controller::update_store::UpdateMeta;
use index_controller::update_store::UpdateResult;
use index_controller::update_store::UpdateStatus;
use index_controller::update_store::UpdateStore;

fn actor() -> UpdateActorHandleImpl {
    let worker = IndexActorHandleImpl::new("indexes".to_string(), 4096).unwrap();
    UpdateActorHandleImpl::new(worker, "updates".to_string(), 4096).unwrap()
}

fn doc(fields: &[(&str, &str)]) -> Document {
    Document {
        fields: fields.iter().map(|(n, v)| (n.to_string(), v.to_string())).collect(),
    }
}

fn add_documents_meta(primary_key: Option<&str>) -> UpdateMeta {
    UpdateMeta::AddDocuments {
        method: IndexDocumentsMethod::ReplaceDocuments,
        format: UpdateFormat::Json,
        primary_key: primary_key.map(|s| s.to_string()),
    }
}

fn update_id_of(st: &UpdateStatus) -> u64 {
    match st {
        UpdateStatus::Enqueued { from } => from.update_id,
        UpdateStatus::Processing { from } => from.from.update_id,
        UpdateStatus::Processed { from, .. } => from.from.update_id,
        UpdateStatus::Failed { from, .. } => from.from.update_id,
    }
}

#[test]
fn update_ids_increase_without_gaps() {
    let mut a = actor();
    let first = a.update(UpdateMeta::ClearDocuments, 1, 10).unwrap();
    let second = a.update(UpdateMeta::ClearDocuments, 1, 11).unwrap();
    let third = a.update(UpdateMeta::ClearDocuments, 1, 12).unwrap();
    assert_eq!(update_id_of(&first), 0);
    assert_eq!(update_id_of(&second), 1);
    assert_eq!(update_id_of(&third), 2);
}

#[test]
fn submitted_update_is_observable_at_once() {
    let mut a = actor();
    let st = a.update(add_documents_meta(Some("id")), 9, 5).unwrap();
    assert!(matches!(st, UpdateStatus::Enqueued { .. }));
    let seen = a.update_status(9, update_id_of(&st)).unwrap();
    assert!(matches!(seen, UpdateStatus::Enqueued { .. }));
    assert!(matches!(a.update_status(9, 1), Err(Error::NotFound)));
}

#[test]
fn list_is_newest_first() {
    let mut a = actor();
    a.update(UpdateMeta::ClearDocuments, 1, 10).unwrap();
    a.update(UpdateMeta::ClearDocuments, 1, 11).unwrap();
    let all = a.get_all_updates_status(1).unwrap();
    assert_eq!(all.len(), 2);
    assert_eq!(update_id_of(&all[0]), 1);
    assert_eq!(update_id_of(&all[1]), 0);
}

#[test]
fn aborted_upload_leaves_no_artifacts() {
    let mut a = actor();
    let _blob = a.begin_upload(3).unwrap();
    a.abort_upload(3).unwrap();
    // No job was enqueued for the index and the blob is gone.
    let all = a.get_all_updates_status(3).unwrap();
    assert_eq!(all.len(), 0);
    // A fresh submission starts at update id 0 with no payload attached.
    let st = a.update(UpdateMeta::ClearDocuments, 3, 1).unwrap();
    match &st {
        UpdateStatus::Enqueued { from } => {
            assert_eq!(from.update_id, 0);
            assert!(from.payload.is_none());
        },
        _ => panic!("expected an enqueued status"),
    }
}

#[test]
fn payload_blob_is_tied_to_job_then_deleted() {
    let mut a = actor();
    a.create_index(5, None, 0).unwrap();
    let blob = a.begin_upload(5).unwrap();
    let st = a.update(add_documents_meta(Some("id")), 5, 1).unwrap();
    match &st {
        UpdateStatus::Enqueued { from } => assert_eq!(from.payload, Some(blob)),
        _ => panic!("expected an enqueued status"),
    }
    // Applying the job finalizes it and deletes its blob.
    let decoded = Ok(vec![doc(&[("id", "1")])]);
    let done = a.process_next(5, &decoded, 2, 3).unwrap().unwrap();
    assert!(matches!(done, UpdateStatus::Processed { .. }));
    // The terminal record still names the blob it had.
    match &done {
        UpdateStatus::Processed { from, .. } => assert_eq!(from.from.payload, Some(blob)),
        _ => unreachable!(),
    }
}

#[test]
fn jobs_apply_in_submission_order() {
    let mut a = actor();
    a.create_index(2, None, 0).unwrap();
    let first = a.update(add_documents_meta(Some("id")), 2, 1).unwrap();
    let second = a.update(add_documents_meta(Some("id")), 2, 2).unwrap();
    assert!(update_id_of(&first) < update_id_of(&second));
    let decoded_a = Ok(vec![doc(&[("id", "1"), ("title", "first")])]);
    let decoded_b = Ok(vec![doc(&[("id", "2"), ("title", "second")])]);
    let done_a = a.process_next(2, &decoded_a, 3, 4).unwrap().unwrap();
    let done_b = a.process_next(2, &decoded_b, 5, 6).unwrap().unwrap();
    // Observed application order is first then second.
    assert_eq!(update_id_of(&done_a), update_id_of(&first));
    assert_eq!(update_id_of(&done_b), update_id_of(&second));
    assert!(a.process_next(2, &decoded_b, 7, 8).unwrap().is_none());
}

#[test]
fn submitting_to_deleted_id_fails_index_unavailable() {
    let mut a = actor();
    // The id was never materialized in the worker (or was torn down):
    // the job still enqueues, and terminates Failed { IndexUnavailable }.
    a.update(add_documents_meta(Some("id")), 11, 1).unwrap();
    let decoded = Ok(vec![doc(&[("id", "1")])]);
    let done = a.process_next(11, &decoded, 2, 3).unwrap().unwrap();
    match done {
        UpdateStatus::Failed { error, .. } => {
            assert!(matches!(error, Error::IndexUnavailable));
        },
        other => panic!("expected a failed job, got {:?}", other_name(&other)),
    }
}

#[test]
fn mis_declared_payload_fails_without_partial_documents() {
    let mut a = actor();
    a.create_index(6, None, 0).unwrap();
    a.update(add_documents_meta(Some("id")), 6, 1).unwrap();
    // A CSV payload declared as JSON does not decode.
    let decoded = Err("csv content is not a json array".to_string());
    let done = a.process_next(6, &decoded, 2, 3).unwrap().unwrap();
    match done {
        UpdateStatus::Failed { error, .. } => {
            assert!(matches!(error, Error::MalformedPayload { .. }));
        },
        other => panic!("expected a failed job, got {:?}", other_name(&other)),
    }
    // No partial documents landed in the index.
    let meta = a.index_handle.get_index_meta(6).unwrap();
    assert_eq!(meta.number_of_documents, 0);
}

#[test]
fn crash_recovery_reexecutes_processing_job() {
    let mut s = UpdateStore::new();
    s.register_update(UpdateMeta::ClearDocuments, 1).unwrap();
    // The loop takes the job; the process dies before finalizing it.
    let taken = s.next_job(2).unwrap();
    assert_eq!(taken.from.update_id, 0);
    // On restart the same job is handed out again, unchanged.
    let again = s.next_job(9).unwrap();
    assert_eq!(again.from.update_id, 0);
    assert_eq!(again.started_at, taken.started_at);
    // It ends Processed exactly once observable at the engine level.
    let done = s.finish(Ok(UpdateResult::Other), 10).unwrap();
    assert!(matches!(done, UpdateStatus::Processed { .. }));
    assert!(s.next_job(11).is_none());
}

#[test]
fn completed_queue_has_nothing_left_to_do() {
    let mut a = actor();
    a.create_index(8, None, 0).unwrap();
    a.update(add_documents_meta(Some("id")), 8, 1).unwrap();
    let decoded = Ok(vec![doc(&[("id", "1")])]);
    let done = a.process_next(8, &decoded, 2, 3).unwrap().unwrap();
    assert!(matches!(done, UpdateStatus::Processed { .. }));
    assert!(a.process_next(8, &decoded, 4, 5).unwrap().is_none());
    let meta = a.index_handle.get_index_meta(8).unwrap();
    assert_eq!(meta.number_of_documents, 1);
}

#[test]
fn two_documents_land_with_inferred_primary_key() {
    let mut a = actor();
    a.create_index(4, None, 0).unwrap();
    a.update(add_documents_meta(None), 4, 1).unwrap();
    let decoded = Ok(vec![
        doc(&[("id", "1"), ("name", "Alexey")]),
        doc(&[("id", "2"), ("age", "45")]),
    ]);
    let done = a.process_next(4, &decoded, 2, 3).unwrap().unwrap();
    match done {
        UpdateStatus::Processed { result, .. } => {
            assert_eq!(result, UpdateResult::DocumentsAddition { nb_documents: 2 });
        },
        other => panic!("expected a processed job, got {:?}", other_name(&other)),
    }
    let meta = a.index_handle.get_index_meta(4).unwrap();
    assert_eq!(meta.number_of_documents, 2);
    assert_eq!(meta.primary_key, Some("id".to_string()));
}

#[test]
fn missing_primary_key_cannot_be_inferred() {
    let mut a = actor();
    a.create_index(7, None, 0).unwrap();
    a.update(add_documents_meta(None), 7, 1).unwrap();
    let decoded = Ok(vec![doc(&[("title", "no key here")])]);
    let done = a.process_next(7, &decoded, 2, 3).unwrap().unwrap();
    match done {
        UpdateStatus::Failed { error, .. } => {
            assert!(matches!(error, Error::MissingPrimaryKey));
        },
        other => panic!("expected a failed job, got {:?}", other_name(&other)),
    }
}

#[test]
fn conflicting_declared_primary_key_is_a_mismatch() {
    let mut a = actor();
    a.create_index(12, Some("id".to_string()), 0).unwrap();
    a.update(add_documents_meta(Some("other_id")), 12, 1).unwrap();
    let decoded = Ok(vec![doc(&[("id", "1"), ("other_id", "9")])]);
    let done = a.process_next(12, &decoded, 2, 3).unwrap().unwrap();
    match done {
        UpdateStatus::Failed { error, .. } => {
            assert!(matches!(error, Error::PrimaryKeyMismatch));
        },
        other => panic!("expected a failed job, got {:?}", other_name(&other)),
    }
}

#[test]
fn update_merges_fields_and_replace_overwrites() {
    let mut a = actor();
    a.create_index(13, Some("id".to_string()), 0).unwrap();
    a.update(add_documents_meta(Some("id")), 13, 1).unwrap();
    let decoded = Ok(vec![doc(&[("id", "1"), ("name", "old"), ("kept", "yes")])]);
    a.process_next(13, &decoded, 2, 3).unwrap().unwrap();
    let merge = UpdateMeta::AddDocuments {
        method: IndexDocumentsMethod::UpdateDocuments,
        format: UpdateFormat::Json,
        primary_key: Some("id".to_string()),
    };
    a.update(merge, 13, 4).unwrap();
    let decoded2 = Ok(vec![doc(&[("id", "1"), ("name", "new")])]);
    a.process_next(13, &decoded2, 5, 6).unwrap().unwrap();
    // Still one document: the incoming one merged into the stored one.
    let meta = a.index_handle.get_index_meta(13).unwrap();
    assert_eq!(meta.number_of_documents, 1);
}

#[test]
fn delete_documents_reports_deleted_count() {
    let mut a = actor();
    a.create_index(14, Some("id".to_string()), 0).unwrap();
    a.update(add_documents_meta(Some("id")), 14, 1).unwrap();
    let decoded = Ok(vec![doc(&[("id", "1")]), doc(&[("id", "2")])]);
    a.process_next(14, &decoded, 2, 3).unwrap().unwrap();
    let del = UpdateMeta::DeleteDocuments { ids: vec!["1".to_string(), "7".to_string()] };
    a.update(del, 14, 4).unwrap();
    let none: Result<Vec<Document>, String> = Ok(vec![]);
    let done = a.process_next(14, &none, 5, 6).unwrap().unwrap();
    match done {
        UpdateStatus::Processed { result, .. } => {
            assert_eq!(result, UpdateResult::DocumentDeletion { deleted: 1 });
        },
        other => panic!("expected a processed job, got {:?}", other_name(&other)),
    }
    let meta = a.index_handle.get_index_meta(14).unwrap();
    assert_eq!(meta.number_of_documents, 1);
}

fn other_name(st: &UpdateStatus) -> &'static str {
    match st {
        UpdateStatus::Enqueued { .. } => "enqueued",
        UpdateStatus::Processing { .. } => "processing",
        UpdateStatus::Processed { .. } => "processed",
        UpdateStatus::Failed { .. } => "failed",
    }
}
