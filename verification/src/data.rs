//! Public façade: the name-keyed operations the request surface calls.
//!
//! Every operation resolves the user-facing index name through the name
//! resolver and then drives the update actor or the index worker under
//! the resolved id. Submissions return the job's initial status at once;
//! the processing loop applies jobs later, in submission order.

use vstd::prelude::*;

use crate::assoc;
use crate::error::Error;
use crate::index_actor::IndexMeta;
use crate::update_actor::UpdateActorHandleImpl;
use crate::update_actor::store_queue;
use crate::update_store::IndexDocumentsMethod;
use crate::update_store::MetaModel;
use crate::update_store::Settings;
use crate::update_store::StatusModel;
use crate::update_store::UpdateFormat;
use crate::update_store::UpdateMeta;
use crate::update_store::UpdateStatus;
use crate::uuid_resolver::UuidResolverHandleImpl;

verus! {

/// The current wall-clock time in milliseconds since the Unix epoch.
/// Relies on `chrono::Utc::now`: what it returns depends on the clock, so
/// nothing is promised of the value; timestamps are recorded, never
/// reasoned about.
#[verifier::external_body]
fn now_millis() -> i64 {
    chrono::Utc::now().timestamp_millis()
}

/// What the stats endpoint reports of one index.
#[derive(Debug)]
pub struct IndexStats {
    pub number_of_documents: u64,
    pub is_indexing: bool,
    pub fields_distribution: Vec<(String, u64)>,
}

/// The service state behind the request surface: the resolver tier and
/// the update actor (which owns the index worker).
pub struct Data {
    pub uuid_resolver: UuidResolverHandleImpl,
    pub update_handle: UpdateActorHandleImpl,
}

impl Data {
    /// Both tiers satisfy their invariants.
    pub open spec fn wf(&self) -> bool {
        self.uuid_resolver.store.wf() && self.update_handle.wf()
    }

    /// A façade over the two tiers.
    pub fn new(uuid_resolver: UuidResolverHandleImpl, update_handle: UpdateActorHandleImpl) -> (r:
        Data)
        requires
            uuid_resolver.store.wf(),
            update_handle.wf(),
        ensures
            r.wf(),
            r.uuid_resolver == uuid_resolver,
            r.update_handle == update_handle,
    {
        Data { uuid_resolver, update_handle }
    }

    /// Submits a job against the index named `index`: resolved, then
    /// enqueued under the next update id of that index.
    fn submit(&mut self, index: &String, meta: UpdateMeta) -> (r: Result<UpdateStatus, Error>)
        requires
            old(self).wf(),
        ensures
            final(self).wf(),
            final(self).uuid_resolver == old(self).uuid_resolver,
            !old(self).uuid_resolver.store.contains_name(index@) ==> r == Err::<
                UpdateStatus,
                Error,
            >(Error::NotFound) && *final(self) == *old(self),
            old(self).uuid_resolver.store.contains_name(index@) ==> ({
                let uuid = old(self).uuid_resolver.store.id_of(index@);
                let q0 = store_queue(old(self).update_handle.stores_map(), uuid);
                &&& (forall|u: u128|
                    u != uuid ==> store_queue(final(self).update_handle.stores_map(), u)
                        == store_queue(old(self).update_handle.stores_map(), u)
                        && assoc::contains_key(final(self).update_handle.stores_map(), u)
                        == assoc::contains_key(old(self).update_handle.stores_map(), u))
                &&& final(self).update_handle.index_handle == old(self).update_handle.index_handle
                &&& (r matches Err(e) ==> e is Internal)
                &&& q0.len() < u64::MAX ==> r is Ok
                &&& (r matches Ok(st) ==> st.deep_view() matches StatusModel::Enqueued { from: e }
                    && st.deep_view().enqueued_core().update_id == q0.len()
                    && st.deep_view().enqueued_core().meta == meta.deep_view() && store_queue(
                    final(self).update_handle.stores_map(),
                    uuid,
                ) == q0.push(st.deep_view()))
            }),
    {
        let uuid = match self.uuid_resolver.get(index) {
            Ok(uuid) => uuid,
            Err(e) => {
                return Err(e);
            },
        };
        let now = now_millis();
        self.update_handle.update(meta, uuid, now)
    }

    /// Enqueues a document addition for the named index. The payload
    /// stream was already written to a blob by the surrounding process;
    /// decoding happens when the job is applied.
    pub fn add_documents(
        &mut self,
        index: String,
        method: IndexDocumentsMethod,
        format: UpdateFormat,
        primary_key: Option<String>,
    ) -> (r: Result<UpdateStatus, Error>)
        requires
            old(self).wf(),
        ensures
            final(self).wf(),
            final(self).uuid_resolver == old(self).uuid_resolver,
            !old(self).uuid_resolver.store.contains_name(index@) ==> r == Err::<
                UpdateStatus,
                Error,
            >(Error::NotFound) && *final(self) == *old(self),
            old(self).uuid_resolver.store.contains_name(index@) ==> ({
                let uuid = old(self).uuid_resolver.store.id_of(index@);
                let q0 = store_queue(old(self).update_handle.stores_map(), uuid);
                &&& q0.len() < u64::MAX ==> r is Ok
                &&& (forall|u: u128|
                    u != uuid ==> store_queue(final(self).update_handle.stores_map(), u)
                        == store_queue(old(self).update_handle.stores_map(), u)
                        && assoc::contains_key(final(self).update_handle.stores_map(), u)
                        == assoc::contains_key(old(self).update_handle.stores_map(), u))
                &&& final(self).update_handle.index_handle == old(self).update_handle.index_handle
                &&& (r matches Ok(st) ==> st.deep_view() is Enqueued
                    && st.deep_view().enqueued_core().meta == (MetaModel::AddDocuments {
                    method,
                    format,
                    primary_key: primary_key.deep_view(),
                }) && st.deep_view().enqueued_core().update_id == q0.len() && store_queue(
                    final(self).update_handle.stores_map(),
                    uuid,
                ) == q0.push(st.deep_view()))
            }),
    {
        self.submit(&index, UpdateMeta::AddDocuments { method, format, primary_key })
    }

    /// Enqueues a settings update; with `create` set, an unknown name is
    /// first bound to a fresh index.
    pub fn update_settings(&mut self, index: String, settings: Settings, create: bool) -> (r:
        Result<UpdateStatus, Error>)
        requires
            old(self).wf(),
        ensures
            final(self).wf(),
            !old(self).uuid_resolver.store.contains_name(index@) && !create ==> r == Err::<
                UpdateStatus,
                Error,
            >(Error::NotFound) && *final(self) == *old(self),
            old(self).uuid_resolver.store.contains_name(index@) ==> final(self).uuid_resolver
                == old(self).uuid_resolver && (store_queue(
                old(self).update_handle.stores_map(),
                old(self).uuid_resolver.store.id_of(index@),
            ).len() < u64::MAX ==> r is Ok),
            !old(self).uuid_resolver.store.contains_name(index@) && create ==> (r is Ok || (
            r matches Err(Error::Internal { .. }))),
            forall|n: Seq<char>|
                n != index@ ==> final(self).uuid_resolver.store.resolution(n) == old(
                    self,
                ).uuid_resolver.store.resolution(n),
            forall|u: u128|
                u != final(self).uuid_resolver.store.id_of(index@) ==> store_queue(
                    final(self).update_handle.stores_map(),
                    u,
                ) == store_queue(old(self).update_handle.stores_map(), u) && assoc::contains_key(
                    final(self).update_handle.stores_map(),
                    u,
                ) == assoc::contains_key(old(self).update_handle.stores_map(), u),
            forall|u: u128|
                u != final(self).uuid_resolver.store.id_of(index@) ==> assoc::contains_key(
                    final(self).update_handle.index_handle.map(),
                    u,
                ) == assoc::contains_key(old(self).update_handle.index_handle.map(), u) && (
                assoc::contains_key(old(self).update_handle.index_handle.map(), u)
                    ==> assoc::value_of(final(self).update_handle.index_handle.map(), u)
                    == assoc::value_of(old(self).update_handle.index_handle.map(), u)),
            r matches Ok(st) ==> ({
                let uuid = final(self).uuid_resolver.store.id_of(index@);
                &&& st.deep_view() is Enqueued
                &&& st.deep_view().enqueued_core().meta == (MetaModel::UpdateSettings {
                    settings: settings.deep_view(),
                })
                &&& final(self).uuid_resolver.store.contains_name(index@)
                &&& store_queue(final(self).update_handle.stores_map(), uuid).len() > 0
                &&& store_queue(final(self).update_handle.stores_map(), uuid).last()
                    == st.deep_view()
            }),
    {
        let known = match self.uuid_resolver.get(&index) {
            Ok(_) => true,
            Err(_) => false,
        };
        if !known {
            if !create {
                return Err(Error::NotFound);
            }
            let name = index.clone();
            let uuid = match self.uuid_resolver.create(name) {
                Ok(uuid) => uuid,
                Err(e) => {
                    return Err(e);
                },
            };
            proof {
                assoc::lemma_push(old(self).uuid_resolver.store.bindings(), index@, uuid);
            }
            let now = now_millis();
            let ghost wm0 = self.update_handle.index_handle.map();
            let _ = self.update_handle.create_index(uuid, None, now);
            proof {
                if !assoc::contains_key(wm0, uuid) {
                    assoc::lemma_push(
                        wm0,
                        uuid,
                        crate::index_actor::fresh_index_model(None, now),
                    );
                }
            }
        }
        self.submit(&index, UpdateMeta::UpdateSettings { settings })
    }

    /// Enqueues a job that drops every document of the named index.
    pub fn clear_documents(&mut self, index: String) -> (r: Result<UpdateStatus, Error>)
        requires
            old(self).wf(),
        ensures
            final(self).wf(),
            final(self).uuid_resolver == old(self).uuid_resolver,
            !old(self).uuid_resolver.store.contains_name(index@) ==> r == Err::<
                UpdateStatus,
                Error,
            >(Error::NotFound) && *final(self) == *old(self),
            old(self).uuid_resolver.store.contains_name(index@) ==> ({
                let uuid = old(self).uuid_resolver.store.id_of(index@);
                let q0 = store_queue(old(self).update_handle.stores_map(), uuid);
                &&& q0.len() < u64::MAX ==> r is Ok
                &&& (forall|u: u128|
                    u != uuid ==> store_queue(final(self).update_handle.stores_map(), u)
                        == store_queue(old(self).update_handle.stores_map(), u)
                        && assoc::contains_key(final(self).update_handle.stores_map(), u)
                        == assoc::contains_key(old(self).update_handle.stores_map(), u))
                &&& final(self).update_handle.index_handle == old(self).update_handle.index_handle
                &&& (r matches Ok(st) ==> st.deep_view() is Enqueued
                    && st.deep_view().enqueued_core().meta == MetaModel::ClearDocuments
                    && st.deep_view().enqueued_core().update_id == q0.len() && store_queue(
                    final(self).update_handle.stores_map(),
                    uuid,
                ) == q0.push(st.deep_view()))
            }),
    {
        self.submit(&index, UpdateMeta::ClearDocuments)
    }

    /// Enqueues a deletion of the documents with the given primary-key
    /// values.
    pub fn delete_documents(&mut self, index: String, document_ids: Vec<String>) -> (r: Result<
        UpdateStatus,
        Error,
    >)
        requires
            old(self).wf(),
        ensures
            final(self).wf(),
            final(self).uuid_resolver == old(self).uuid_resolver,
            !old(self).uuid_resolver.store.contains_name(index@) ==> r == Err::<
                UpdateStatus,
                Error,
            >(Error::NotFound) && *final(self) == *old(self),
            old(self).uuid_resolver.store.contains_name(index@) ==> ({
                let uuid = old(self).uuid_resolver.store.id_of(index@);
                let q0 = store_queue(old(self).update_handle.stores_map(), uuid);
                &&& q0.len() < u64::MAX ==> r is Ok
                &&& (forall|u: u128|
                    u != uuid ==> store_queue(final(self).update_handle.stores_map(), u)
                        == store_queue(old(self).update_handle.stores_map(), u)
                        && assoc::contains_key(final(self).update_handle.stores_map(), u)
                        == assoc::contains_key(old(self).update_handle.stores_map(), u))
                &&& final(self).update_handle.index_handle == old(self).update_handle.index_handle
                &&& (r matches Ok(st) ==> st.deep_view() is Enqueued
                    && st.deep_view().enqueued_core().meta == (MetaModel::DeleteDocuments {
                    ids: document_ids.deep_view(),
                }) && st.deep_view().enqueued_core().update_id == q0.len() && store_queue(
                    final(self).update_handle.stores_map(),
                    uuid,
                ) == q0.push(st.deep_view()))
            }),
    {
        self.submit(&index, UpdateMeta::DeleteDocuments { ids: document_ids })
    }

    /// Deletes the named index: the binding goes first, then the update
    /// store with its blobs and the worker's engine state are torn down.
    /// The name resolves to nothing from here on, until a new creation
    /// binds it again.
    pub fn delete_index(&mut self, index: String) -> (r: Result<(), Error>)
        requires
            old(self).wf(),
        ensures
            final(self).wf(),
            !old(self).uuid_resolver.store.contains_name(index@) ==> r == Err::<(), Error>(
                Error::NotFound,
            ) && *final(self) == *old(self),
            old(self).uuid_resolver.store.contains_name(index@) ==> ({
                let uuid = old(self).uuid_resolver.store.id_of(index@);
                &&& r is Ok
                &&& !final(self).uuid_resolver.store.contains_name(index@)
                &&& final(self).uuid_resolver.store.retired_ids() == old(
                    self,
                ).uuid_resolver.store.retired_ids().push(uuid)
                &&& (forall|n: Seq<char>|
                    n != index@ ==> final(self).uuid_resolver.store.resolution(n) == old(
                        self,
                    ).uuid_resolver.store.resolution(n))
                &&& !assoc::contains_key(final(self).update_handle.stores_map(), uuid)
                &&& !assoc::contains_key(final(self).update_handle.index_handle.map(), uuid)
                &&& (forall|u: u128|
                    u != uuid ==> store_queue(final(self).update_handle.stores_map(), u)
                        == store_queue(old(self).update_handle.stores_map(), u)
                        && assoc::contains_key(final(self).update_handle.stores_map(), u)
                        == assoc::contains_key(old(self).update_handle.stores_map(), u))
                &&& (forall|u: u128|
                    u != uuid ==> assoc::contains_key(
                        final(self).update_handle.index_handle.map(),
                        u,
                    ) == assoc::contains_key(old(self).update_handle.index_handle.map(), u) && (
                    assoc::contains_key(old(self).update_handle.index_handle.map(), u)
                        ==> assoc::value_of(final(self).update_handle.index_handle.map(), u)
                        == assoc::value_of(old(self).update_handle.index_handle.map(), u)))
            }),
    {
        let uuid = match self.uuid_resolver.delete(&index) {
            Ok(uuid) => uuid,
            Err(e) => {
                return Err(e);
            },
        };
        let _ = self.update_handle.delete(uuid);
        let _ = self.update_handle.remove_index(uuid);
        Ok(())
    }

    /// The status of update `uid` on the named index.
    pub fn get_update_status(&self, index: String, uid: u64) -> (r: Result<UpdateStatus, Error>)
        requires
            self.wf(),
        ensures
            !self.uuid_resolver.store.contains_name(index@) ==> r == Err::<UpdateStatus, Error>(
                Error::NotFound,
            ),
            self.uuid_resolver.store.contains_name(index@) ==> ({
                let q = store_queue(
                    self.update_handle.stores_map(),
                    self.uuid_resolver.store.id_of(index@),
                );
                &&& uid < q.len() ==> (r matches Ok(st) && st.deep_view() == q[uid as int])
                &&& uid >= q.len() ==> r == Err::<UpdateStatus, Error>(Error::NotFound)
            }),
    {
        let uuid = match self.uuid_resolver.get(&index) {
            Ok(uuid) => uuid,
            Err(e) => {
                return Err(e);
            },
        };
        match self.update_handle.update_status(uuid, uid) {
            Ok(st) => Ok(st),
            Err(e) => Err(e),
        }
    }

    /// All update statuses of the named index, newest first; an index
    /// that never saw a submission has none.
    pub fn get_updates_status(&self, index: String) -> (r: Result<Vec<UpdateStatus>, Error>)
        requires
            self.wf(),
        ensures
            !self.uuid_resolver.store.contains_name(index@) ==> r == Err::<
                Vec<UpdateStatus>,
                Error,
            >(Error::NotFound),
            self.uuid_resolver.store.contains_name(index@) ==> ({
                let q = store_queue(
                    self.update_handle.stores_map(),
                    self.uuid_resolver.store.id_of(index@),
                );
                r matches Ok(v) && v.deep_view().len() == q.len() && (forall|i: int|
                    0 <= i < q.len() ==> #[trigger] v.deep_view()[i] == q[q.len() - 1 - i])
            }),
    {
        let uuid = match self.uuid_resolver.get(&index) {
            Ok(uuid) => uuid,
            Err(e) => {
                return Err(e);
            },
        };
        match self.update_handle.get_all_updates_status(uuid) {
            Ok(v) => Ok(v),
            Err(_) => Ok(Vec::new()),
        }
    }

    /// The stats of the named index: document count, whether jobs are
    /// still being applied, and how many documents carry each field.
    pub fn index_stats(&self, index: String) -> (r: Result<IndexStats, Error>)
        requires
            self.wf(),
        ensures
            !self.uuid_resolver.store.contains_name(index@) ==> r == Err::<IndexStats, Error>(
                Error::NotFound,
            ),
            self.uuid_resolver.store.contains_name(index@) ==> ({
                let uuid = self.uuid_resolver.store.id_of(index@);
                &&& !assoc::contains_key(self.update_handle.index_handle.map(), uuid) ==> r
                    == Err::<IndexStats, Error>(Error::NotFound)
                &&& assoc::contains_key(self.update_handle.index_handle.map(), uuid) ==> ({
                    let m = assoc::value_of(self.update_handle.index_handle.map(), uuid);
                    r matches Ok(s) && s.number_of_documents == m.documents.len()
                        && s.is_indexing == (exists|i: int|
                        0 <= i < store_queue(self.update_handle.stores_map(), uuid).len() && !(
                        #[trigger] store_queue(self.update_handle.stores_map(), uuid)[i]).is_terminal())
                        && (forall|i: int|
                        0 <= i < s.fields_distribution.deep_view().len() ==> (
                        #[trigger] s.fields_distribution.deep_view()[i]).1
                            == crate::index_actor::count_with_field(
                            m.documents,
                            s.fields_distribution.deep_view()[i].0,
                        ) && s.fields_distribution.deep_view()[i].1 >= 1) && (forall|
                        d: int,
                        f: int,
                    |
                        0 <= d < m.documents.len() && 0 <= f < m.documents[d].1.len()
                            ==> assoc::contains_key(
                            s.fields_distribution.deep_view(),
                            (#[trigger] m.documents[d].1[f]).0,
                        ))
                })
            }),
    {
        let uuid = match self.uuid_resolver.get(&index) {
            Ok(uuid) => uuid,
            Err(e) => {
                return Err(e);
            },
        };
        let meta = match self.update_handle.index_handle.get_index_meta(uuid) {
            Ok(meta) => meta,
            Err(e) => {
                return Err(e);
            },
        };
        let fields_distribution = match self.update_handle.fields_distribution(uuid) {
            Ok(v) => v,
            Err(e) => {
                return Err(e);
            },
        };
        let is_indexing = self.update_handle.is_indexing(uuid);
        Ok(IndexStats { number_of_documents: meta.number_of_documents, is_indexing, fields_distribution })
    }

    /// Renames the index and/or sets its primary key, and returns its
    /// metadata. The target name is checked and the primary key applied
    /// before the binding moves, so a failure leaves every tier as it
    /// was, and the rename itself can no longer fail once it runs.
    pub fn update_index(
        &mut self,
        uid: String,
        primary_key: Option<String>,
        new_uid: Option<String>,
    ) -> (r: Result<IndexMeta, Error>)
        requires
            old(self).wf(),
        ensures
            final(self).wf(),
            final(self).update_handle.stores_map() == old(self).update_handle.stores_map(),
            !old(self).uuid_resolver.store.contains_name(uid@) ==> r == Err::<IndexMeta, Error>(
                Error::NotFound,
            ) && *final(self) == *old(self),
            old(self).uuid_resolver.store.contains_name(uid@) ==> ({
                let uuid = old(self).uuid_resolver.store.id_of(uid@);
                let wm0 = old(self).update_handle.index_handle.map();
                let wm1 = final(self).update_handle.index_handle.map();
                &&& (new_uid matches Some(n) && old(self).uuid_resolver.store.contains_name(n@)
                    ==> r == Err::<IndexMeta, Error>(Error::AlreadyExists) && *final(self) == *old(
                    self,
                ))
                &&& (match new_uid {
                    Some(n) => !old(self).uuid_resolver.store.contains_name(n@),
                    None => true,
                }) ==> ({
                    &&& (!assoc::contains_key(wm0, uuid) ==> r == Err::<IndexMeta, Error>(
                        Error::NotFound,
                    ) && *final(self) == *old(self))
                    &&& (assoc::contains_key(wm0, uuid) ==> ({
                        let m0 = assoc::value_of(wm0, uuid);
                        let m1 = assoc::value_of(wm1, uuid);
                        &&& assoc::contains_key(wm1, uuid)
                        &&& (forall|u: u128|
                            u != uuid ==> assoc::contains_key(wm1, u) == assoc::contains_key(
                                wm0,
                                u,
                            ))
                        &&& (forall|u: u128|
                            u != uuid && assoc::contains_key(wm0, u) ==> assoc::value_of(wm1, u)
                                == assoc::value_of(wm0, u))
                        &&& match primary_key.deep_view() {
                            None => (r matches Ok(_)) && m1 == m0,
                            Some(d) => match m0.primary_key {
                                Some(k) => if d == k {
                                    (r matches Ok(_)) && m1 == m0
                                } else {
                                    r == Err::<IndexMeta, Error>(Error::PrimaryKeyMismatch) && m1
                                        == m0 && final(self).uuid_resolver == old(
                                        self,
                                    ).uuid_resolver
                                },
                                None => (r matches Ok(_)) && m1.created_at == m0.created_at
                                    && m1.primary_key == Some(d) && m1.settings == m0.settings
                                    && m1.documents == m0.documents,
                            },
                        }
                        &&& (r matches Ok(meta) ==> meta.created_at == m1.created_at
                            && meta.updated_at == m1.updated_at && meta.primary_key.deep_view()
                            == m1.primary_key && meta.number_of_documents == m1.documents.len())
                        &&& (r is Ok ==> match new_uid {
                            None => final(self).uuid_resolver == old(self).uuid_resolver,
                            Some(n) => final(self).uuid_resolver.store.resolution(n@) == Some(
                                uuid,
                            ) && !final(self).uuid_resolver.store.contains_name(uid@) && (forall|
                                m: Seq<char>,
                            |
                                m != uid@ && m != n@ ==> final(self).uuid_resolver.store.resolution(
                                    m,
                                ) == old(self).uuid_resolver.store.resolution(m)),
                        })
                    }))
                })
            }),
    {
        let uuid = match self.uuid_resolver.get(&uid) {
            Ok(uuid) => uuid,
            Err(e) => {
                return Err(e);
            },
        };
        if let Some(n) = &new_uid {
            match self.uuid_resolver.get(n) {
                Ok(_) => {
                    return Err(Error::AlreadyExists);
                },
                Err(_) => (),
            }
        }
        let now = now_millis();
        let meta = match self.update_handle.update_index(uuid, &primary_key, now) {
            Ok(meta) => meta,
            Err(e) => {
                return Err(e);
            },
        };
        if let Some(n) = new_uid {
            match self.uuid_resolver.store.rename(&uid, n) {
                Ok(_) => (),
                Err(_) => {
                    return unreached();
                },
            }
        }
        Ok(meta)
    }
}

} // verus!
