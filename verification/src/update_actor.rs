//! Update actor: the single consumer that owns every per-index update
//! store and the index worker handle, serializing job processing.
//!
//! Submissions append to a per-index queue; the processing step takes the
//! first job that still needs work, hands it to the index worker, and
//! settles it into a terminal state. In the running service this sits
//! behind a bounded mailbox; here it is the state machine the mailbox
//! serializes.

use vstd::prelude::*;

use crate::assoc;
use crate::error::Error;
use crate::index_actor::Document;
use crate::index_actor::IndexActorHandleImpl;
use crate::index_actor::IndexModel;
use crate::index_actor::add_documents_rel;
use crate::index_actor::clear_documents_rel;
use crate::index_actor::delete_documents_rel;
use crate::index_actor::update_settings_rel;
use crate::update_store::MetaModel;
use crate::update_store::ProcessingModel;
use crate::update_store::StatusModel;
use crate::update_store::UpdateMeta;
use crate::update_store::UpdateResult;
use crate::update_store::UpdateStatus;
use crate::update_store::UpdateStore;
use crate::update_store::finished_status;
use crate::update_store::first_pending;
use crate::update_store::is_pending_boundary;
use crate::update_store::processing_core_at;
use crate::update_store::status_outcome;

verus! {

/// The queue of the store under `uuid`, empty if no store exists yet.
pub open spec fn store_queue(m: Seq<(u128, UpdateStore)>, uuid: u128) -> Seq<StatusModel> {
    if assoc::contains_key(m, uuid) {
        assoc::value_of(m, uuid).queue()
    } else {
        Seq::empty()
    }
}

/// The upload in flight on the store under `uuid`, if any.
pub open spec fn store_pending(m: Seq<(u128, UpdateStore)>, uuid: u128) -> Option<u64> {
    if assoc::contains_key(m, uuid) {
        assoc::value_of(m, uuid).pending()
    } else {
        None
    }
}

/// The payload blob files of the store under `uuid`, none if no store
/// exists yet.
pub open spec fn store_blobs(m: Seq<(u128, UpdateStore)>, uuid: u128) -> Seq<u64> {
    if assoc::contains_key(m, uuid) {
        assoc::value_of(m, uuid).blob_files()
    } else {
        Seq::empty()
    }
}

/// The blob name counter of the store under `uuid` (zero before the
/// store exists).
pub open spec fn store_blob_counter(m: Seq<(u128, UpdateStore)>, uuid: u128) -> u64 {
    if assoc::contains_key(m, uuid) {
        assoc::value_of(m, uuid).blob_counter()
    } else {
        0
    }
}

/// The decode outcome of a payload, as a mathematical value.
pub open spec fn decoded_view(d: &Result<Vec<Document>, String>) -> Result<
    Seq<crate::index_actor::DocModel>,
    Seq<char>,
> {
    match d {
        Ok(docs) => Ok(docs.deep_view()),
        Err(reason) => Err(reason@),
    }
}

/// What the index worker's dispatch may return for one job, as a relation
/// between the index state before and after.
pub open spec fn worker_outcome_rel(
    m0: IndexModel,
    m1: IndexModel,
    outcome: Result<UpdateResult, Error>,
    meta: MetaModel,
    decoded: Result<Seq<crate::index_actor::DocModel>, Seq<char>>,
    now: i64,
) -> bool {
    match meta {
        MetaModel::AddDocuments { method, primary_key, .. } => match decoded {
            Ok(docs) => add_documents_rel(m0, m1, outcome, method, primary_key, docs, now),
            Err(reason) => (outcome matches Err(Error::MalformedPayload { reason: rr }) && rr@
                == reason) && m1 == m0,
        },
        MetaModel::UpdateSettings { settings } => update_settings_rel(m0, m1, outcome, settings, now),
        MetaModel::ClearDocuments => clear_documents_rel(m0, m1, outcome, now),
        MetaModel::DeleteDocuments { ids } => delete_documents_rel(m0, m1, outcome, ids, now),
    }
}

/// Handle on the update actor: every per-index update store, plus the
/// index worker that jobs are dispatched to. `path` and
/// `update_store_size` describe the on-disk layout the surrounding
/// process maintains under `updates/`.
pub struct UpdateActorHandleImpl {
    pub stores: Vec<(u128, UpdateStore)>,
    pub index_handle: IndexActorHandleImpl,
    pub path: String,
    pub update_store_size: usize,
}

impl UpdateActorHandleImpl {
    /// The per-index stores, keyed by id.
    pub closed spec fn stores_map(&self) -> Seq<(u128, UpdateStore)> {
        self.stores@
    }

    /// Ids are unique, every store satisfies its invariant, and so does
    /// the worker.
    pub open spec fn wf(&self) -> bool {
        &&& assoc::unique_keys(self.stores_map())
        &&& forall|i: int| 0 <= i < self.stores_map().len() ==> (#[trigger] self.stores_map()[i]).1.wf()
        &&& self.index_handle.wf()
    }

    /// An update actor with no stores yet.
    pub fn new(index_handle: IndexActorHandleImpl, path: String, update_store_size: usize) -> (r:
        Result<UpdateActorHandleImpl, Error>)
        requires
            index_handle.wf(),
        ensures
            r matches Ok(h) && h.wf() && h.stores_map() == Seq::<(u128, UpdateStore)>::empty()
                && h.index_handle == index_handle,
    {
        Ok(UpdateActorHandleImpl { stores: Vec::new(), index_handle, path, update_store_size })
    }

    /// Position of the store for `uuid`.
    fn position_of_store(&self, uuid: u128) -> (r: Option<usize>)
        ensures
            match r {
                Some(i) => i < self.stores_map().len() && self.stores_map()[i as int].0 == uuid,
                None => !assoc::contains_key(self.stores_map(), uuid),
            },
    {
        let mut k: usize = 0;
        while k < self.stores.len()
            invariant
                k <= self.stores.len(),
                forall|j: int| 0 <= j < k ==> (#[trigger] self.stores_map()[j]).0 != uuid,
            decreases self.stores.len() - k,
        {
            if self.stores[k].0 == uuid {
                return Some(k);
            }
            k += 1;
        }
        proof {
            if assoc::contains_key(self.stores_map(), uuid) {
                let i = choose|i: int|
                    0 <= i < self.stores_map().len() && (#[trigger] self.stores_map()[i]).0
                        == uuid;
                assert(self.stores_map()[i].0 != uuid);
            }
        }
        None
    }

    /// Materializes an empty store for `uuid` if none exists.
    pub fn create(&mut self, uuid: u128) -> (r: Result<(), Error>)
        requires
            old(self).wf(),
        ensures
            final(self).wf(),
            r is Ok,
            final(self).index_handle == old(self).index_handle,
            assoc::contains_key(final(self).stores_map(), uuid),
            store_queue(final(self).stores_map(), uuid) == store_queue(
                old(self).stores_map(),
                uuid,
            ),
            forall|u: u128|
                #![trigger store_queue(final(self).stores_map(), u)]
                store_pending(final(self).stores_map(), u) == store_pending(
                    old(self).stores_map(),
                    u,
                ) && store_blobs(final(self).stores_map(), u) == store_blobs(
                    old(self).stores_map(),
                    u,
                ) && store_blob_counter(final(self).stores_map(), u) == store_blob_counter(
                    old(self).stores_map(),
                    u,
                ),
            forall|u: u128|
                u != uuid ==> store_queue(final(self).stores_map(), u) == store_queue(
                    old(self).stores_map(),
                    u,
                ) && assoc::contains_key(final(self).stores_map(), u) == assoc::contains_key(
                    old(self).stores_map(),
                    u,
                ),
    {
        if let Some(_) = self.position_of_store(uuid) {
            return Ok(());
        }
        let st = UpdateStore::new();
        let ghost pre = self.stores_map();
        proof {
            assoc::lemma_push(pre, uuid, st);
        }
        self.stores.push((uuid, st));
        proof {
            assert(self.stores_map() =~= pre.push((uuid, st)));
            assert(store_blobs(self.stores_map(), uuid) =~= Seq::<u64>::empty());
        }
        Ok(())
    }

    /// Records a submission for `uuid`: the store is materialized on
    /// demand, the job is appended as `Enqueued` under the next update id,
    /// and its initial status is returned at once.
    pub fn update(&mut self, meta: UpdateMeta, uuid: u128, enqueued_at: i64) -> (r: Result<
        UpdateStatus,
        Error,
    >)
        requires
            old(self).wf(),
        ensures
            final(self).wf(),
            final(self).index_handle == old(self).index_handle,
            assoc::contains_key(final(self).stores_map(), uuid),
            forall|u: u128|
                u != uuid ==> store_queue(final(self).stores_map(), u) == store_queue(
                    old(self).stores_map(),
                    u,
                ) && assoc::contains_key(final(self).stores_map(), u) == assoc::contains_key(
                    old(self).stores_map(),
                    u,
                ),
            r matches Err(e) ==> e is Internal && store_queue(final(self).stores_map(), uuid)
                == store_queue(old(self).stores_map(), uuid),
            store_queue(old(self).stores_map(), uuid).len() < u64::MAX ==> r is Ok,
            r matches Ok(st) ==> ({
                let q0 = store_queue(old(self).stores_map(), uuid);
                &&& st.deep_view() matches StatusModel::Enqueued { from: e }
                &&& st.deep_view().enqueued_core().update_id == q0.len()
                &&& st.deep_view().enqueued_core().meta == meta.deep_view()
                &&& st.deep_view().enqueued_core().enqueued_at == enqueued_at
                &&& store_queue(final(self).stores_map(), uuid) == q0.push(st.deep_view())
            }),
    {
        let _ = self.create(uuid);
        let i = match self.position_of_store(uuid) {
            Some(i) => i,
            None => unreached(),
        };
        proof {
            assoc::lemma_key_index_unique(self.stores_map(), i as int, uuid);
        }
        let ghost mid = self.stores_map();
        let mut entry = self.stores.remove(i);
        let r = entry.1.register_update(meta, enqueued_at);
        let ghost s1 = entry.1;
        self.stores.insert(i, entry);
        proof {
            assert(self.stores_map() =~= mid.update(i as int, (uuid, s1)));
            assoc::lemma_update_value(mid, i as int, s1);
        }
        match r {
            Ok(e) => Ok(UpdateStatus::Enqueued { from: e }),
            Err(er) => Err(er),
        }
    }

    /// The status of update `id` on index `uuid`.
    pub fn update_status(&self, uuid: u128, id: u64) -> (r: Result<UpdateStatus, Error>)
        requires
            self.wf(),
        ensures
            !assoc::contains_key(self.stores_map(), uuid) ==> r == Err::<UpdateStatus, Error>(
                Error::NotFound,
            ),
            assoc::contains_key(self.stores_map(), uuid) ==> ({
                let q = store_queue(self.stores_map(), uuid);
                &&& id < q.len() ==> (r matches Ok(st) && st.deep_view() == q[id as int])
                &&& id >= q.len() ==> r == Err::<UpdateStatus, Error>(Error::NotFound)
            }),
    {
        match self.position_of_store(uuid) {
            Some(i) => {
                proof {
                    assoc::lemma_key_index_unique(self.stores_map(), i as int, uuid);
                }
                self.stores[i].1.get(id)
            },
            None => Err(Error::NotFound),
        }
    }

    /// All statuses of index `uuid`, newest first.
    pub fn get_all_updates_status(&self, uuid: u128) -> (r: Result<Vec<UpdateStatus>, Error>)
        requires
            self.wf(),
        ensures
            !assoc::contains_key(self.stores_map(), uuid) ==> r == Err::<Vec<UpdateStatus>, Error>(
                Error::NotFound,
            ),
            assoc::contains_key(self.stores_map(), uuid) ==> ({
                let q = store_queue(self.stores_map(), uuid);
                r matches Ok(v) && v.deep_view().len() == q.len() && (forall|i: int|
                    0 <= i < q.len() ==> #[trigger] v.deep_view()[i] == q[q.len() - 1 - i])
            }),
    {
        match self.position_of_store(uuid) {
            Some(i) => {
                proof {
                    assoc::lemma_key_index_unique(self.stores_map(), i as int, uuid);
                }
                Ok(self.stores[i].1.list())
            },
            None => Err(Error::NotFound),
        }
    }

    /// Tears down the store of index `uuid` with all its blobs.
    pub fn delete(&mut self, uuid: u128) -> (r: Result<(), Error>)
        requires
            old(self).wf(),
        ensures
            final(self).wf(),
            final(self).index_handle == old(self).index_handle,
            !assoc::contains_key(old(self).stores_map(), uuid) ==> r == Err::<(), Error>(
                Error::NotFound,
            ) && *final(self) == *old(self),
            assoc::contains_key(old(self).stores_map(), uuid) ==> r == Ok::<(), Error>(())
                && !assoc::contains_key(final(self).stores_map(), uuid) && (forall|u: u128|
                u != uuid ==> store_queue(final(self).stores_map(), u) == store_queue(
                    old(self).stores_map(),
                    u,
                ) && assoc::contains_key(final(self).stores_map(), u) == assoc::contains_key(
                    old(self).stores_map(),
                    u,
                )),
    {
        match self.position_of_store(uuid) {
            Some(i) => {
                proof {
                    assoc::lemma_key_index_unique(self.stores_map(), i as int, uuid);
                    assoc::lemma_remove(self.stores_map(), i as int);
                }
                let ghost pre = self.stores_map();
                self.stores.remove(i);
                proof {
                    assert(self.stores_map() =~= pre.remove(i as int));
                }
                Ok(())
            },
            None => Err(Error::NotFound),
        }
    }

    /// Opens a payload upload for index `uuid` (materializing its store):
    /// names the blob file the payload streams into.
    pub fn begin_upload(&mut self, uuid: u128) -> (r: Result<u64, Error>)
        requires
            old(self).wf(),
            store_pending(old(self).stores_map(), uuid) is None,
        ensures
            final(self).wf(),
            final(self).index_handle == old(self).index_handle,
            assoc::contains_key(final(self).stores_map(), uuid),
            store_queue(final(self).stores_map(), uuid) == store_queue(
                old(self).stores_map(),
                uuid,
            ),
            forall|u: u128|
                u != uuid ==> store_queue(final(self).stores_map(), u) == store_queue(
                    old(self).stores_map(),
                    u,
                ) && assoc::contains_key(final(self).stores_map(), u) == assoc::contains_key(
                    old(self).stores_map(),
                    u,
                ),
            store_blob_counter(old(self).stores_map(), uuid) < u64::MAX ==> r is Ok,
            r matches Ok(b) ==> store_pending(final(self).stores_map(), uuid) == Some(b)
                && store_blobs(final(self).stores_map(), uuid) == store_blobs(
                old(self).stores_map(),
                uuid,
            ).push(b) && !store_blobs(old(self).stores_map(), uuid).contains(b),
            r matches Err(e) ==> e is Internal,
    {
        let _ = self.create(uuid);
        let i = match self.position_of_store(uuid) {
            Some(i) => i,
            None => unreached(),
        };
        proof {
            assoc::lemma_key_index_unique(self.stores_map(), i as int, uuid);
        }
        let ghost mid = self.stores_map();
        let mut entry = self.stores.remove(i);
        let r = entry.1.begin_upload();
        let ghost s1 = entry.1;
        self.stores.insert(i, entry);
        proof {
            assert(self.stores_map() =~= mid.update(i as int, (uuid, s1)));
            assoc::lemma_update_value(mid, i as int, s1);
        }
        r
    }

    /// Discards the upload in flight on index `uuid`: the blob file goes,
    /// the queue is untouched, and no job ever refers to the abandoned
    /// payload.
    pub fn abort_upload(&mut self, uuid: u128) -> (r: Result<(), Error>)
        requires
            old(self).wf(),
        ensures
            final(self).wf(),
            final(self).index_handle == old(self).index_handle,
            !assoc::contains_key(old(self).stores_map(), uuid) ==> r == Err::<(), Error>(
                Error::NotFound,
            ) && *final(self) == *old(self),
            assoc::contains_key(old(self).stores_map(), uuid) && store_pending(
                old(self).stores_map(),
                uuid,
            ) is None ==> r == Err::<(), Error>(Error::NotFound) && *final(self) == *old(self),
            assoc::contains_key(old(self).stores_map(), uuid) && store_pending(
                old(self).stores_map(),
                uuid,
            ) is Some ==> r == Ok::<(), Error>(()) && store_queue(final(self).stores_map(), uuid)
                == store_queue(old(self).stores_map(), uuid) && store_pending(
                final(self).stores_map(),
                uuid,
            ) is None && (forall|u: u128|
                u != uuid ==> store_queue(final(self).stores_map(), u) == store_queue(
                    old(self).stores_map(),
                    u,
                ) && assoc::contains_key(final(self).stores_map(), u) == assoc::contains_key(
                    old(self).stores_map(),
                    u,
                )),
    {
        let i = match self.position_of_store(uuid) {
            Some(i) => i,
            None => {
                return Err(Error::NotFound);
            },
        };
        proof {
            assoc::lemma_key_index_unique(self.stores_map(), i as int, uuid);
        }
        let has_pending = self.stores[i].1.upload_in_flight();
        if !has_pending {
            return Err(Error::NotFound);
        }
        let ghost mid = self.stores_map();
        let mut entry = self.stores.remove(i);
        entry.1.abort_upload();
        let ghost s1 = entry.1;
        self.stores.insert(i, entry);
        proof {
            assert(self.stores_map() =~= mid.update(i as int, (uuid, s1)));
            assoc::lemma_update_value(mid, i as int, s1);
        }
        Ok(())
    }

    /// Runs one step of the per-index processing loop: takes the first
    /// job that still needs work (or the one a crash left in flight),
    /// dispatches it to the index worker, and settles it into its
    /// terminal state. `Ok(None)` means every job of the index is done.
    ///
    /// A job for an id the worker no longer has ends `Failed` with
    /// `IndexUnavailable`; a payload that did not decode ends `Failed`
    /// with `MalformedPayload`, leaving the index untouched.
    #[verifier::rlimit(60)]
    pub fn process_next(
        &mut self,
        uuid: u128,
        decoded: &Result<Vec<Document>, String>,
        started_at: i64,
        finished_at: i64,
    ) -> (r: Result<Option<UpdateStatus>, Error>)
        requires
            old(self).wf(),
        ensures
            final(self).wf(),
            !assoc::contains_key(old(self).stores_map(), uuid) ==> r == Err::<
                Option<UpdateStatus>,
                Error,
            >(Error::NotFound) && *final(self) == *old(self),
            assoc::contains_key(old(self).stores_map(), uuid) ==> !(r is Err)
                && assoc::contains_key(final(self).stores_map(), uuid),
            assoc::contains_key(old(self).stores_map(), uuid) ==> (forall|u: u128|
                u != uuid ==> store_queue(final(self).stores_map(), u) == store_queue(
                    old(self).stores_map(),
                    u,
                ) && assoc::contains_key(final(self).stores_map(), u) == assoc::contains_key(
                    old(self).stores_map(),
                    u,
                )),
            assoc::contains_key(old(self).stores_map(), uuid) ==> (forall|u: u128|
                u != uuid ==> assoc::contains_key(final(self).index_handle.map(), u)
                    == assoc::contains_key(old(self).index_handle.map(), u)),
            assoc::contains_key(old(self).stores_map(), uuid) ==> (forall|u: u128|
                u != uuid && assoc::contains_key(old(self).index_handle.map(), u)
                    ==> assoc::value_of(final(self).index_handle.map(), u) == assoc::value_of(
                    old(self).index_handle.map(),
                    u,
                )),
            assoc::contains_key(old(self).stores_map(), uuid) && r == Ok::<
                Option<UpdateStatus>,
                Error,
            >(None) ==> final(self).stores_map() == old(self).stores_map()
                && final(self).index_handle == old(self).index_handle && (forall|j: int|
                0 <= j < store_queue(old(self).stores_map(), uuid).len() ==> (
                #[trigger] store_queue(old(self).stores_map(), uuid)[j]).is_terminal()),
            assoc::contains_key(old(self).stores_map(), uuid) ==> match r {
                Ok(None) => true,
                Ok(Some(st)) => ({
                    let q0 = store_queue(old(self).stores_map(), uuid);
                    let k = first_pending(q0);
                    &&& is_pending_boundary(q0, k)
                    &&& st.deep_view().is_terminal()
                    &&& st.deep_view() == finished_status(
                        processing_core_at(q0, k, started_at),
                        status_outcome(st.deep_view()),
                        finished_at,
                    )
                    &&& store_queue(final(self).stores_map(), uuid) == q0.update(
                        k,
                        st.deep_view(),
                    )
                    &&& (!assoc::contains_key(old(self).index_handle.map(), uuid)
                        ==> status_outcome(st.deep_view()) == Err::<UpdateResult, Error>(
                        Error::IndexUnavailable,
                    ) && final(self).index_handle == old(self).index_handle)
                    &&& (assoc::contains_key(old(self).index_handle.map(), uuid)
                        ==> worker_outcome_rel(
                        assoc::value_of(old(self).index_handle.map(), uuid),
                        assoc::value_of(final(self).index_handle.map(), uuid),
                        status_outcome(st.deep_view()),
                        processing_core_at(q0, k, started_at).from.meta,
                        decoded_view(decoded),
                        finished_at,
                    ) && assoc::contains_key(final(self).index_handle.map(), uuid))
                }),
                Err(_) => false,
            },
    {
        let i = match self.position_of_store(uuid) {
            Some(i) => i,
            None => {
                return Err(Error::NotFound);
            },
        };
        proof {
            assoc::lemma_key_index_unique(self.stores_map(), i as int, uuid);
        }
        let ghost mid = self.stores_map();
        let mut entry = self.stores.remove(i);
        let pjob = entry.1.next_job(started_at);
        let p = match pjob {
            None => {
                let ghost s1 = entry.1;
                self.stores.insert(i, entry);
                proof {
                    assert(self.stores_map() =~= mid.update(i as int, (uuid, s1)));
                    assert(self.stores_map() =~= mid);
                    assoc::lemma_update_value(mid, i as int, s1);
                }
                return Ok(None);
            },
            Some(p) => p,
        };
        let ghost q1 = entry.1.queue();
        let ghost k = first_pending(store_queue(mid, uuid));
        let outcome = self.index_handle.update(uuid, &p.from.meta, decoded, finished_at);
        let ghost w = outcome;
        proof {
            assert(q1[k].is_processing());
            crate::update_store::lemma_processing_index_is(q1, k);
        }
        let r2 = entry.1.finish(outcome, finished_at);
        let st = match r2 {
            Ok(st) => st,
            Err(_) => unreached(),
        };
        let ghost s1 = entry.1;
        self.stores.insert(i, entry);
        proof {
            assert(self.stores_map() =~= mid.update(i as int, (uuid, s1)));
            assoc::lemma_update_value(mid, i as int, s1);
            let q0 = store_queue(mid, uuid);
            let t = st.deep_view();
            assert(q1.update(k, t) =~= q0.update(k, t));
            assert(store_queue(self.stores_map(), uuid) == q0.update(k, t));
            let fromg = if q0[k].is_processing() {
                q0[k].processing_core()
            } else {
                ProcessingModel { from: q0[k].enqueued_core(), started_at }
            };
            assert(q1[k].processing_core() == fromg);
            assert(st.deep_view() == finished_status(fromg, w, finished_at));
            if assoc::contains_key(old(self).index_handle.map(), uuid) {
                assert(worker_outcome_rel(
                    assoc::value_of(old(self).index_handle.map(), uuid),
                    assoc::value_of(self.index_handle.map(), uuid),
                    w,
                    q1[k].processing_core().from.meta,
                    decoded_view(decoded),
                    finished_at,
                ));
            }
        }
        Ok(Some(st))
    }

    /// Materializes a fresh index in the worker.
    pub fn create_index(&mut self, uuid: u128, primary_key: Option<String>, now: i64) -> (r:
        Result<crate::index_actor::IndexMeta, Error>)
        requires
            old(self).wf(),
        ensures
            final(self).wf(),
            final(self).stores_map() == old(self).stores_map(),
            assoc::contains_key(old(self).index_handle.map(), uuid) ==> r == Err::<
                crate::index_actor::IndexMeta,
                Error,
            >(Error::AlreadyExists) && final(self).index_handle == old(self).index_handle,
            !assoc::contains_key(old(self).index_handle.map(), uuid) ==> (r matches Ok(meta)
                && meta.created_at == now && meta.number_of_documents == 0) && final(self).index_handle.map() == old(self).index_handle.map().push(
                (uuid, crate::index_actor::fresh_index_model(primary_key.deep_view(), now)),
            ),
    {
        self.index_handle.create_index(uuid, primary_key, now)
    }

    /// Tears down the worker's state for index `uuid`.
    pub fn remove_index(&mut self, uuid: u128) -> (r: Result<(), Error>)
        requires
            old(self).wf(),
        ensures
            final(self).wf(),
            final(self).stores_map() == old(self).stores_map(),
            !assoc::contains_key(final(self).index_handle.map(), uuid),
            forall|u: u128|
                u != uuid ==> assoc::contains_key(final(self).index_handle.map(), u)
                    == assoc::contains_key(old(self).index_handle.map(), u),
            forall|u: u128|
                u != uuid && assoc::contains_key(old(self).index_handle.map(), u)
                    ==> assoc::value_of(final(self).index_handle.map(), u) == assoc::value_of(
                    old(self).index_handle.map(),
                    u,
                ),
    {
        let _ = self.index_handle.delete(uuid);
        Ok(())
    }

    /// Sets a missing primary key on index `uuid` and returns its
    /// metadata.
    pub fn update_index(&mut self, uuid: u128, primary_key: &Option<String>, now: i64) -> (r:
        Result<crate::index_actor::IndexMeta, Error>)
        requires
            old(self).wf(),
        ensures
            final(self).wf(),
            final(self).stores_map() == old(self).stores_map(),
            !assoc::contains_key(old(self).index_handle.map(), uuid) ==> r == Err::<
                crate::index_actor::IndexMeta,
                Error,
            >(Error::NotFound) && *final(self) == *old(self),
            assoc::contains_key(old(self).index_handle.map(), uuid) ==> ({
                let m0 = assoc::value_of(old(self).index_handle.map(), uuid);
                let m1 = assoc::value_of(final(self).index_handle.map(), uuid);
                &&& assoc::contains_key(final(self).index_handle.map(), uuid)
                &&& (forall|u: u128|
                    u != uuid ==> assoc::contains_key(final(self).index_handle.map(), u)
                        == assoc::contains_key(old(self).index_handle.map(), u))
                &&& (forall|u: u128|
                    u != uuid && assoc::contains_key(old(self).index_handle.map(), u)
                        ==> assoc::value_of(final(self).index_handle.map(), u) == assoc::value_of(
                        old(self).index_handle.map(),
                        u,
                    ))
                &&& match primary_key.deep_view() {
                    None => m1 == m0 && (r matches Ok(_)),
                    Some(d) => match m0.primary_key {
                        Some(k) => if d == k {
                            m1 == m0 && (r matches Ok(_))
                        } else {
                            r == Err::<crate::index_actor::IndexMeta, Error>(
                                Error::PrimaryKeyMismatch,
                            ) && m1 == m0
                        },
                        None => (r matches Ok(_)) && m1 == (crate::index_actor::IndexModel {
                            created_at: m0.created_at,
                            updated_at: now,
                            primary_key: Some(d),
                            settings: m0.settings,
                            documents: m0.documents,
                        }),
                    },
                }
                &&& (r matches Ok(meta) ==> meta.created_at == m1.created_at && meta.updated_at
                    == m1.updated_at && meta.primary_key.deep_view() == m1.primary_key
                    && meta.number_of_documents == m1.documents.len())
            }),
    {
        self.index_handle.update_index(uuid, primary_key, now)
    }

    /// Whether an upload is in flight on index `uuid`, so a caller can
    /// test before opening one.
    pub fn upload_in_flight(&self, uuid: u128) -> (r: bool)
        requires
            self.wf(),
        ensures
            r == (store_pending(self.stores_map(), uuid) is Some),
    {
        match self.position_of_store(uuid) {
            Some(i) => {
                proof {
                    assoc::lemma_key_index_unique(self.stores_map(), i as int, uuid);
                }
                self.stores[i].1.upload_in_flight()
            },
            None => false,
        }
    }

    /// Whether index `uuid` still has jobs that need work.
    pub fn is_indexing(&self, uuid: u128) -> (r: bool)
        requires
            self.wf(),
        ensures
            r == exists|i: int|
                0 <= i < store_queue(self.stores_map(), uuid).len() && !(#[trigger] store_queue(
                    self.stores_map(),
                    uuid,
                )[i]).is_terminal(),
    {
        match self.position_of_store(uuid) {
            Some(i) => {
                proof {
                    assoc::lemma_key_index_unique(self.stores_map(), i as int, uuid);
                    assert(store_queue(self.stores_map(), uuid) == self.stores@[i as int].1.queue());
                }
                self.stores[i].1.has_pending_work()
            },
            None => {
                proof {
                    assert(store_queue(self.stores_map(), uuid) =~= Seq::<StatusModel>::empty());
                }
                false
            },
        }
    }

    /// The per-field document counts of index `uuid` in the worker.
    pub fn fields_distribution(&self, uuid: u128) -> (r: Result<Vec<(String, u64)>, Error>)
        requires
            self.wf(),
        ensures
            !assoc::contains_key(self.index_handle.map(), uuid) ==> r == Err::<
                Vec<(String, u64)>,
                Error,
            >(Error::NotFound),
            assoc::contains_key(self.index_handle.map(), uuid) ==> ({
                let docs = assoc::value_of(self.index_handle.map(), uuid).documents;
                r matches Ok(v) && (forall|i: int|
                    0 <= i < v.deep_view().len() ==> (#[trigger] v.deep_view()[i]).1
                        == crate::index_actor::count_with_field(docs, v.deep_view()[i].0)
                        && v.deep_view()[i].1 >= 1) && (forall|d: int, f: int|
                    0 <= d < docs.len() && 0 <= f < docs[d].1.len() ==> assoc::contains_key(
                        v.deep_view(),
                        (#[trigger] docs[d].1[f]).0,
                    ))
            }),
    {
        self.index_handle.fields_distribution(uuid)
    }

    /// Dumps the queue of index `uuid` for a snapshot, in submission
    /// order; fails for an id that has no store.
    pub fn snapshot(&self, uuid: u128) -> (r: Result<Vec<UpdateStatus>, Error>)
        requires
            self.wf(),
        ensures
            !assoc::contains_key(self.stores_map(), uuid) ==> r == Err::<Vec<UpdateStatus>, Error>(
                Error::NotFound,
            ),
            assoc::contains_key(self.stores_map(), uuid) ==> (r matches Ok(v) && v.deep_view()
                == store_queue(self.stores_map(), uuid)),
    {
        match self.position_of_store(uuid) {
            Some(i) => {
                proof {
                    assoc::lemma_key_index_unique(self.stores_map(), i as int, uuid);
                }
                Ok(self.stores[i].1.dump())
            },
            None => Err(Error::NotFound),
        }
    }
}

} // verus!
