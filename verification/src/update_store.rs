//! Update store: per-index durable FIFO of update jobs and their payload
//! blobs.
//!
//! A job is submitted as `Enqueued`, is picked up by the single per-index
//! processing loop as `Processing`, and ends immutable as `Processed` or
//! `Failed`. Payload blobs live on disk beside the queue; the store tracks
//! which blob files exist so that a blob is present exactly while a
//! non-terminal job (or an upload still in flight) needs it. Contracts are
//! stated over deep views, so that a job's metadata is pinned through every
//! copy the store hands out.

use vstd::prelude::*;

use crate::error::Error;

verus! {

/// How an `AddDocuments` job combines incoming documents with stored ones.
#[derive(Clone, Copy, Debug, PartialEq, Eq, Structural)]
pub enum IndexDocumentsMethod {
    /// Incoming documents overwrite stored documents with the same key.
    ReplaceDocuments,
    /// Incoming documents merge field-wise into stored documents.
    UpdateDocuments,
}

/// The declared encoding of a document payload.
#[derive(Clone, Copy, Debug, PartialEq, Eq, Structural)]
pub enum UpdateFormat {
    Json,
    Ndjson,
    Csv,
}

/// What the engine reports for a successfully applied job.
#[derive(Clone, Copy, Debug, PartialEq, Eq, Structural)]
pub enum UpdateResult {
    DocumentsAddition { nb_documents: usize },
    DocumentDeletion { deleted: usize },
    Other,
}

/// Index configuration carried by an `UpdateSettings` job. An opaque,
/// serializable record as far as the pipeline is concerned.
#[derive(Debug)]
pub struct Settings {
    pub displayed_attributes: Option<Vec<String>>,
    pub searchable_attributes: Option<Vec<String>>,
    pub ranking_rules: Option<Vec<String>>,
    pub stop_words: Option<Vec<String>>,
    pub distinct_attribute: Option<String>,
    pub primary_key: Option<String>,
}

/// Mathematical value of a `Settings` record.
pub struct SettingsModel {
    pub displayed_attributes: Option<Seq<Seq<char>>>,
    pub searchable_attributes: Option<Seq<Seq<char>>>,
    pub ranking_rules: Option<Seq<Seq<char>>>,
    pub stop_words: Option<Seq<Seq<char>>>,
    pub distinct_attribute: Option<Seq<char>>,
    pub primary_key: Option<Seq<char>>,
}

impl DeepView for Settings {
    type V = SettingsModel;

    open spec fn deep_view(&self) -> SettingsModel {
        SettingsModel {
            displayed_attributes: self.displayed_attributes.deep_view(),
            searchable_attributes: self.searchable_attributes.deep_view(),
            ranking_rules: self.ranking_rules.deep_view(),
            stop_words: self.stop_words.deep_view(),
            distinct_attribute: self.distinct_attribute.deep_view(),
            primary_key: self.primary_key.deep_view(),
        }
    }
}

/// The tagged description of a submitted unit of work.
#[derive(Debug)]
pub enum UpdateMeta {
    AddDocuments {
        method: IndexDocumentsMethod,
        format: UpdateFormat,
        primary_key: Option<String>,
    },
    UpdateSettings { settings: Settings },
    ClearDocuments,
    DeleteDocuments { ids: Vec<String> },
}

/// Mathematical value of an `UpdateMeta`.
pub enum MetaModel {
    AddDocuments {
        method: IndexDocumentsMethod,
        format: UpdateFormat,
        primary_key: Option<Seq<char>>,
    },
    UpdateSettings { settings: SettingsModel },
    ClearDocuments,
    DeleteDocuments { ids: Seq<Seq<char>> },
}

impl DeepView for UpdateMeta {
    type V = MetaModel;

    open spec fn deep_view(&self) -> MetaModel {
        match self {
            UpdateMeta::AddDocuments { method, format, primary_key } => MetaModel::AddDocuments {
                method: *method,
                format: *format,
                primary_key: primary_key.deep_view(),
            },
            UpdateMeta::UpdateSettings { settings } => MetaModel::UpdateSettings {
                settings: settings.deep_view(),
            },
            UpdateMeta::ClearDocuments => MetaModel::ClearDocuments,
            UpdateMeta::DeleteDocuments { ids } => MetaModel::DeleteDocuments {
                ids: ids.deep_view(),
            },
        }
    }
}

/// A job as first recorded: id, description, optional payload blob, and the
/// submission timestamp (milliseconds).
#[derive(Debug)]
pub struct Enqueued {
    pub update_id: u64,
    pub meta: UpdateMeta,
    pub payload: Option<u64>,
    pub enqueued_at: i64,
}

/// Mathematical value of an `Enqueued` record.
pub struct EnqueuedModel {
    pub update_id: u64,
    pub meta: MetaModel,
    pub payload: Option<u64>,
    pub enqueued_at: i64,
}

impl DeepView for Enqueued {
    type V = EnqueuedModel;

    open spec fn deep_view(&self) -> EnqueuedModel {
        EnqueuedModel {
            update_id: self.update_id,
            meta: self.meta.deep_view(),
            payload: self.payload,
            enqueued_at: self.enqueued_at,
        }
    }
}

/// The single in-flight job of an index.
#[derive(Debug)]
pub struct Processing {
    pub from: Enqueued,
    pub started_at: i64,
}

/// Mathematical value of a `Processing` record.
pub struct ProcessingModel {
    pub from: EnqueuedModel,
    pub started_at: i64,
}

impl DeepView for Processing {
    type V = ProcessingModel;

    open spec fn deep_view(&self) -> ProcessingModel {
        ProcessingModel { from: self.from.deep_view(), started_at: self.started_at }
    }
}

/// A job in one of its four lifecycle states. `Processed` and `Failed` are
/// terminal and immutable.
#[derive(Debug)]
#[allow(inconsistent_fields)]
pub enum UpdateStatus {
    Enqueued { from: Enqueued },
    Processing { from: Processing },
    Processed { from: Processing, result: UpdateResult, finished_at: i64 },
    Failed { from: Processing, error: Error, finished_at: i64 },
}

/// Mathematical value of an `UpdateStatus`. The error of a failed job is
/// kept as the error value itself: copies of an error are exact.
#[allow(inconsistent_fields)]
pub enum StatusModel {
    Enqueued { from: EnqueuedModel },
    Processing { from: ProcessingModel },
    Processed { from: ProcessingModel, result: UpdateResult, finished_at: i64 },
    Failed { from: ProcessingModel, error: Error, finished_at: i64 },
}

impl DeepView for UpdateStatus {
    type V = StatusModel;

    open spec fn deep_view(&self) -> StatusModel {
        match self {
            UpdateStatus::Enqueued { from } => StatusModel::Enqueued { from: from.deep_view() },
            UpdateStatus::Processing { from } => StatusModel::Processing {
                from: from.deep_view(),
            },
            UpdateStatus::Processed { from, result, finished_at } => StatusModel::Processed {
                from: from.deep_view(),
                result: *result,
                finished_at: *finished_at,
            },
            UpdateStatus::Failed { from, error, finished_at } => StatusModel::Failed {
                from: from.deep_view(),
                error: *error,
                finished_at: *finished_at,
            },
        }
    }
}

impl StatusModel {
    /// The job's per-index update id.
    pub open spec fn id(&self) -> u64 {
        match self {
            StatusModel::Enqueued { from } => from.update_id,
            StatusModel::Processing { from } => from.from.update_id,
            StatusModel::Processed { from, .. } => from.from.update_id,
            StatusModel::Failed { from, .. } => from.from.update_id,
        }
    }

    /// The payload blob the job references, if any.
    pub open spec fn payload_ref(&self) -> Option<u64> {
        match self {
            StatusModel::Enqueued { from } => from.payload,
            StatusModel::Processing { from } => from.from.payload,
            StatusModel::Processed { from, .. } => from.from.payload,
            StatusModel::Failed { from, .. } => from.from.payload,
        }
    }

    /// The job's description.
    pub open spec fn meta(&self) -> MetaModel {
        match self {
            StatusModel::Enqueued { from } => from.meta,
            StatusModel::Processing { from } => from.from.meta,
            StatusModel::Processed { from, .. } => from.from.meta,
            StatusModel::Failed { from, .. } => from.from.meta,
        }
    }

    pub open spec fn is_terminal(&self) -> bool {
        self is Processed || self is Failed
    }

    pub open spec fn is_processing(&self) -> bool {
        self is Processing
    }

    pub open spec fn is_enqueued(&self) -> bool {
        self is Enqueued
    }

    /// Lifecycle rank: jobs only move to higher stages, and within a queue
    /// stages never increase from front to back.
    pub open spec fn stage(&self) -> int {
        if self.is_terminal() {
            2
        } else if self.is_processing() {
            1
        } else {
            0
        }
    }
}

/// Copies a list of strings; string copies are exact.
fn clone_string_vec(v: &Vec<String>) -> (r: Vec<String>)
    ensures
        r.deep_view() == v.deep_view(),
{
    let mut out: Vec<String> = Vec::new();
    let mut k: usize = 0;
    while k < v.len()
        invariant
            k <= v.len(),
            out@.len() == k,
            forall|i: int| 0 <= i < k ==> (#[trigger] out@[i])@ == v@[i]@,
        decreases v.len() - k,
    {
        out.push(v[k].clone());
        k += 1;
    }
    proof {
        assert(out.deep_view() =~= v.deep_view());
    }
    out
}

/// Copies an optional list of strings.
fn clone_opt_string_vec(v: &Option<Vec<String>>) -> (r: Option<Vec<String>>)
    ensures
        r.deep_view() == v.deep_view(),
{
    match v {
        Some(inner) => Some(clone_string_vec(inner)),
        None => None,
    }
}

/// Copies an optional string; the copy is exact.
fn clone_opt_string(v: &Option<String>) -> (r: Option<String>)
    ensures
        r == *v,
{
    match v {
        Some(s) => Some(s.clone()),
        None => None,
    }
}

impl Settings {
    /// Deep copy with the same mathematical value.
    pub fn duplicate(&self) -> (r: Settings)
        ensures
            r.deep_view() == self.deep_view(),
    {
        Settings {
            displayed_attributes: clone_opt_string_vec(&self.displayed_attributes),
            searchable_attributes: clone_opt_string_vec(&self.searchable_attributes),
            ranking_rules: clone_opt_string_vec(&self.ranking_rules),
            stop_words: clone_opt_string_vec(&self.stop_words),
            distinct_attribute: clone_opt_string(&self.distinct_attribute),
            primary_key: clone_opt_string(&self.primary_key),
        }
    }
}

impl UpdateMeta {
    /// Deep copy with the same mathematical value.
    pub fn duplicate(&self) -> (r: UpdateMeta)
        ensures
            r.deep_view() == self.deep_view(),
    {
        match self {
            UpdateMeta::AddDocuments { method, format, primary_key } => UpdateMeta::AddDocuments {
                method: *method,
                format: *format,
                primary_key: clone_opt_string(primary_key),
            },
            UpdateMeta::UpdateSettings { settings } => UpdateMeta::UpdateSettings {
                settings: settings.duplicate(),
            },
            UpdateMeta::ClearDocuments => UpdateMeta::ClearDocuments,
            UpdateMeta::DeleteDocuments { ids } => UpdateMeta::DeleteDocuments {
                ids: clone_string_vec(ids),
            },
        }
    }
}

impl Enqueued {
    /// Deep copy with the same mathematical value.
    pub fn duplicate(&self) -> (r: Enqueued)
        ensures
            r.deep_view() == self.deep_view(),
    {
        Enqueued {
            update_id: self.update_id,
            meta: self.meta.duplicate(),
            payload: self.payload,
            enqueued_at: self.enqueued_at,
        }
    }
}

impl Processing {
    /// Deep copy with the same mathematical value.
    pub fn duplicate(&self) -> (r: Processing)
        ensures
            r.deep_view() == self.deep_view(),
    {
        Processing { from: self.from.duplicate(), started_at: self.started_at }
    }
}

impl UpdateStatus {
    /// Deep copy with the same mathematical value.
    pub fn duplicate(&self) -> (r: UpdateStatus)
        ensures
            r.deep_view() == self.deep_view(),
    {
        match self {
            UpdateStatus::Enqueued { from } => UpdateStatus::Enqueued { from: from.duplicate() },
            UpdateStatus::Processing { from } => UpdateStatus::Processing {
                from: from.duplicate(),
            },
            UpdateStatus::Processed { from, result, finished_at } => UpdateStatus::Processed {
                from: from.duplicate(),
                result: *result,
                finished_at: *finished_at,
            },
            UpdateStatus::Failed { from, error, finished_at } => UpdateStatus::Failed {
                from: from.duplicate(),
                error: error.duplicate(),
                finished_at: *finished_at,
            },
        }
    }

    /// True exactly for the two terminal states.
    pub fn state_terminal(&self) -> (r: bool)
        ensures
            r == self.deep_view().is_terminal(),
    {
        match self {
            UpdateStatus::Processed { .. } => true,
            UpdateStatus::Failed { .. } => true,
            _ => false,
        }
    }

    /// True exactly for the in-flight state.
    pub fn state_processing(&self) -> (r: bool)
        ensures
            r == self.deep_view().is_processing(),
    {
        match self {
            UpdateStatus::Processing { .. } => true,
            _ => false,
        }
    }
}

/// Elements are pairwise distinct.
pub open spec fn unique_elems(s: Seq<u64>) -> bool {
    forall|i: int, j: int| 0 <= i < j < s.len() ==> s[i] != s[j]
}

/// Appending a fresh element: membership grows by exactly that element.
proof fn lemma_push_elem(s: Seq<u64>, e: u64)
    ensures
        s.push(e).contains(e),
        forall|x: u64| #[trigger] s.push(e).contains(x) == (s.contains(x) || x == e),
        unique_elems(s) && !s.contains(e) ==> unique_elems(s.push(e)),
{
    let t = s.push(e);
    assert(t[s.len() as int] == e);
    assert forall|x: u64| #[trigger] t.contains(x) == (s.contains(x) || x == e) by {
        if s.contains(x) {
            let i = choose|i: int| 0 <= i < s.len() && s[i] == x;
            assert(t[i] == x);
        }
        if t.contains(x) && x != e {
            let i = choose|i: int| 0 <= i < t.len() && t[i] == x;
            assert(i < s.len() && s[i] == x);
        }
    }
}

/// Removing one element of a duplicate-free sequence: membership shrinks by
/// exactly that element.
proof fn lemma_remove_elem(s: Seq<u64>, i: int)
    requires
        0 <= i < s.len(),
        unique_elems(s),
    ensures
        !s.remove(i).contains(s[i]),
        forall|x: u64| x != s[i] ==> #[trigger] s.remove(i).contains(x) == s.contains(x),
        unique_elems(s.remove(i)),
{
    let t = s.remove(i);
    s.remove_ensures(i);
    assert forall|j: int| 0 <= j < t.len() implies t[j] != s[i] by {
        if j < i {
            assert(t[j] == s[j]);
        } else {
            assert(t[j] == s[j + 1]);
        }
    }
    assert forall|x: u64| x != s[i] && s.contains(x) implies t.contains(x) by {
        let j = choose|j: int| 0 <= j < s.len() && s[j] == x;
        if j < i {
            assert(t[j] == s[j]);
        } else {
            assert(t[j - 1] == s[j]);
        }
    }
    assert forall|x: u64| x != s[i] && t.contains(x) implies s.contains(x) by {
        let j = choose|j: int| 0 <= j < t.len() && t[j] == x;
        if j < i {
            assert(s[j] == x);
        } else {
            assert(s[j + 1] == x);
        }
    }
}

/// `k` is the position of the first job that still needs work: everything
/// before it is terminal, and it is not.
pub open spec fn is_pending_boundary(q: Seq<StatusModel>, k: int) -> bool {
    0 <= k < q.len() && !q[k].is_terminal() && (forall|j: int|
        0 <= j < k ==> (#[trigger] q[j]).is_terminal())
}

/// The position of the first job that still needs work.
pub open spec fn first_pending(q: Seq<StatusModel>) -> int {
    choose|k: int| is_pending_boundary(q, k)
}

/// The position of the in-flight job.
pub open spec fn processing_index(q: Seq<StatusModel>) -> int {
    choose|i: int| 0 <= i < q.len() && (#[trigger] q[i]).is_processing()
}

/// Some job is in flight.
pub open spec fn has_processing(q: Seq<StatusModel>) -> bool {
    exists|i: int| 0 <= i < q.len() && (#[trigger] q[i]).is_processing()
}

/// The record a finished job settles into: `Processed` carries the engine's
/// result, `Failed` the error; both keep the job they came from.
pub open spec fn finished_status(
    from: ProcessingModel,
    outcome: Result<UpdateResult, Error>,
    finished_at: i64,
) -> StatusModel {
    match outcome {
        Ok(res) => StatusModel::Processed { from, result: res, finished_at },
        Err(e) => StatusModel::Failed { from, error: e, finished_at },
    }
}

/// There is at most one pending boundary.
pub proof fn lemma_boundary_unique(q: Seq<StatusModel>, a: int, b: int)
    requires
        is_pending_boundary(q, a),
        is_pending_boundary(q, b),
    ensures
        a == b,
{
    if a < b {
        assert(q[a].is_terminal());
    }
    if b < a {
        assert(q[b].is_terminal());
    }
}

/// Per-index durable queue of update jobs plus the payload blob files that
/// belong to them.
pub struct UpdateStore {
    jobs: Vec<UpdateStatus>,
    next_update_id: u64,
    blobs: Vec<u64>,
    next_blob: u64,
    pending_upload: Option<u64>,
}

impl UpdateStore {
    /// The queue of job records, in submission order.
    pub closed spec fn queue(&self) -> Seq<StatusModel> {
        self.jobs.deep_view()
    }

    /// The payload blob files currently on disk.
    pub closed spec fn blob_files(&self) -> Seq<u64> {
        self.blobs@
    }

    /// The blob of an upload still in flight, not yet tied to a job.
    pub closed spec fn pending(&self) -> Option<u64> {
        self.pending_upload
    }

    /// The id the next submission will get.
    pub closed spec fn id_counter(&self) -> u64 {
        self.next_update_id
    }

    /// The name the next blob file will get.
    pub closed spec fn blob_counter(&self) -> u64 {
        self.next_blob
    }

    /// Some non-terminal job references blob `b`.
    pub open spec fn job_justifies_blob(&self, b: u64) -> bool {
        exists|i: int|
            0 <= i < self.queue().len() && !(#[trigger] self.queue()[i]).is_terminal()
                && self.queue()[i].payload_ref() == Some(b)
    }

    /// The store's invariant.
    ///
    /// Ids are dense in submission order; job states only step forward, so
    /// terminal records form a prefix and at most one job is in flight; and
    /// a blob file exists exactly while a non-terminal job references it or
    /// an upload is in flight.
    pub open spec fn wf(&self) -> bool {
        &&& self.id_counter() as int == self.queue().len()
        &&& forall|i: int| 0 <= i < self.queue().len() ==> (#[trigger] self.queue()[i]).id() == i
        &&& forall|i: int, j: int|
            0 <= i < j < self.queue().len() ==> (#[trigger] self.queue()[i]).stage() >= (
            #[trigger] self.queue()[j]).stage()
        &&& forall|i: int, j: int|
            0 <= i < j < self.queue().len() ==> !((#[trigger] self.queue()[i]).is_processing()
                && (#[trigger] self.queue()[j]).is_processing())
        &&& forall|i: int, j: int|
            0 <= i < j < self.queue().len() && (#[trigger] self.queue()[i]).payload_ref() is Some
                ==> self.queue()[i].payload_ref() != (#[trigger] self.queue()[j]).payload_ref()
        &&& forall|i: int|
            0 <= i < self.queue().len() ==> ((#[trigger] self.queue()[i]).payload_ref() matches
            Some(b) ==> b < self.blob_counter() && self.pending() != Some(b))
        &&& forall|b: u64| #[trigger] self.blob_files().contains(b) ==> b < self.blob_counter()
        &&& (self.pending() matches Some(b) ==> b < self.blob_counter()
            && self.blob_files().contains(b))
        &&& unique_elems(self.blob_files())
        &&& forall|b: u64|
            #[trigger] self.blob_files().contains(b) <==> (self.pending() == Some(b)
                || self.job_justifies_blob(b))
    }

    /// An empty store.
    pub fn new() -> (r: UpdateStore)
        ensures
            r.wf(),
            r.queue() == Seq::<StatusModel>::empty(),
            r.blob_files() == Seq::<u64>::empty(),
            r.pending() is None,
            r.blob_counter() == 0,
    {
        let s = UpdateStore {
            jobs: Vec::new(),
            next_update_id: 0,
            blobs: Vec::new(),
            next_blob: 0,
            pending_upload: None,
        };
        proof {
            assert(s.queue() =~= Seq::<StatusModel>::empty());
            assert(s.blob_files() =~= Seq::<u64>::empty());
        }
        s
    }

    /// Whether any job still needs work.
    pub fn has_pending_work(&self) -> (r: bool)
        ensures
            r == exists|i: int|
                0 <= i < self.queue().len() && !(#[trigger] self.queue()[i]).is_terminal(),
    {
        let mut k: usize = 0;
        while k < self.jobs.len()
            invariant
                k <= self.jobs.len(),
                forall|j: int| 0 <= j < k ==> (#[trigger] self.queue()[j]).is_terminal(),
            decreases self.jobs.len() - k,
        {
            if !self.jobs[k].state_terminal() {
                proof {
                    assert(!(#[trigger] self.queue()[k as int]).is_terminal());
                }
                return true;
            }
            k += 1;
        }
        proof {
            if exists|i: int| 0 <= i < self.queue().len() && !(#[trigger] self.queue()[i]).is_terminal() {
                let i = choose|i: int|
                    0 <= i < self.queue().len() && !(#[trigger] self.queue()[i]).is_terminal();
                assert(self.queue()[i].is_terminal());
            }
        }
        false
    }

    /// Whether an upload is in flight.
    pub fn upload_in_flight(&self) -> (r: bool)
        ensures
            r == (self.pending() is Some),
    {
        match self.pending_upload {
            Some(_) => true,
            None => false,
        }
    }

    /// Position of blob `b` in the file list.
    fn blob_position(&self, b: u64) -> (r: Option<usize>)
        ensures
            match r {
                Some(i) => i < self.blob_files().len() && self.blob_files()[i as int] == b,
                None => !self.blob_files().contains(b),
            },
    {
        let mut k: usize = 0;
        while k < self.blobs.len()
            invariant
                k <= self.blobs.len(),
                forall|j: int| 0 <= j < k ==> self.blobs@[j] != b,
            decreases self.blobs.len() - k,
        {
            if self.blobs[k] == b {
                return Some(k);
            }
            k += 1;
        }
        None
    }

    /// Opens an upload: names a fresh blob file that the caller streams the
    /// payload into. The blob exists from here on; it is tied to a job by
    /// `register_update` or discarded by `abort_upload`.
    pub fn begin_upload(&mut self) -> (r: Result<u64, Error>)
        requires
            old(self).wf(),
            old(self).pending() is None,
        ensures
            final(self).wf(),
            r matches Err(e) ==> e is Internal && *final(self) == *old(self),
            old(self).blob_counter() < u64::MAX ==> r is Ok,
            r matches Ok(b) ==> final(self).pending() == Some(b) && final(self).queue() == old(self).queue() && final(self).blob_files() == old(self).blob_files().push(b) && !old(self).blob_files().contains(b),
    {
        if self.next_blob == u64::MAX {
            return Err(Error::Internal { cause: "blob name space exhausted".to_owned() });
        }
        let b = self.next_blob;
        proof {
            lemma_push_elem(self.blobs@, b);
        }
        self.next_blob = self.next_blob + 1;
        self.blobs.push(b);
        self.pending_upload = Some(b);
        Ok(b)
    }

    /// Discards an upload the client abandoned: the blob file is removed
    /// and the queue is untouched, so the aborted upload leaves no trace.
    pub fn abort_upload(&mut self)
        requires
            old(self).wf(),
            old(self).pending() is Some,
        ensures
            final(self).wf(),
            final(self).queue() == old(self).queue(),
            final(self).pending() is None,
            forall|x: u64|
                #[trigger] final(self).blob_files().contains(x) == (old(self).blob_files().contains(x) && old(self).pending() != Some(x)),
    {
        let b = match self.pending_upload {
            Some(b) => b,
            None => unreached(),
        };
        let pos = match self.blob_position(b) {
            Some(pos) => pos,
            None => unreached(),
        };
        proof {
            lemma_remove_elem(self.blobs@, pos as int);
        }
        self.blobs.remove(pos);
        self.pending_upload = None;
    }

    /// Records a submission: allocates the next update id, ties the pending
    /// upload (if any) to the job as its payload, and appends the job as
    /// `Enqueued`. Returns the initial status without waiting for
    /// processing.
    pub fn register_update(&mut self, meta: UpdateMeta, enqueued_at: i64) -> (r: Result<
        Enqueued,
        Error,
    >)
        requires
            old(self).wf(),
        ensures
            final(self).wf(),
            r matches Err(e) ==> e is Internal && *final(self) == *old(self),
            old(self).queue().len() < u64::MAX ==> r is Ok,
            r matches Ok(e) ==> e.deep_view() == (EnqueuedModel {
                update_id: old(self).queue().len() as u64,
                meta: meta.deep_view(),
                payload: old(self).pending(),
                enqueued_at,
            }) && final(self).queue() == old(self).queue().push(
                StatusModel::Enqueued { from: e.deep_view() },
            ) && final(self).blob_files() == old(self).blob_files() && final(self).pending() is
                None,
    {
        if self.next_update_id == u64::MAX {
            return Err(Error::Internal { cause: "update id space exhausted".to_owned() });
        }
        let payload = self.pending_upload;
        self.pending_upload = None;
        let e = Enqueued { update_id: self.next_update_id, meta, payload, enqueued_at };
        let dup = e.duplicate();
        let ghost pre = self.queue();
        self.jobs.push(UpdateStatus::Enqueued { from: dup });
        self.next_update_id = self.next_update_id + 1;
        proof {
            assert(self.queue() =~= pre.push(StatusModel::Enqueued { from: e.deep_view() }));
            let q = self.queue();
            let m = pre.len() as int;
            assert(q[m].payload_ref() == old(self).pending());
            assert(q[m].stage() == 0);
            assert forall|b: u64| #[trigger] self.blob_files().contains(b) implies (self.pending()
                == Some(b) || self.job_justifies_blob(b)) by {
                if old(self).pending() == Some(b) {
                    assert(!q[m].is_terminal() && q[m].payload_ref() == Some(b));
                    assert(self.job_justifies_blob(b));
                } else {
                    assert(old(self).job_justifies_blob(b));
                    let i = choose|i: int|
                        0 <= i < pre.len() && !(#[trigger] pre[i]).is_terminal()
                            && pre[i].payload_ref() == Some(b);
                    assert(!q[i].is_terminal() && q[i].payload_ref() == Some(b));
                    assert(self.job_justifies_blob(b));
                }
            }
            assert forall|b: u64| self.job_justifies_blob(b) implies #[trigger] self.blob_files().contains(
                b,
            ) by {
                let i = choose|i: int|
                    0 <= i < q.len() && !(#[trigger] q[i]).is_terminal() && q[i].payload_ref()
                        == Some(b);
                if i < m {
                    assert(!pre[i].is_terminal() && pre[i].payload_ref() == Some(b));
                    assert(old(self).job_justifies_blob(b));
                } else {
                    assert(old(self).pending() == Some(b));
                }
            }
        }
        Ok(e)
    }

    /// The status of update `update_id`, or `NotFound`.
    pub fn get(&self, update_id: u64) -> (r: Result<UpdateStatus, Error>)
        ensures
            update_id < self.queue().len() ==> match r {
                Ok(s) => s.deep_view() == self.queue()[update_id as int],
                Err(_) => false,
            },
            update_id >= self.queue().len() ==> r == Err::<UpdateStatus, Error>(Error::NotFound),
    {
        if update_id < self.jobs.len() as u64 {
            Ok(self.jobs[update_id as usize].duplicate())
        } else {
            Err(Error::NotFound)
        }
    }

    /// All statuses, newest first.
    pub fn list(&self) -> (r: Vec<UpdateStatus>)
        ensures
            r.deep_view().len() == self.queue().len(),
            forall|i: int|
                0 <= i < r.deep_view().len() ==> #[trigger] r.deep_view()[i] == self.queue()[
                    self.queue().len() - 1 - i],
    {
        let mut out: Vec<UpdateStatus> = Vec::new();
        let mut k: usize = self.jobs.len();
        while k > 0
            invariant
                k <= self.jobs.len(),
                out@.len() == self.jobs.len() - k,
                forall|i: int|
                    0 <= i < out@.len() ==> (#[trigger] out@[i]).deep_view() == self.queue()[
                        self.queue().len() - 1 - i],
            decreases k,
    	{
            k -= 1;
            out.push(self.jobs[k].duplicate());
        }
        out
    }

    /// A copy of the queue in submission order, as a snapshot dumps it.
    pub fn dump(&self) -> (r: Vec<UpdateStatus>)
        ensures
            r.deep_view() == self.queue(),
    {
        let mut out: Vec<UpdateStatus> = Vec::new();
        let mut k: usize = 0;
        while k < self.jobs.len()
            invariant
                k <= self.jobs.len(),
                out@.len() == k,
                forall|i: int|
                    0 <= i < k ==> (#[trigger] out@[i]).deep_view() == self.queue()[i],
            decreases self.jobs.len() - k,
        {
            out.push(self.jobs[k].duplicate());
            k += 1;
        }
        proof {
            assert(out.deep_view() =~= self.queue());
        }
        out
    }

    /// Hands the processing loop its next job: the first `Enqueued` job
    /// moves to `Processing`, or a job left `Processing` by a crash is
    /// handed out again unchanged (work is re-executed, never skipped).
    /// `None` means every job is terminal.
    pub fn next_job(&mut self, started_at: i64) -> (r: Option<Processing>)
        requires
            old(self).wf(),
        ensures
            final(self).wf(),
            match r {
                None => *final(self) == *old(self) && (forall|i: int|
                    0 <= i < old(self).queue().len() ==> (#[trigger] old(self).queue()[i]).is_terminal()),
                Some(p) => ({
                    let k = first_pending(old(self).queue());
                    &&& is_pending_boundary(old(self).queue(), k)
                    &&& if old(self).queue()[k].is_processing() {
                        *final(self) == *old(self) && StatusModel::Processing {
                            from: p.deep_view(),
                        } == old(self).queue()[k]
                    } else {
                        old(self).queue()[k] matches StatusModel::Enqueued { from }
                            && p.deep_view() == (ProcessingModel { from, started_at }) && final(self).queue() == old(self).queue().update(
                            k,
                            StatusModel::Processing { from: p.deep_view() },
                        ) && final(self).blob_files() == old(self).blob_files() && final(self).pending() == old(self).pending()
                    }
                }),
            },
    {
        let n = self.jobs.len();
        let mut k: usize = 0;
        while k < n && self.jobs[k].state_terminal()
            invariant
                n == self.jobs.len(),
                k <= n,
                forall|j: int| 0 <= j < k ==> (#[trigger] self.queue()[j]).is_terminal(),
            decreases n - k,
        {
            k += 1;
        }
        if k == n {
            return None;
        }
        proof {
            assert(is_pending_boundary(self.queue(), k as int));
            lemma_boundary_unique(self.queue(), first_pending(self.queue()), k as int);
        }
        if self.jobs[k].state_processing() {
            let p = match &self.jobs[k] {
                UpdateStatus::Processing { from } => from.duplicate(),
                _ => unreached(),
            };
            return Some(p);
        }
        let from0 = match &self.jobs[k] {
            UpdateStatus::Enqueued { from } => from.duplicate(),
            _ => unreached(),
        };
        let p = Processing { from: from0, started_at };
        let stored = UpdateStatus::Processing { from: p.duplicate() };
        let ghost pre = self.queue();
        self.jobs[k] = stored;
        proof {
            assert(self.queue() =~= pre.update(
                k as int,
                StatusModel::Processing { from: p.deep_view() },
            ));
            let q = self.queue();
            let ki = k as int;
            assert(q[ki].payload_ref() == pre[ki].payload_ref());
            assert(q[ki].id() == pre[ki].id());
            assert(q[ki].stage() == 1);
            assert forall|b: u64| #[trigger] self.blob_files().contains(b) implies (self.pending()
                == Some(b) || self.job_justifies_blob(b)) by {
                if old(self).job_justifies_blob(b) {
                    let i = choose|i: int|
                        0 <= i < pre.len() && !(#[trigger] pre[i]).is_terminal()
                            && pre[i].payload_ref() == Some(b);
                    assert(!q[i].is_terminal() && q[i].payload_ref() == Some(b));
                    assert(self.job_justifies_blob(b));
                }
            }
            assert forall|b: u64| self.job_justifies_blob(b) implies #[trigger] self.blob_files().contains(
                b,
            ) by {
                let i = choose|i: int|
                    0 <= i < q.len() && !(#[trigger] q[i]).is_terminal() && q[i].payload_ref()
                        == Some(b);
                assert(!pre[i].is_terminal() && pre[i].payload_ref() == Some(b));
                assert(old(self).job_justifies_blob(b));
            }
        }
        Some(p)
    }

    /// Settles the in-flight job into its terminal state and deletes its
    /// payload blob. The terminal record is immutable from here on.
    pub fn finish(&mut self, outcome: Result<UpdateResult, Error>, finished_at: i64) -> (r: Result<
        UpdateStatus,
        Error,
    >)
        requires
            old(self).wf(),
        ensures
            final(self).wf(),
            !has_processing(old(self).queue()) ==> (r matches Err(e) && e is Internal) && *final(self) == *old(self),
            has_processing(old(self).queue()) ==> ({
                let k = processing_index(old(self).queue());
                let t = finished_status(
                    old(self).queue()[k].processing_core(),
                    outcome,
                    finished_at,
                );
                &&& match r {
                    Ok(s) => s.deep_view() == t,
                    Err(_) => false,
                }
                &&& final(self).queue() == old(self).queue().update(k, t)
                &&& final(self).pending() == old(self).pending()
                &&& forall|x: u64|
                    #[trigger] final(self).blob_files().contains(x) == (old(self).blob_files().contains(x) && Some(x) != old(self).queue()[k].payload_ref())
            }),
    {
        let n = self.jobs.len();
        let mut k: usize = 0;
        while k < n && !self.jobs[k].state_processing()
            invariant
                n == self.jobs.len(),
                k <= n,
                forall|j: int| 0 <= j < k ==> !(#[trigger] self.queue()[j]).is_processing(),
            decreases n - k,
        {
            k += 1;
        }
        if k == n {
            return Err(Error::Internal { cause: "no update is being processed".to_owned() });
        }
        proof {
            lemma_processing_unique(self.queue(), k as int);
        }
        let ghost oldq = self.queue();
        let ghost ki = k as int;
        let from_ex = match &self.jobs[k] {
            UpdateStatus::Processing { from } => from.duplicate(),
            _ => unreached(),
        };
        proof {
            assert(oldq[ki] == (StatusModel::Processing { from: from_ex.deep_view() }));
            assert(oldq[ki].payload_ref() == from_ex.from.payload);
        }
        let payload = from_ex.from.payload;
        if let Some(b) = payload {
            proof {
                assert(!oldq[ki].is_terminal() && oldq[ki].payload_ref() == Some(b));
                assert(self.job_justifies_blob(b));
            }
            let pos = match self.blob_position(b) {
                Some(pos) => pos,
                None => unreached(),
            };
            proof {
                lemma_remove_elem(self.blobs@, pos as int);
            }
            self.blobs.remove(pos);
        }
        proof {
            assert forall|x: u64|
                #[trigger] self.blob_files().contains(x) == (old(self).blob_files().contains(x)
                    && Some(x) != oldq[ki].payload_ref()) by {
                if payload is None {
                    assert(self.blob_files() == old(self).blob_files());
                }
            }
        }
        let stored = match outcome {
            Ok(res) => UpdateStatus::Processed { from: from_ex, result: res, finished_at },
            Err(e) => UpdateStatus::Failed { from: from_ex, error: e, finished_at },
        };
        let out = stored.duplicate();
        let ghost pre = self.queue();
        let ghost tgt = stored.deep_view();
        self.jobs[k] = stored;
        proof {
            assert(self.queue() =~= pre.update(ki, tgt));
            let q = self.queue();
            assert(q[ki].is_terminal());
            assert(q[ki].payload_ref() == oldq[ki].payload_ref());
            assert(q[ki].id() == oldq[ki].id());
            assert forall|i: int| 0 <= i < ki implies oldq[i].is_terminal() by {
                if !oldq[i].is_terminal() {
                    assert(oldq[i].stage() >= oldq[ki].stage());
                    assert(oldq[i].is_processing());
                    assert(!(oldq[i].is_processing() && oldq[ki].is_processing()));
                }
            }
            assert forall|x: u64| #[trigger] self.blob_files().contains(x) implies (self.pending()
                == Some(x) || self.job_justifies_blob(x)) by {
                if self.pending() != Some(x) {
                    assert(old(self).blob_files().contains(x));
                    assert(old(self).job_justifies_blob(x));
                    let i = choose|i: int|
                        0 <= i < oldq.len() && !(#[trigger] oldq[i]).is_terminal()
                            && oldq[i].payload_ref() == Some(x);
                    assert(Some(x) != oldq[ki].payload_ref());
                    assert(i != ki);
                    assert(!q[i].is_terminal() && q[i].payload_ref() == Some(x));
                    assert(self.job_justifies_blob(x));
                }
            }
            assert forall|x: u64| (self.pending() == Some(x) || self.job_justifies_blob(x))
                implies #[trigger] self.blob_files().contains(x) by {
                if self.pending() == Some(x) {
                    assert(old(self).blob_files().contains(x));
                    assert(Some(x) != oldq[ki].payload_ref());
                } else {
                    let i = choose|i: int|
                        0 <= i < q.len() && !(#[trigger] q[i]).is_terminal() && q[i].payload_ref()
                            == Some(x);
                    assert(i != ki);
                    assert(!oldq[i].is_terminal() && oldq[i].payload_ref() == Some(x));
                    assert(old(self).job_justifies_blob(x));
                    assert(old(self).blob_files().contains(x));
                    if oldq[ki].payload_ref() == Some(x) {
                        assert(false);
                    }
                }
            }
        }
        Ok(out)
    }
}

/// There is at most one in-flight job.
proof fn lemma_processing_unique(q: Seq<StatusModel>, b: int)
    requires
        forall|i: int, j: int|
            0 <= i < j < q.len() ==> !((#[trigger] q[i]).is_processing() && (
            #[trigger] q[j]).is_processing()),
        0 <= b < q.len(),
        q[b].is_processing(),
    ensures
        has_processing(q),
        processing_index(q) == b,
{
    assert(has_processing(q));
    let c = processing_index(q);
    assert(0 <= c < q.len() && q[c].is_processing());
    if c < b {
        assert(!(q[c].is_processing() && q[b].is_processing()));
    }
    if b < c {
        assert(!(q[b].is_processing() && q[c].is_processing()));
    }
}

impl StatusModel {
    /// The in-flight record inside a `Processing` status (meaningful only
    /// there).
    pub open spec fn processing_core(&self) -> ProcessingModel {
        match self {
            StatusModel::Processing { from } => *from,
            _ => arbitrary(),
        }
    }

    /// The submission record inside an `Enqueued` status (meaningful only
    /// there).
    pub open spec fn enqueued_core(&self) -> EnqueuedModel {
        match self {
            StatusModel::Enqueued { from } => *from,
            _ => arbitrary(),
        }
    }
}

/// The record the processing loop runs under at boundary `k`: the
/// in-flight record a crash left there, or the enqueued record promoted
/// with the given start time.
pub open spec fn processing_core_at(q0: Seq<StatusModel>, k: int, started_at: i64) -> ProcessingModel {
    if q0[k].is_processing() {
        q0[k].processing_core()
    } else {
        ProcessingModel { from: q0[k].enqueued_core(), started_at }
    }
}

/// The worker outcome a terminal record settles: the result it carries,
/// or the error it failed with.
pub open spec fn status_outcome(t: StatusModel) -> Result<UpdateResult, Error> {
    match t {
        StatusModel::Processed { result, .. } => Ok(result),
        StatusModel::Failed { error, .. } => Err(error),
        _ => arbitrary(),
    }
}

/// There is at most one in-flight job; said of a whole well-formed queue.
pub proof fn lemma_processing_index_is(q: Seq<StatusModel>, b: int)
    requires
        forall|i: int, j: int|
            0 <= i < j < q.len() ==> !((#[trigger] q[i]).is_processing() && (
            #[trigger] q[j]).is_processing()),
        0 <= b < q.len(),
        q[b].is_processing(),
    ensures
        has_processing(q),
        processing_index(q) == b,
{
    lemma_processing_unique(q, b);
}

/// Terminal records form a prefix of the queue: a job completes only after
/// every job submitted before it has completed, so the successfully applied
/// jobs are a prefix of the submission order.
pub proof fn law_terminal_prefix(s: UpdateStore, i: int, j: int)
    requires
        s.wf(),
        0 <= i <= j < s.queue().len(),
        s.queue()[j].is_terminal(),
    ensures
        s.queue()[i].is_terminal(),
{
    if i < j {
        assert(s.queue()[i].stage() >= s.queue()[j].stage());
    }
}

/// Update ids within an index are dense: the record at position `i`
/// carries id `i`, so ids strictly increase with no gaps across the
/// enqueued and terminal records taken together.
pub proof fn law_update_ids_dense(s: UpdateStore, i: int, j: int)
    requires
        s.wf(),
        0 <= i < j < s.queue().len(),
    ensures
        s.queue()[i].id() == i,
        s.queue()[j].id() == j,
        s.queue()[i].id() < s.queue()[j].id(),
{
}

/// A queue with any non-terminal job has a pending boundary.
proof fn lemma_exists_boundary(q: Seq<StatusModel>, i: int)
    requires
        0 <= i < q.len(),
        !q[i].is_terminal(),
    ensures
        exists|k: int| is_pending_boundary(q, k),
    decreases i,
{
    if forall|j: int| 0 <= j < i ==> (#[trigger] q[j]).is_terminal() {
        assert(is_pending_boundary(q, i));
    } else {
        let j = choose|j: int| 0 <= j < i && !(#[trigger] q[j]).is_terminal();
        lemma_exists_boundary(q, j);
    }
}

/// The position of the first job that still needs work, or the queue's
/// length when every job is done.
pub open spec fn terminal_boundary(q: Seq<StatusModel>) -> int {
    if exists|k: int| is_pending_boundary(q, k) {
        first_pending(q)
    } else {
        q.len() as int
    }
}

/// The jobs the engine has seen completed form a prefix of the submission
/// order: there is a boundary below which exactly the terminal records
/// sit, and they carry the ids 0, 1, ... in submission order.
pub proof fn law_applied_prefix(s: UpdateStore)
    requires
        s.wf(),
    ensures
        0 <= terminal_boundary(s.queue()) <= s.queue().len(),
        forall|i: int|
            0 <= i < s.queue().len() ==> ((#[trigger] s.queue()[i]).is_terminal() <==> i
                < terminal_boundary(s.queue())),
        forall|i: int|
            0 <= i < terminal_boundary(s.queue()) ==> (#[trigger] s.queue()[i]).id() == i,
{
    let q = s.queue();
    let t = terminal_boundary(q);
    if exists|k: int| is_pending_boundary(q, k) {
        let k = first_pending(q);
        assert(is_pending_boundary(q, k));
        assert forall|i: int| 0 <= i < q.len() implies (q[i].is_terminal() <==> i < k) by {
            if i < k {
                assert(q[i].is_terminal());
            } else if i > k {
                assert(q[k].stage() >= q[i].stage());
            }
        }
    } else {
        assert forall|i: int| 0 <= i < q.len() implies q[i].is_terminal() by {
            if !q[i].is_terminal() {
                lemma_exists_boundary(q, i);
            }
        }
    }
}

/// A payload blob file exists iff a non-terminal job references it, once no
/// upload is in flight.
pub proof fn law_blob_iff_referenced(s: UpdateStore, b: u64)
    requires
        s.wf(),
        s.pending() is None,
    ensures
        s.blob_files().contains(b) <==> (exists|i: int|
            0 <= i < s.queue().len() && !(#[trigger] s.queue()[i]).is_terminal()
                && s.queue()[i].payload_ref() == Some(b)),
{
    assert(s.blob_files().contains(b) <==> (s.pending() == Some(b) || s.job_justifies_blob(b)));
}

/// Progress: settling the first pending job extends the terminal prefix
/// by exactly that job, so repeated processing steps drive every
/// submitted job to a terminal state.
pub proof fn law_processing_progress(
    q0: Seq<StatusModel>,
    q1: Seq<StatusModel>,
    t: StatusModel,
    k: int,
)
    requires
        is_pending_boundary(q0, k),
        t.is_terminal(),
        q1 == q0.update(k, t),
    ensures
        q1.len() == q0.len(),
        forall|j: int| 0 <= j <= k ==> (#[trigger] q1[j]).is_terminal(),
        forall|j: int| k < j < q1.len() ==> q1[j] == q0[j],
{
    assert forall|j: int| 0 <= j <= k implies (#[trigger] q1[j]).is_terminal() by {
        if j < k {
            assert(q0[j].is_terminal());
            assert(q1[j] == q0[j]);
        }
    }
}

/// Round trip: a submitted job is immediately observable under the id the
/// submission returned, in one of the four lifecycle states (initially
/// `Enqueued`, not terminal).
pub proof fn law_submit_then_get(pre: Seq<StatusModel>, post: Seq<StatusModel>, e: EnqueuedModel)
    requires
        post == pre.push((StatusModel::Enqueued { from: e })),
        e.update_id == pre.len(),
    ensures
        post[e.update_id as int] == (StatusModel::Enqueued { from: e }),
        !post[e.update_id as int].is_terminal(),
{
}

} // verus!
