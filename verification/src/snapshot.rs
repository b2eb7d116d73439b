//! Snapshot service: periodically captures the resolver's table and every
//! per-index update queue into one archive.
//!
//! The resolver's table anchors the snapshot: the ids live when it is
//! dumped define what the archive holds. The archive is committed only
//! when every per-index dump succeeded; any failure discards the partial
//! snapshot and leaves the previous one in place. Compressing the archive
//! into `<db_name>.snapshot` on disk and the periodic sleep are the
//! surrounding process's work.

use vstd::prelude::*;

use crate::assoc;
use crate::error::Error;
use crate::update_actor::UpdateActorHandleImpl;
use crate::update_actor::store_queue;
use crate::update_store::StatusModel;
use crate::update_store::UpdateStatus;
use crate::uuid_resolver::UuidResolverHandleImpl;

verus! {

/// A consistent dump: the resolver's bindings, and the update queue of
/// every id that was live when the bindings were dumped.
pub struct SnapshotArchive {
    pub entries: Vec<(String, u128)>,
    pub dumps: Vec<(u128, Vec<UpdateStatus>)>,
}

impl SnapshotArchive {
    /// The dumped name bindings.
    pub open spec fn entries_view(&self) -> Seq<(Seq<char>, u128)> {
        self.entries.deep_view()
    }

    /// The dumped per-index queues.
    pub open spec fn dumps_view(&self) -> Seq<(u128, Seq<StatusModel>)> {
        self.dumps.deep_view()
    }

    /// Bindings carry unique names and unique ids, as the resolver does.
    pub open spec fn wf(&self) -> bool {
        assoc::unique_keys(self.entries_view()) && assoc::unique_values(self.entries_view())
    }
}

/// Every id the resolver holds has an update store to dump.
pub open spec fn all_ids_have_stores(
    bindings: Seq<(Seq<char>, u128)>,
    stores: Seq<(u128, crate::update_store::UpdateStore)>,
) -> bool {
    forall|i: int|
        0 <= i < bindings.len() ==> assoc::contains_key(stores, (#[trigger] bindings[i]).1)
}

/// The snapshot service: holds the two tiers it dumps, the period and
/// target path of the schedule, and the last archive it committed (the
/// content of `<db_name>.snapshot`).
pub struct SnapshotService {
    pub uuid_resolver_handle: UuidResolverHandleImpl,
    pub update_handle: UpdateActorHandleImpl,
    pub snapshot_period_ms: u64,
    pub snapshot_path: String,
    pub db_name: String,
    pub committed: Option<SnapshotArchive>,
}

impl SnapshotService {
    /// Both tiers satisfy their invariants.
    pub open spec fn wf(&self) -> bool {
        self.uuid_resolver_handle.store.wf() && self.update_handle.wf()
    }

    /// A service that has not committed a snapshot yet.
    pub fn new(
        uuid_resolver_handle: UuidResolverHandleImpl,
        update_handle: UpdateActorHandleImpl,
        snapshot_period_ms: u64,
        snapshot_path: String,
        db_name: String,
    ) -> (r: SnapshotService)
        requires
            uuid_resolver_handle.store.wf(),
            update_handle.wf(),
        ensures
            r.wf(),
            r.uuid_resolver_handle == uuid_resolver_handle,
            r.update_handle == update_handle,
            r.snapshot_period_ms == snapshot_period_ms,
            r.snapshot_path@ == snapshot_path@,
            r.db_name@ == db_name@,
            r.committed is None,
    {
        SnapshotService {
            uuid_resolver_handle,
            update_handle,
            snapshot_period_ms,
            snapshot_path,
            db_name,
            committed: None,
        }
    }

    /// One snapshot attempt. The resolver dump anchors the id set; every
    /// per-index dump must succeed before the archive is committed, so a
    /// failing dump leaves the previously committed snapshot untouched.
    /// An empty id set commits nothing.
    pub fn perform_snapshot(&mut self) -> (r: Result<(), Error>)
        requires
            old(self).wf(),
        ensures
            final(self).wf(),
            final(self).uuid_resolver_handle == old(self).uuid_resolver_handle,
            final(self).update_handle == old(self).update_handle,
            ({
                let bindings = old(self).uuid_resolver_handle.store.bindings();
                let stores = old(self).update_handle.stores_map();
                &&& bindings.len() == 0 ==> r is Ok && final(self).committed == old(self).committed
                &&& bindings.len() > 0 && !all_ids_have_stores(bindings, stores) ==> r is Err
                    && final(self).committed == old(self).committed
                &&& bindings.len() > 0 && all_ids_have_stores(bindings, stores) ==> r is Ok && (
                final(self).committed matches Some(a) && a.entries_view() == bindings
                    && a.dumps_view().len() == bindings.len() && (forall|i: int|
                    0 <= i < bindings.len() ==> #[trigger] a.dumps_view()[i] == (
                    bindings[i].1,
                    store_queue(stores, bindings[i].1),
                )))
            }),
    {
        let ids = self.uuid_resolver_handle.snapshot();
        if ids.len() == 0 {
            return Ok(());
        }
        let entries = self.uuid_resolver_handle.list();
        let ghost bindings = self.uuid_resolver_handle.store.bindings();
        let mut dumps: Vec<(u128, Vec<UpdateStatus>)> = Vec::new();
        let mut k: usize = 0;
        while k < ids.len()
            invariant
                k <= ids.len(),
                ids@.len() == bindings.len(),
                forall|i: int| 0 <= i < ids@.len() ==> ids@[i] == (#[trigger] bindings[i]).1,
                dumps@.len() == k,
                self.wf(),
                *self == *old(self),
                bindings == self.uuid_resolver_handle.store.bindings(),
                forall|i: int|
                    0 <= i < k ==> #[trigger] dumps.deep_view()[i] == (
                    bindings[i].1,
                    store_queue(self.update_handle.stores_map(), bindings[i].1),
                ),
                forall|i: int|
                    0 <= i < k ==> assoc::contains_key(
                        self.update_handle.stores_map(),
                        (#[trigger] bindings[i]).1,
                    ),
            decreases ids.len() - k,
        {
            match self.update_handle.snapshot(ids[k]) {
                Ok(d) => {
                    let ghost dv = d.deep_view();
                    let ghost pre = dumps.deep_view();
                    let id = ids[k];
                    dumps.push((id, d));
                    proof {
                        assert(dumps.deep_view() =~= pre.push((id, dv)));
                    }
                },
                Err(e) => {
                    proof {
                        assert(!assoc::contains_key(
                            self.update_handle.stores_map(),
                            bindings[k as int].1,
                        ));
                    }
                    return Err(e);
                },
            }
            k += 1;
        }
        let a = SnapshotArchive { entries, dumps };
        proof {
            assert(a.entries_view() =~= bindings);
        }
        self.committed = Some(a);
        Ok(())
    }

    /// One period of the snapshot loop: attempt a snapshot and swallow any
    /// failure, so that a failing snapshot never takes the service down.
    /// The surrounding process calls this forever, sleeping
    /// `snapshot_period_ms` between calls.
    pub fn run(&mut self)
        requires
            old(self).wf(),
        ensures
            final(self).wf(),
            final(self).uuid_resolver_handle == old(self).uuid_resolver_handle,
            final(self).update_handle == old(self).update_handle,
            ({
                let bindings = old(self).uuid_resolver_handle.store.bindings();
                let stores = old(self).update_handle.stores_map();
                &&& bindings.len() == 0 ==> final(self).committed == old(self).committed
                &&& bindings.len() > 0 && !all_ids_have_stores(bindings, stores) ==> final(self).committed == old(self).committed
                &&& bindings.len() > 0 && all_ids_have_stores(bindings, stores) ==> (final(self).committed matches Some(a) && a.entries_view() == bindings
                    && a.dumps_view().len() == bindings.len() && (forall|i: int|
                    0 <= i < bindings.len() ==> #[trigger] a.dumps_view()[i] == (
                    bindings[i].1,
                    store_queue(stores, bindings[i].1),
                )))
            }),
    {
        let _ = self.perform_snapshot();
    }
}

/// What the restore path does, decided from what is on disk. The
/// filesystem probing and the extraction are the surrounding process's
/// work; the decision is fixed here.
#[derive(Clone, Copy, Debug, PartialEq, Eq, Structural)]
pub enum LoadAction {
    /// Extract the archive into the database path.
    Extract,
    /// Leave everything as it is.
    Nothing,
}

/// Decides the restore path: a missing database with a present snapshot is
/// restored; an existing database fails unless explicitly ignored; a
/// missing snapshot fails unless explicitly ignored; anything else is a
/// no-op.
pub fn load_snapshot(
    db_exists: bool,
    snapshot_exists: bool,
    ignore_snapshot_if_db_exists: bool,
    ignore_missing_snapshot: bool,
) -> (r: Result<LoadAction, Error>)
    ensures
        !db_exists && snapshot_exists ==> r == Ok::<LoadAction, Error>(LoadAction::Extract),
        db_exists && !ignore_snapshot_if_db_exists ==> (r matches Err(e) && e is AlreadyExists),
        db_exists && ignore_snapshot_if_db_exists && (snapshot_exists || ignore_missing_snapshot)
            ==> r == Ok::<LoadAction, Error>(LoadAction::Nothing),
        !snapshot_exists && !ignore_missing_snapshot && !(db_exists
            && !ignore_snapshot_if_db_exists) ==> (r matches Err(e) && e is NotFound),
        !db_exists && !snapshot_exists && ignore_missing_snapshot ==> r == Ok::<LoadAction, Error>(
            LoadAction::Nothing,
        ),
{
    if !db_exists && snapshot_exists {
        Ok(LoadAction::Extract)
    } else if db_exists && !ignore_snapshot_if_db_exists {
        Err(Error::AlreadyExists)
    } else if !snapshot_exists && !ignore_missing_snapshot {
        Err(Error::NotFound)
    } else {
        Ok(LoadAction::Nothing)
    }
}

/// Restores the resolver tier from an archive: an empty resolver filled
/// with exactly the dumped bindings.
pub fn restore_resolver(archive: &SnapshotArchive, path: String) -> (r: Result<
    UuidResolverHandleImpl,
    Error,
>)
    requires
        archive.wf(),
    ensures
        r matches Ok(h) && h.store.wf() && h.store.bindings() == archive.entries_view(),
{
    let mut h = match UuidResolverHandleImpl::new(path) {
        Ok(h) => h,
        Err(_) => unreached(),
    };
    let ghost target = archive.entries_view();
    let mut k: usize = 0;
    while k < archive.entries.len()
        invariant
            k <= archive.entries.len(),
            target == archive.entries_view(),
            archive.wf(),
            h.store.wf(),
            h.store.retired_ids() == Seq::<u128>::empty(),
            h.store.bindings() =~= target.take(k as int),
        decreases archive.entries.len() - k,
    {
        let name = archive.entries[k].0.clone();
        let id = archive.entries[k].1;
        proof {
            assert(target[k as int] == (name@, id));
            if h.store.contains_name(name@) {
                let j = choose|j: int|
                    0 <= j < h.store.bindings().len() && (#[trigger] h.store.bindings()[j]).0
                        == name@;
                assert(target[j].0 == target[k as int].0);
            }
            if h.store.contains_id(id) {
                let j = choose|j: int|
                    0 <= j < h.store.bindings().len() && (#[trigger] h.store.bindings()[j]).1
                        == id;
                assert(target[j].1 == target[k as int].1);
            }
            assert(!h.store.retired_ids().contains(id));
        }
        match h.insert(name, id) {
            Ok(()) => {
                proof {
                    assert(h.store.bindings() =~= target.take(k as int + 1));
                }
            },
            Err(_) => {
                return unreached();
            },
        }
        k += 1;
    }
    proof {
        assert(target.take(target.len() as int) =~= target);
    }
    Ok(h)
}

/// Restoring an archive into an empty database yields a resolver whose
/// listing is exactly the set of ids the snapshot was anchored on.
pub proof fn law_restore_preserves_ids(
    a: SnapshotArchive,
    restored: crate::uuid_resolver::UuidStore,
    i: int,
)
    requires
        restored.bindings() == a.entries_view(),
        0 <= i < a.entries_view().len(),
    ensures
        restored.bindings()[i].1 == a.entries_view()[i].1,
        restored.bindings().len() == a.entries_view().len(),
{
}

/// Snapshot, restore, snapshot: the second archive carries the same
/// resolver contents as the first.
pub proof fn law_snapshot_round_trip(
    a1: SnapshotArchive,
    restored: crate::uuid_resolver::UuidStore,
    a2: SnapshotArchive,
)
    requires
        restored.bindings() == a1.entries_view(),
        a2.entries_view() == restored.bindings(),
    ensures
        a2.entries_view() == a1.entries_view(),
{
}

} // verus!
