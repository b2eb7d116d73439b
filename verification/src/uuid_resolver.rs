//! Name resolver: the authoritative map from user-facing index name to
//! stable internal identifier.
//!
//! The persistent table is modelled as a sequence of bindings with unique
//! names and unique identifiers. All mutation goes through methods whose
//! contracts pin the whole table after the call; the surrounding process is
//! responsible only for carrying the table to and from disk.

use vstd::prelude::*;

use crate::assoc;
use crate::error::Error;

verus! {

/// Mints a fresh 128-bit index identifier.
///
/// Relies on `uuid::Uuid::new_v4`: a randomly generated version-4 UUID,
/// read back as its 128-bit value. The value depends on the generator's
/// randomness, so nothing is promised of it; callers check it against the
/// table before binding it.
#[verifier::external_body]
fn fresh_uuid() -> u128 {
    uuid::Uuid::new_v4().as_u128()
}

/// Appending an id to a list: membership grows by exactly that id.
proof fn lemma_push_id(s: Seq<u128>, e: u128)
    ensures
        s.push(e).contains(e),
        forall|x: u128| #[trigger] s.push(e).contains(x) == (s.contains(x) || x == e),
{
    let f = s.push(e);
    assert(f[s.len() as int] == e);
    assert forall|x: u128| #[trigger] f.contains(x) == (s.contains(x) || x == e) by {
        if s.contains(x) {
            let i = choose|i: int| 0 <= i < s.len() && s[i] == x;
            assert(f[i] == x);
        }
        if f.contains(x) && x != e {
            let i = choose|i: int| 0 <= i < f.len() && f[i] == x;
            assert(s[i] == x);
        }
    }
}

/// The name resolver's table of live bindings, together with the ids it
/// has retired: an id freed by a deletion is remembered and never handed
/// out again.
pub struct UuidStore {
    entries: Vec<(String, u128)>,
    retired: Vec<u128>,
}

impl UuidStore {
    /// The table as a sequence of `(name, id)` bindings.
    pub closed spec fn bindings(&self) -> Seq<(Seq<char>, u128)> {
        self.entries@.map_values(|e: (String, u128)| (e.0@, e.1))
    }

    /// The ids freed by past deletions, in deletion order.
    pub closed spec fn retired_ids(&self) -> Seq<u128> {
        self.retired@
    }

    /// Names are unique across live indexes, an id appears in at most one
    /// binding, and no live binding carries a retired id.
    pub open spec fn wf(&self) -> bool {
        &&& assoc::unique_keys(self.bindings())
        &&& assoc::unique_values(self.bindings())
        &&& forall|i: int|
            0 <= i < self.bindings().len() ==> !self.retired_ids().contains(
                (#[trigger] self.bindings()[i]).1,
            )
    }

    /// A live binding for `name` exists.
    pub open spec fn contains_name(&self, name: Seq<char>) -> bool {
        assoc::contains_key(self.bindings(), name)
    }

    /// Some live binding carries `id`.
    pub open spec fn contains_id(&self, id: u128) -> bool {
        assoc::contains_value(self.bindings(), id)
    }

    /// The id bound to `name` (meaningful when `contains_name` holds).
    pub open spec fn id_of(&self, name: Seq<char>) -> u128 {
        assoc::value_of(self.bindings(), name)
    }

    /// What resolution observes: the bound id, or nothing.
    pub open spec fn resolution(&self, name: Seq<char>) -> Option<u128> {
        if self.contains_name(name) {
            Some(self.id_of(name))
        } else {
            None
        }
    }

    /// An empty table with nothing retired.
    pub fn new() -> (r: UuidStore)
        ensures
            r.wf(),
            r.bindings() == Seq::<(Seq<char>, u128)>::empty(),
            r.retired_ids() == Seq::<u128>::empty(),
    {
        UuidStore { entries: Vec::new(), retired: Vec::new() }
    }

    /// Whether `id` was retired by a past deletion.
    fn is_retired(&self, id: u128) -> (r: bool)
        ensures
            r == self.retired_ids().contains(id),
    {
        let mut k: usize = 0;
        while k < self.retired.len()
            invariant
                k <= self.retired.len(),
                forall|j: int| 0 <= j < k ==> self.retired@[j] != id,
            decreases self.retired.len() - k,
        {
            if self.retired[k] == id {
                return true;
            }
            k += 1;
        }
        proof {
            if self.retired_ids().contains(id) {
                let j = choose|j: int|
                    0 <= j < self.retired@.len() && self.retired@[j] == id;
                assert(self.retired@[j] != id);
            }
        }
        false
    }

    /// Position of the binding for `name` in the table, if any.
    fn position_of(&self, name: &String) -> (r: Option<usize>)
        ensures
            match r {
                Some(i) => i < self.bindings().len() && self.bindings()[i as int].0 == name@,
                None => !self.contains_name(name@),
            },
    {
        let mut k: usize = 0;
        while k < self.entries.len()
            invariant
                k <= self.entries.len(),
                forall|j: int| 0 <= j < k ==> (#[trigger] self.bindings()[j]).0 != name@,
            decreases self.entries.len() - k,
        {
            if self.entries[k].0 == *name {
                return Some(k);
            }
            k += 1;
        }
        None
    }

    /// Position of the binding that carries `id`, if any.
    fn position_of_id(&self, id: u128) -> (r: Option<usize>)
        ensures
            match r {
                Some(i) => i < self.bindings().len() && self.bindings()[i as int].1 == id,
                None => !self.contains_id(id),
            },
    {
        let mut k: usize = 0;
        while k < self.entries.len()
            invariant
                k <= self.entries.len(),
                forall|j: int| 0 <= j < k ==> (#[trigger] self.bindings()[j]).1 != id,
            decreases self.entries.len() - k,
        {
            if self.entries[k].1 == id {
                return Some(k);
            }
            k += 1;
        }
        None
    }

    /// Resolves `name` to its id; `NotFound` when no binding exists.
    pub fn get(&self, name: &String) -> (r: Result<u128, Error>)
        requires
            self.wf(),
        ensures
            self.contains_name(name@) ==> r == Ok::<u128, Error>(self.id_of(name@)),
            !self.contains_name(name@) ==> r == Err::<u128, Error>(Error::NotFound),
    {
        match self.position_of(name) {
            Some(i) => {
                proof {
                    assoc::lemma_key_index_unique(self.bindings(), i as int, name@);
                }
                Ok(self.entries[i].1)
            },
            None => Err(Error::NotFound),
        }
    }

    /// Adds the binding `(name, uuid)`. Fails with `AlreadyExists` when the
    /// name is taken, and refuses (as an internal fault) an id that another
    /// binding already carries or that a past deletion retired; either
    /// failure leaves the table unchanged.
    pub fn insert(&mut self, name: String, uuid: u128) -> (r: Result<(), Error>)
        requires
            old(self).wf(),
        ensures
            final(self).wf(),
            old(self).contains_name(name@) ==> r == Err::<(), Error>(Error::AlreadyExists)
                && *final(self) == *old(self),
            !old(self).contains_name(name@) && (old(self).contains_id(uuid) || old(self).retired_ids().contains(uuid)) ==> (r matches Err(Error::Internal { .. })) && *final(self) == *old(self),
            !old(self).contains_name(name@) && !old(self).contains_id(uuid) && !old(self).retired_ids().contains(uuid) ==> r == Ok::<(), Error>(()) && final(self).bindings()
                == old(self).bindings().push((name@, uuid)) && final(self).retired_ids() == old(self).retired_ids(),
    {
        if let Some(_) = self.position_of(&name) {
            return Err(Error::AlreadyExists);
        }
        if let Some(_) = self.position_of_id(uuid) {
            return Err(Error::Internal { cause: "identifier collision".to_owned() });
        }
        if self.is_retired(uuid) {
            return Err(Error::Internal { cause: "identifier was retired".to_owned() });
        }
        proof {
            assoc::lemma_push(self.bindings(), name@, uuid);
        }
        let ghost pre = self.bindings();
        let ghost n = name@;
        self.entries.push((name, uuid));
        proof {
            assert(self.bindings() =~= pre.push((n, uuid)));
            assert forall|i: int| 0 <= i < self.bindings().len() implies !self.retired_ids().contains(
                (#[trigger] self.bindings()[i]).1,
            ) by {
                if i < pre.len() {
                    assert(self.bindings()[i] == pre[i]);
                }
            }
        }
        Ok(())
    }

    /// Mints a fresh id and binds `name` to it.
    ///
    /// The id comes from a random generator, so success additionally
    /// depends on the drawn id being unused; a collision is reported as
    /// `Internal` and leaves the table unchanged.
    pub fn create(&mut self, name: String) -> (r: Result<u128, Error>)
        requires
            old(self).wf(),
        ensures
            final(self).wf(),
            old(self).contains_name(name@) ==> r == Err::<u128, Error>(Error::AlreadyExists)
                && *final(self) == *old(self),
            (r matches Err(Error::Internal { .. })) ==> *final(self) == *old(self),
            r matches Ok(id) ==> !old(self).contains_name(name@) && !old(self).contains_id(id)
                && !old(self).retired_ids().contains(id) && final(self).bindings() == old(self).bindings().push((name@, id)) && final(self).retired_ids() == old(self).retired_ids(),
            !old(self).contains_name(name@) ==> (r matches Ok(_)) || (r matches Err(
                Error::Internal { .. },
            )),
    {
        let id = fresh_uuid();
        match self.insert(name, id) {
            Ok(()) => Ok(id),
            Err(e) => Err(e),
        }
    }

    /// Removes the binding for `name` and returns the freed id, which the
    /// caller uses to tear down per-index state downstream.
    pub fn delete(&mut self, name: &String) -> (r: Result<u128, Error>)
        requires
            old(self).wf(),
        ensures
            final(self).wf(),
            !old(self).contains_name(name@) ==> r == Err::<u128, Error>(Error::NotFound)
                && *final(self) == *old(self),
            old(self).contains_name(name@) ==> r == Ok::<u128, Error>(old(self).id_of(name@))
                && !final(self).contains_name(name@) && final(self).retired_ids() == old(self).retired_ids().push(old(self).id_of(name@)) && forall|n: Seq<char>|
                n != name@ ==> final(self).resolution(n) == old(self).resolution(n),
    {
        match self.position_of(name) {
            Some(i) => {
                proof {
                    assoc::lemma_key_index_unique(self.bindings(), i as int, name@);
                    assoc::lemma_remove(self.bindings(), i as int);
                }
                let ghost pre = self.bindings();
                let ghost ret0 = self.retired_ids();
                let e = self.entries.remove(i);
                let freed = e.1;
                self.retired.push(freed);
                proof {
                    assert(self.bindings() =~= pre.remove(i as int));
                    lemma_push_id(ret0, freed);
                    assert forall|j: int|
                        0 <= j < self.bindings().len() implies !self.retired_ids().contains(
                        (#[trigger] self.bindings()[j]).1,
                    ) by {
                        let x = self.bindings()[j].1;
                        if j < i {
                            assert(self.bindings()[j] == pre[j]);
                        } else {
                            assert(self.bindings()[j] == pre[j + 1]);
                        }
                        if x == freed {
                            assert(assoc::contains_value(self.bindings(), x));
                        }
                    }
                }
                Ok(freed)
            },
            None => Err(Error::NotFound),
        }
    }

    /// Atomically rebinds the id of `old_name` to `new_name`. The old name
    /// is freed in the same step that binds the new one.
    pub fn rename(&mut self, old_name: &String, new_name: String) -> (r: Result<u128, Error>)
        requires
            old(self).wf(),
        ensures
            final(self).wf(),
            !old(self).contains_name(old_name@) ==> r == Err::<u128, Error>(Error::NotFound)
                && *final(self) == *old(self),
            old(self).contains_name(old_name@) && old(self).contains_name(new_name@) ==> r == Err::<
                u128,
                Error,
            >(Error::AlreadyExists) && *final(self) == *old(self),
            final(self).retired_ids() == old(self).retired_ids(),
            old(self).contains_name(old_name@) && !old(self).contains_name(new_name@) ==> r == Ok::<
                u128,
                Error,
            >(old(self).id_of(old_name@)) && !final(self).contains_name(old_name@)
                && final(self).resolution(new_name@) == Some(old(self).id_of(old_name@))
                && forall|n: Seq<char>|
                    n != old_name@ && n != new_name@ ==> final(self).resolution(n)
                        == old(self).resolution(n),
    {
        let i = match self.position_of(old_name) {
            Some(i) => i,
            None => {
                return Err(Error::NotFound);
            },
        };
        if let Some(_) = self.position_of(&new_name) {
            return Err(Error::AlreadyExists);
        }
        proof {
            assoc::lemma_key_index_unique(self.bindings(), i as int, old_name@);
            assoc::lemma_remove(self.bindings(), i as int);
        }
        let ghost pre = self.bindings();
        let e = self.entries.remove(i);
        proof {
            assert(self.bindings() =~= pre.remove(i as int));
            assoc::lemma_push(self.bindings(), new_name@, e.1);
        }
        let ghost mid = self.bindings();
        let ghost n = new_name@;
        let id = e.1;
        self.entries.push((new_name, id));
        proof {
            assert(self.bindings() =~= mid.push((n, id)));
            assert forall|j: int|
                0 <= j < self.bindings().len() implies !self.retired_ids().contains(
                (#[trigger] self.bindings()[j]).1,
            ) by {
                if j < mid.len() {
                    assert(self.bindings()[j] == mid[j]);
                    if (j as int) < i as int {
                        assert(mid[j] == pre[j]);
                    } else {
                        assert(mid[j] == pre[j + 1]);
                    }
                } else {
                    assert(self.bindings()[j].1 == pre[i as int].1);
                }
            }
        }
        Ok(id)
    }

    /// All live bindings, in table order.
    pub fn list(&self) -> (r: Vec<(String, u128)>)
        ensures
            r@.len() == self.bindings().len(),
            forall|i: int| 0 <= i < r@.len() ==> ((#[trigger] r@[i]).0@, r@[i].1)
                == self.bindings()[i],
    {
        let mut out: Vec<(String, u128)> = Vec::new();
        let mut k: usize = 0;
        while k < self.entries.len()
            invariant
                k <= self.entries.len(),
                out@.len() == k,
                forall|i: int| 0 <= i < k ==> ((#[trigger] out@[i]).0@, out@[i].1)
                    == self.bindings()[i],
            decreases self.entries.len() - k,
        {
            let name = self.entries[k].0.clone();
            let id = self.entries[k].1;
            out.push((name, id));
            k += 1;
        }
        out
    }

    /// The set of live ids, anchoring a snapshot: the caller dumps exactly
    /// the per-index state of these ids. The copy of the table itself into
    /// the snapshot directory is the surrounding process's I/O.
    pub fn snapshot(&self) -> (ids: Vec<u128>)
        ensures
            ids@.len() == self.bindings().len(),
            forall|i: int| 0 <= i < ids@.len() ==> ids@[i] == (#[trigger] self.bindings()[i]).1,
    {
        let mut out: Vec<u128> = Vec::new();
        let mut k: usize = 0;
        while k < self.entries.len()
            invariant
                k <= self.entries.len(),
                out@.len() == k,
                forall|i: int| 0 <= i < k ==> out@[i] == (#[trigger] self.bindings()[i]).1,
            decreases self.entries.len() - k,
        {
            out.push(self.entries[k].1);
            k += 1;
        }
        out
    }
}

/// Ids are never reused: the id a deletion frees is retired, and any
/// later creation or insertion that succeeds mints a different id, because
/// success is only possible for an id outside the retired list.
pub proof fn law_ids_never_reused(
    pre: UuidStore,
    deleted: UuidStore,
    freed: u128,
    id2: u128,
)
    requires
        deleted.retired_ids() == pre.retired_ids().push(freed),
        !deleted.retired_ids().contains(id2),
    ensures
        id2 != freed,
{
    lemma_push_id(pre.retired_ids(), freed);
}

/// Round trip: a creation that returned `id` leaves a table on which the
/// created name resolves to `id`.
pub proof fn law_create_then_resolve(pre: UuidStore, post: UuidStore, name: Seq<char>, id: u128)
    requires
        !pre.contains_name(name),
        post.bindings() == pre.bindings().push((name, id)),
    ensures
        post.resolution(name) == Some(id),
{
    assoc::lemma_push(pre.bindings(), name, id);
}

/// Handle on the name resolver. In the running service the resolver is a
/// single-writer task behind a mailbox; the handle carries its table and
/// the path of the on-disk store that the surrounding process keeps in
/// step with it.
pub struct UuidResolverHandleImpl {
    pub store: UuidStore,
    pub path: String,
}

impl UuidResolverHandleImpl {
    /// A resolver over an empty table, rooted at `path`.
    pub fn new(path: String) -> (r: Result<UuidResolverHandleImpl, Error>)
        ensures
            r matches Ok(h) && h.store.wf() && h.store.bindings() == Seq::<(
                Seq<char>,
                u128,
            )>::empty() && h.store.retired_ids() == Seq::<u128>::empty() && h.path@ == path@,
    {
        Ok(UuidResolverHandleImpl { store: UuidStore::new(), path })
    }

    /// Resolves `uid` to its index id.
    pub fn get(&self, uid: &String) -> (r: Result<u128, Error>)
        requires
            self.store.wf(),
        ensures
            self.store.contains_name(uid@) ==> r == Ok::<u128, Error>(self.store.id_of(uid@)),
            !self.store.contains_name(uid@) ==> r == Err::<u128, Error>(Error::NotFound),
    {
        self.store.get(uid)
    }

    /// Creates a binding for `uid` under a freshly minted id.
    pub fn create(&mut self, uid: String) -> (r: Result<u128, Error>)
        requires
            old(self).store.wf(),
        ensures
            final(self).store.wf(),
            final(self).path == old(self).path,
            old(self).store.contains_name(uid@) ==> r == Err::<u128, Error>(Error::AlreadyExists)
                && final(self).store == old(self).store,
            (r matches Err(Error::Internal { .. })) ==> final(self).store == old(self).store,
            r matches Ok(id) ==> !old(self).store.contains_name(uid@) && !old(self).store.contains_id(id) && !old(self).store.retired_ids().contains(id) && final(self).store.bindings() == old(self).store.bindings().push((uid@, id)) && final(self).store.retired_ids() == old(self).store.retired_ids(),
            !old(self).store.contains_name(uid@) ==> (r matches Ok(_)) || (r matches Err(
                Error::Internal { .. },
            )),
    {
        self.store.create(uid)
    }

    /// Deletes the binding for `uid`, returning the freed id.
    pub fn delete(&mut self, uid: &String) -> (r: Result<u128, Error>)
        requires
            old(self).store.wf(),
        ensures
            final(self).store.wf(),
            final(self).path == old(self).path,
            !old(self).store.contains_name(uid@) ==> r == Err::<u128, Error>(Error::NotFound)
                && final(self).store == old(self).store,
            old(self).store.contains_name(uid@) ==> r == Ok::<u128, Error>(
                old(self).store.id_of(uid@),
            ) && !final(self).store.contains_name(uid@) && final(self).store.retired_ids() == old(self).store.retired_ids().push(old(self).store.id_of(uid@)) && forall|n: Seq<char>|
                n != uid@ ==> final(self).store.resolution(n) == old(self).store.resolution(n),
    {
        self.store.delete(uid)
    }

    /// All live bindings.
    pub fn list(&self) -> (r: Vec<(String, u128)>)
        ensures
            r@.len() == self.store.bindings().len(),
            forall|i: int|
                0 <= i < r@.len() ==> ((#[trigger] r@[i]).0@, r@[i].1) == self.store.bindings()[i],
    {
        self.store.list()
    }

    /// Adds the binding `(name, uuid)` with a caller-chosen id.
    pub fn insert(&mut self, name: String, uuid: u128) -> (r: Result<(), Error>)
        requires
            old(self).store.wf(),
        ensures
            final(self).store.wf(),
            final(self).path == old(self).path,
            old(self).store.contains_name(name@) ==> r == Err::<(), Error>(Error::AlreadyExists)
                && final(self).store == old(self).store,
            !old(self).store.contains_name(name@) && (old(self).store.contains_id(uuid) || old(self).store.retired_ids().contains(uuid)) ==> (r matches Err(Error::Internal { .. }))
                && final(self).store == old(self).store,
            !old(self).store.contains_name(name@) && !old(self).store.contains_id(uuid) && !old(self).store.retired_ids().contains(uuid) ==> r == Ok::<(), Error>(()) && final(self).store.bindings() == old(self).store.bindings().push((name@, uuid)) && final(self).store.retired_ids() == old(self).store.retired_ids(),
    {
        self.store.insert(name, uuid)
    }

    /// The set of live ids that anchors a snapshot.
    pub fn snapshot(&self) -> (ids: Vec<u128>)
        ensures
            ids@.len() == self.store.bindings().len(),
            forall|i: int|
                0 <= i < ids@.len() ==> ids@[i] == (#[trigger] self.store.bindings()[i]).1,
    {
        self.store.snapshot()
    }
}

/// After a deletion the name resolves to nothing, and stays unresolvable
/// until a creation binds it again: on a table without the name, resolution
/// observes `None`, and only the transition that pushes a binding for the
/// name makes it resolvable.
pub proof fn law_delete_then_resolve(post: UuidStore, recreated: UuidStore, name: Seq<char>, id: u128)
    requires
        !post.contains_name(name),
        recreated.bindings() == post.bindings().push((name, id)),
    ensures
        post.resolution(name) is None,
        recreated.resolution(name) == Some(id),
{
    assoc::lemma_push(post.bindings(), name, id);
}

} // verus!
