//! Index worker: owner of the per-index engine state.
//!
//! The worker applies update jobs serially to one index at a time and
//! serves reads from the committed state. The engine proper (inverted
//! index, tokenization, ranking) is outside this crate; what the worker
//! owns here is the part of the engine state that the control plane's
//! rules are written against: the primary key, the settings record, and
//! the keyed document collection with its field structure.

use vstd::prelude::*;
use vstd::string::StrSliceExecFns;
use vstd::string::StringExecFns;

use crate::assoc;
use crate::error::Error;
use crate::update_store::IndexDocumentsMethod;
use crate::update_store::MetaModel;
use crate::update_store::Settings;
use crate::update_store::SettingsModel;
use crate::update_store::UpdateMeta;
use crate::update_store::UpdateResult;

verus! {

/// A decoded document: its fields in payload order, each a name and a
/// value rendered as text. Decoding bytes into this shape is the payload
/// parser's work, outside this crate.
#[derive(Debug)]
pub struct Document {
    pub fields: Vec<(String, String)>,
}

/// Mathematical value of a document: its field sequence.
pub type DocModel = Seq<(Seq<char>, Seq<char>)>;

impl DeepView for Document {
    type V = DocModel;

    open spec fn deep_view(&self) -> DocModel {
        self.fields.deep_view()
    }
}

impl Document {
    /// Deep copy with the same mathematical value.
    pub fn duplicate(&self) -> (r: Document)
        ensures
            r.deep_view() == self.deep_view(),
    {
        let mut out: Vec<(String, String)> = Vec::new();
        let mut k: usize = 0;
        while k < self.fields.len()
            invariant
                k <= self.fields.len(),
                out@.len() == k,
                forall|i: int|
                    0 <= i < k ==> ((#[trigger] out@[i]).0@, out@[i].1@) == (self.fields@[i].0@,
                    self.fields@[i].1@),
            decreases self.fields.len() - k,
        {
            let name = self.fields[k].0.clone();
            let value = self.fields[k].1.clone();
            out.push((name, value));
            k += 1;
        }
        let d = Document { fields: out };
        proof {
            assert(d.deep_view() =~= self.deep_view());
        }
        d
    }
}

/// A field name that can serve as an inferred primary key: `id` itself, or
/// any name ending in `_id`.
pub open spec fn is_pk_field_name(name: Seq<char>) -> bool {
    name == seq!['i', 'd'] || (name.len() >= 3 && name.subrange(
        name.len() - 3,
        name.len() as int,
    ) == seq!['_', 'i', 'd'])
}

/// `i` is the position of the first primary-key candidate among a
/// document's fields.
pub open spec fn is_first_pk_field(fields: DocModel, i: int) -> bool {
    0 <= i < fields.len() && is_pk_field_name(fields[i].0) && (forall|j: int|
        0 <= j < i ==> !is_pk_field_name((#[trigger] fields[j]).0))
}

/// `i` is the position of the first field named `key`.
pub open spec fn is_first_field_named(fields: DocModel, key: Seq<char>, i: int) -> bool {
    0 <= i < fields.len() && fields[i].0 == key && (forall|j: int|
        0 <= j < i ==> (#[trigger] fields[j]).0 != key)
}

/// The value a document carries under `key`: the value of its first field
/// of that name, if any.
pub open spec fn doc_key_value(fields: DocModel, key: Seq<char>) -> Option<Seq<char>> {
    if exists|i: int| is_first_field_named(fields, key, i) {
        Some(fields[choose|i: int| is_first_field_named(fields, key, i)].1)
    } else {
        None
    }
}

/// Whether `name` can serve as an inferred primary key.
pub fn pk_candidate(name: &String) -> (r: bool)
    ensures
        r == is_pk_field_name(name@),
{
    let s = name.as_str();
    let n = s.unicode_len();
    if n == 2 && s.get_char(0) == 'i' && s.get_char(1) == 'd' {
        proof {
            assert(name@ =~= seq!['i', 'd']);
        }
        return true;
    }
    if n >= 3 && s.get_char(n - 3) == '_' && s.get_char(n - 2) == 'i' && s.get_char(n - 1) == 'd' {
        proof {
            assert(name@.subrange(name@.len() - 3, name@.len() as int) =~= seq!['_', 'i', 'd']);
        }
        return true;
    }
    proof {
        if name@ == seq!['i', 'd'] {
            assert(name@.len() == 2);
            assert(name@[0] == 'i' && name@[1] == 'd');
        }
        if name@.len() >= 3 && name@.subrange(name@.len() - 3, name@.len() as int) == seq![
            '_',
            'i',
            'd',
        ] {
            let t = name@.subrange(name@.len() - 3, name@.len() as int);
            assert(t[0] == '_' && t[1] == 'i' && t[2] == 'd');
            assert(name@[name@.len() - 3] == '_' && name@[name@.len() - 2] == 'i' && name@[name@.len()
                - 1] == 'd');
        }
    }
    false
}

impl Document {
    /// The position of this document's first primary-key candidate field.
    pub fn first_pk_field(&self) -> (r: Option<usize>)
        ensures
            match r {
                Some(i) => is_first_pk_field(self.deep_view(), i as int),
                None => forall|j: int|
                    0 <= j < self.deep_view().len() ==> !is_pk_field_name(
                        (#[trigger] self.deep_view()[j]).0,
                    ),
            },
    {
        let mut k: usize = 0;
        while k < self.fields.len()
            invariant
                k <= self.fields.len(),
                forall|j: int|
                    0 <= j < k ==> !is_pk_field_name((#[trigger] self.deep_view()[j]).0),
            decreases self.fields.len() - k,
        {
            if pk_candidate(&self.fields[k].0) {
                return Some(k);
            }
            k += 1;
        }
        None
    }

    /// The value this document carries under `key`.
    pub fn key_value(&self, key: &String) -> (r: Option<String>)
        ensures
            match r {
                Some(v) => doc_key_value(self.deep_view(), key@) == Some(v@),
                None => doc_key_value(self.deep_view(), key@) is None,
            },
    {
        let mut k: usize = 0;
        while k < self.fields.len()
            invariant
                k <= self.fields.len(),
                forall|j: int| 0 <= j < k ==> (#[trigger] self.deep_view()[j]).0 != key@,
            decreases self.fields.len() - k,
        {
            if self.fields[k].0 == *key {
                let v = self.fields[k].1.clone();
                proof {
                    assert(is_first_field_named(self.deep_view(), key@, k as int));
                    let i = choose|i: int| is_first_field_named(self.deep_view(), key@, i);
                    if i < k as int {
                        assert((#[trigger] self.deep_view()[i]).0 != key@);
                    }
                    if (k as int) < i {
                        assert(self.deep_view()[k as int].0 != key@);
                    }
                }
                return Some(v);
            }
            k += 1;
        }
        proof {
            if exists|i: int| is_first_field_named(self.deep_view(), key@, i) {
                let i = choose|i: int| is_first_field_named(self.deep_view(), key@, i);
                assert(self.deep_view()[i].0 != key@);
            }
        }
        None
    }

    /// Whether this document has a field named `name`.
    pub fn has_field(&self, name: &String) -> (r: bool)
        ensures
            r == assoc::contains_key(self.deep_view(), name@),
    {
        let mut k: usize = 0;
        while k < self.fields.len()
            invariant
                k <= self.fields.len(),
                forall|j: int| 0 <= j < k ==> (#[trigger] self.deep_view()[j]).0 != name@,
            decreases self.fields.len() - k,
        {
            if self.fields[k].0 == *name {
                proof {
                    assert((#[trigger] self.deep_view()[k as int]).0 == name@);
                }
                return true;
            }
            k += 1;
        }
        proof {
            if assoc::contains_key(self.deep_view(), name@) {
                let i = choose|i: int|
                    0 <= i < self.deep_view().len() && (#[trigger] self.deep_view()[i]).0 == name@;
                assert(self.deep_view()[i].0 != name@);
            }
        }
        false
    }
}

/// The fields of `o` whose names do not occur in `n`, in order.
pub open spec fn surviving_fields(o: DocModel, n: DocModel) -> DocModel
    decreases o.len(),
{
    if o.len() == 0 {
        Seq::empty()
    } else if assoc::contains_key(n, o[0].0) {
        surviving_fields(o.drop_first(), n)
    } else {
        seq![o[0]] + surviving_fields(o.drop_first(), n)
    }
}

/// Field-wise merge: fields of the incoming document win, fields only the
/// stored document has survive.
pub open spec fn merge_fields(o: DocModel, n: DocModel) -> DocModel {
    surviving_fields(o, n) + n
}

/// Merges `new` into `stored` field-wise.
pub fn merge_documents(stored: &Document, new: &Document) -> (r: Document)
    ensures
        r.deep_view() == merge_fields(stored.deep_view(), new.deep_view()),
{
    let ghost o = stored.deep_view();
    let mut out: Vec<(String, String)> = Vec::new();
    proof {
        assert(o.skip(0) =~= o);
        assert(out.deep_view() + surviving_fields(o, new.deep_view()) =~= surviving_fields(
            o,
            new.deep_view(),
        ));
    }
    let mut k: usize = 0;
    while k < stored.fields.len()
        invariant
            k <= stored.fields.len(),
            o == stored.deep_view(),
            out.deep_view() + surviving_fields(o.skip(k as int), new.deep_view())
                =~= surviving_fields(o, new.deep_view()),
        decreases stored.fields.len() - k,
    {
        let ghost rest = o.skip(k as int);
        proof {
            assert(rest[0] == o[k as int]);
            assert(rest.drop_first() =~= o.skip(k as int + 1));
        }
        if !new.has_field(&stored.fields[k].0) {
            let name = stored.fields[k].0.clone();
            let value = stored.fields[k].1.clone();
            out.push((name, value));
            proof {
                assert(surviving_fields(rest, new.deep_view()) =~= seq![rest[0]]
                    + surviving_fields(rest.drop_first(), new.deep_view()));
            }
        } else {
            proof {
                assert(surviving_fields(rest, new.deep_view()) == surviving_fields(
                    rest.drop_first(),
                    new.deep_view(),
                ));
            }
        }
        k += 1;
        proof {
            assert(out.deep_view() + surviving_fields(o.skip(k as int), new.deep_view())
                =~= surviving_fields(o, new.deep_view()));
        }
    }
    proof {
        assert(o.skip(o.len() as int) =~= Seq::<(Seq<char>, Seq<char>)>::empty());
        assert(out.deep_view() =~= surviving_fields(o, new.deep_view()));
    }
    let mut j: usize = 0;
    while j < new.fields.len()
        invariant
            j <= new.fields.len(),
            out.deep_view() =~= surviving_fields(stored.deep_view(), new.deep_view())
                + new.deep_view().take(j as int),
        decreases new.fields.len() - j,
    {
        let name = new.fields[j].0.clone();
        let value = new.fields[j].1.clone();
        let ghost outpre = out.deep_view();
        out.push((name, value));
        j += 1;
        proof {
            let n = new.deep_view();
            assert(out.deep_view() =~= outpre.push(n[j - 1]));
            assert(n.take(j as int) =~= n.take(j - 1).push(n[j - 1]));
            assert(out.deep_view() =~= surviving_fields(stored.deep_view(), n) + n.take(j as int));
        }
    }
    proof {
        assert(new.deep_view().take(new.deep_view().len() as int) =~= new.deep_view());
        assert(out.deep_view() =~= merge_fields(stored.deep_view(), new.deep_view()));
    }
    let d = Document { fields: out };
    proof {
        assert(d.deep_view() =~= out.deep_view());
    }
    d
}

/// The engine-side state of one index.
pub struct IndexState {
    pub created_at: i64,
    pub updated_at: i64,
    pub primary_key: Option<String>,
    pub settings: Settings,
    pub documents: Vec<(String, Document)>,
}

/// Mathematical value of an index: its keyed document collection plus the
/// record-level metadata.
pub struct IndexModel {
    pub created_at: i64,
    pub updated_at: i64,
    pub primary_key: Option<Seq<char>>,
    pub settings: SettingsModel,
    pub documents: Seq<(Seq<char>, DocModel)>,
}

impl DeepView for IndexState {
    type V = IndexModel;

    open spec fn deep_view(&self) -> IndexModel {
        IndexModel {
            created_at: self.created_at,
            updated_at: self.updated_at,
            primary_key: self.primary_key.deep_view(),
            settings: self.settings.deep_view(),
            documents: self.documents.deep_view(),
        }
    }
}

/// Document keys are unique within an index.
pub open spec fn index_wf(m: IndexModel) -> bool {
    assoc::unique_keys(m.documents)
}

/// The primary key an `AddDocuments` job runs under: the index's existing
/// key if it has one (a different declared key is a mismatch), else the
/// declared key, else the key inferred from the first document's fields.
pub open spec fn resolved_pk(
    existing: Option<Seq<char>>,
    declared: Option<Seq<char>>,
    batch: Seq<DocModel>,
) -> Result<Seq<char>, Error> {
    match existing {
        Some(k) => match declared {
            Some(d) => if d == k {
                Ok(k)
            } else {
                Err(Error::PrimaryKeyMismatch)
            },
            None => Ok(k),
        },
        None => match declared {
            Some(d) => Ok(d),
            None => if batch.len() > 0 && (exists|i: int| is_first_pk_field(batch[0], i)) {
                Ok(batch[0][choose|i: int| is_first_pk_field(batch[0], i)].0)
            } else {
                Err(Error::MissingPrimaryKey)
            },
        },
    }
}

/// Every document of the batch carries a value under `key`.
pub open spec fn all_have_key(batch: Seq<DocModel>, key: Seq<char>) -> bool {
    forall|i: int| 0 <= i < batch.len() ==> doc_key_value(#[trigger] batch[i], key) is Some
}

/// One document lands in the collection: it replaces or merges into the
/// stored document with the same key value, or is appended as new.
pub open spec fn insert_doc(
    docs: Seq<(Seq<char>, DocModel)>,
    key: Seq<char>,
    d: DocModel,
    method: IndexDocumentsMethod,
) -> Seq<(Seq<char>, DocModel)> {
    match doc_key_value(d, key) {
        Some(kv) => if assoc::contains_key(docs, kv) {
            let i = assoc::key_index(docs, kv);
            match method {
                IndexDocumentsMethod::ReplaceDocuments => docs.update(i, (kv, d)),
                IndexDocumentsMethod::UpdateDocuments => docs.update(
                    i,
                    (kv, merge_fields(docs[i].1, d)),
                ),
            }
        } else {
            docs.push((kv, d))
        },
        None => docs,
    }
}

/// A whole batch lands in submission order.
pub open spec fn apply_batch(
    docs: Seq<(Seq<char>, DocModel)>,
    key: Seq<char>,
    batch: Seq<DocModel>,
    method: IndexDocumentsMethod,
) -> Seq<(Seq<char>, DocModel)>
    decreases batch.len(),
{
    if batch.len() == 0 {
        docs
    } else {
        apply_batch(insert_doc(docs, key, batch[0], method), key, batch.drop_first(), method)
    }
}

/// The collection without the document keyed `key`, if it was there.
pub open spec fn remove_key(
    docs: Seq<(Seq<char>, DocModel)>,
    key: Seq<char>,
) -> Seq<(Seq<char>, DocModel)> {
    if assoc::contains_key(docs, key) {
        docs.remove(assoc::key_index(docs, key))
    } else {
        docs
    }
}

/// The collection without the documents keyed by `keys`.
pub open spec fn remove_keys(
    docs: Seq<(Seq<char>, DocModel)>,
    keys: Seq<Seq<char>>,
) -> Seq<(Seq<char>, DocModel)>
    decreases keys.len(),
{
    if keys.len() == 0 {
        docs
    } else {
        remove_keys(remove_key(docs, keys[0]), keys.drop_first())
    }
}

/// What an `AddDocuments` job does to an index: exactly one of a primary
/// key failure (index untouched), a malformed payload (index untouched),
/// or the batch applied in order under the resolved key.
pub open spec fn add_documents_rel(
    m0: IndexModel,
    m1: IndexModel,
    r: Result<UpdateResult, Error>,
    method: IndexDocumentsMethod,
    declared: Option<Seq<char>>,
    batch: Seq<DocModel>,
    now: i64,
) -> bool {
    match resolved_pk(m0.primary_key, declared, batch) {
        Err(e) => r == Err::<UpdateResult, Error>(e) && m1 == m0,
        Ok(key) => if !all_have_key(batch, key) {
            (r matches Err(e) && e is MalformedPayload) && m1 == m0
        } else {
            r == Ok::<UpdateResult, Error>(
                UpdateResult::DocumentsAddition { nb_documents: batch.len() as usize },
            ) && m1 == (IndexModel {
                created_at: m0.created_at,
                updated_at: now,
                primary_key: Some(key),
                settings: m0.settings,
                documents: apply_batch(m0.documents, key, batch, method),
            })
        },
    }
}

/// What an `UpdateSettings` job does to an index: a declared primary key
/// that contradicts the existing one is a mismatch; otherwise the settings
/// record is replaced and a missing primary key may be set.
pub open spec fn update_settings_rel(
    m0: IndexModel,
    m1: IndexModel,
    r: Result<UpdateResult, Error>,
    s: SettingsModel,
    now: i64,
) -> bool {
    if m0.primary_key is Some && s.primary_key is Some && m0.primary_key != s.primary_key {
        r == Err::<UpdateResult, Error>(Error::PrimaryKeyMismatch) && m1 == m0
    } else {
        r == Ok::<UpdateResult, Error>(UpdateResult::Other) && m1 == (IndexModel {
            created_at: m0.created_at,
            updated_at: now,
            primary_key: if m0.primary_key is Some {
                m0.primary_key
            } else {
                s.primary_key
            },
            settings: s,
            documents: m0.documents,
        })
    }
}

/// What a `DeleteDocuments` job does to an index.
pub open spec fn delete_documents_rel(
    m0: IndexModel,
    m1: IndexModel,
    r: Result<UpdateResult, Error>,
    ids: Seq<Seq<char>>,
    now: i64,
) -> bool {
    &&& m1 == (IndexModel {
        created_at: m0.created_at,
        updated_at: now,
        primary_key: m0.primary_key,
        settings: m0.settings,
        documents: remove_keys(m0.documents, ids),
    })
    &&& r == Ok::<UpdateResult, Error>(
        UpdateResult::DocumentDeletion {
            deleted: (m0.documents.len() - remove_keys(m0.documents, ids).len()) as usize,
        },
    )
}

/// What a `ClearDocuments` job does to an index: documents dropped,
/// settings retained.
pub open spec fn clear_documents_rel(
    m0: IndexModel,
    m1: IndexModel,
    r: Result<UpdateResult, Error>,
    now: i64,
) -> bool {
    &&& m1 == (IndexModel {
        created_at: m0.created_at,
        updated_at: now,
        primary_key: m0.primary_key,
        settings: m0.settings,
        documents: Seq::empty(),
    })
    &&& r == Ok::<UpdateResult, Error>(UpdateResult::Other)
}

/// Creation and last-update timestamps, primary key and document count of
/// an index, as reads report them.
#[derive(Debug)]
pub struct IndexMeta {
    pub created_at: i64,
    pub updated_at: i64,
    pub primary_key: Option<String>,
    pub number_of_documents: u64,
}

/// The settings record of a newly created index: everything unset.
pub open spec fn empty_settings_model() -> SettingsModel {
    SettingsModel {
        displayed_attributes: None,
        searchable_attributes: None,
        ranking_rules: None,
        stop_words: None,
        distinct_attribute: None,
        primary_key: None,
    }
}

/// The state of a newly created index.
pub open spec fn fresh_index_model(primary_key: Option<Seq<char>>, now: i64) -> IndexModel {
    IndexModel {
        created_at: now,
        updated_at: now,
        primary_key,
        settings: empty_settings_model(),
        documents: Seq::empty(),
    }
}

impl IndexState {
    /// A fresh, empty index.
    pub fn new(primary_key: Option<String>, now: i64) -> (r: IndexState)
        ensures
            index_wf(r.deep_view()),
            r.deep_view() == fresh_index_model(primary_key.deep_view(), now),
    {
        let s = IndexState {
            created_at: now,
            updated_at: now,
            primary_key,
            settings: Settings {
                displayed_attributes: None,
                searchable_attributes: None,
                ranking_rules: None,
                stop_words: None,
                distinct_attribute: None,
                primary_key: None,
            },
            documents: Vec::new(),
        };
        proof {
            assert(s.deep_view().documents =~= Seq::<(Seq<char>, DocModel)>::empty());
        }
        s
    }

    /// The index's metadata record.
    pub fn meta(&self) -> (r: IndexMeta)
        ensures
            r.created_at == self.deep_view().created_at,
            r.updated_at == self.deep_view().updated_at,
            r.primary_key.deep_view() == self.deep_view().primary_key,
            r.number_of_documents == self.deep_view().documents.len(),
    {
        let n = self.documents.len();
        IndexMeta {
            created_at: self.created_at,
            updated_at: self.updated_at,
            primary_key: match &self.primary_key {
                Some(s) => Some(s.clone()),
                None => None,
            },
            number_of_documents: n as u64,
        }
    }

    /// Position of the document keyed `key`.
    fn position_of_doc(&self, key: &String) -> (r: Option<usize>)
        ensures
            match r {
                Some(i) => i < self.deep_view().documents.len() && self.deep_view().documents[
                    i as int].0 == key@,
                None => !assoc::contains_key(self.deep_view().documents, key@),
            },
    {
        let mut k: usize = 0;
        while k < self.documents.len()
            invariant
                k <= self.documents.len(),
                forall|j: int|
                    0 <= j < k ==> (#[trigger] self.deep_view().documents[j]).0 != key@,
            decreases self.documents.len() - k,
        {
            if self.documents[k].0 == *key {
                return Some(k);
            }
            k += 1;
        }
        proof {
            if assoc::contains_key(self.deep_view().documents, key@) {
                let i = choose|i: int|
                    0 <= i < self.deep_view().documents.len() && (
                    #[trigger] self.deep_view().documents[i]).0 == key@;
                assert(self.deep_view().documents[i].0 != key@);
            }
        }
        None
    }

    /// Applies an `AddDocuments` job: resolves the primary key, validates
    /// that every document carries a value under it, and only then lands
    /// the whole batch — a failing batch leaves the index untouched.
    #[verifier::loop_isolation(false)]
    pub fn apply_add_documents(
        &mut self,
        method: IndexDocumentsMethod,
        declared: &Option<String>,
        docs: &Vec<Document>,
        now: i64,
    ) -> (r: Result<UpdateResult, Error>)
        requires
            index_wf(old(self).deep_view()),
        ensures
            index_wf(final(self).deep_view()),
            add_documents_rel(
                old(self).deep_view(),
                final(self).deep_view(),
                r,
                method,
                declared.deep_view(),
                docs.deep_view(),
                now,
            ),
    {
        let ghost m0 = self.deep_view();
        let ghost batch = docs.deep_view();
        let key: String;
        if let Some(k) = &self.primary_key {
            if let Some(d) = declared {
                if !(*d == *k) {
                    return Err(Error::PrimaryKeyMismatch);
                }
            }
            key = k.clone();
        } else if let Some(d) = declared {
            key = d.clone();
        } else {
            if docs.len() == 0 {
                return Err(Error::MissingPrimaryKey);
            }
            match docs[0].first_pk_field() {
                Some(i) => {
                    proof {
                        let c = choose|i: int| is_first_pk_field(batch[0], i);
                        if c < i as int {
                            assert(!is_pk_field_name(batch[0][c].0));
                        }
                        if (i as int) < c {
                            assert(!is_pk_field_name(batch[0][i as int].0));
                        }
                    }
                    key = docs[0].fields[i].0.clone();
                },
                None => {
                    proof {
                        if exists|i: int| is_first_pk_field(batch[0], i) {
                            let c = choose|i: int| is_first_pk_field(batch[0], i);
                            assert(!is_pk_field_name(batch[0][c].0));
                        }
                    }
                    return Err(Error::MissingPrimaryKey);
                },
            }
        }
        proof {
            assert(resolved_pk(m0.primary_key, declared.deep_view(), batch) == Ok::<
                Seq<char>,
                Error,
            >(key@));
        }
        let mut kvs: Vec<String> = Vec::new();
        let mut k: usize = 0;
        while k < docs.len()
            invariant
                k <= docs.len(),
                kvs@.len() == k,
                batch == docs.deep_view(),
                forall|i: int|
                    0 <= i < k ==> doc_key_value(batch[i], key@) == Some((#[trigger] kvs@[i])@),
            decreases docs.len() - k,
        {
            match docs[k].key_value(&key) {
                Some(v) => {
                    kvs.push(v);
                },
                None => {
                    proof {
                        assert(doc_key_value(batch[k as int], key@) is None);
                        assert(!all_have_key(batch, key@));
                    }
                    return Err(
                        Error::MalformedPayload {
                            reason: "a document carries no value under the primary key".to_owned(),
                        },
                    );
                },
            }
            k += 1;
        }
        let ghost key_s = key@;
        proof {
            assert(batch.skip(0) =~= batch);
        }
        let mut k: usize = 0;
        while k < docs.len()
            invariant
                k <= docs.len(),
                kvs@.len() == docs.len() == batch.len(),
                batch == docs.deep_view(),
                key@ == key_s,
                forall|i: int|
                    0 <= i < batch.len() ==> doc_key_value(#[trigger] batch[i], key_s) == Some(
                        kvs@[i]@,
                    ),
                index_wf(self.deep_view()),
                apply_batch(self.deep_view().documents, key_s, batch.skip(k as int), method)
                    == apply_batch(m0.documents, key_s, batch, method),
                self.deep_view().created_at == m0.created_at,
                self.deep_view().updated_at == m0.updated_at,
                self.deep_view().settings == m0.settings,
                self.deep_view().primary_key == m0.primary_key,
            decreases docs.len() - k,
        {
            let ghost rest = batch.skip(k as int);
            let ghost pre = self.deep_view().documents;
            proof {
                assert(rest[0] == batch[k as int]);
                assert(rest.drop_first() =~= batch.skip(k as int + 1));
                assert(doc_key_value(batch[k as int], key_s) == Some(kvs@[k as int]@));
            }
            let kv = kvs[k].clone();
            match self.position_of_doc(&kv) {
                Some(i) => {
                    proof {
                        assoc::lemma_key_index_unique(pre, i as int, kv@);
                    }
                    let entry = self.documents.remove(i);
                    let newdoc = match method {
                        IndexDocumentsMethod::ReplaceDocuments => docs[k].duplicate(),
                        IndexDocumentsMethod::UpdateDocuments => merge_documents(
                            &entry.1,
                            &docs[k],
                        ),
                    };
                    let ghost nd = newdoc.deep_view();
                    self.documents.insert(i, (kv, newdoc));
                    proof {
                        assert(self.deep_view().documents =~= pre.update(i as int, (kv@, nd)));
                        assert(self.deep_view().documents == insert_doc(
                            pre,
                            key_s,
                            batch[k as int],
                            method,
                        ));
                        assert forall|a: int, b: int|
                            0 <= a < b < self.deep_view().documents.len() implies (
                        #[trigger] self.deep_view().documents[a]).0 != (
                        #[trigger] self.deep_view().documents[b]).0 by {
                            assert(self.deep_view().documents[a].0 == pre[a].0);
                            assert(self.deep_view().documents[b].0 == pre[b].0);
                        }
                    }
                },
                None => {
                    let newdoc = docs[k].duplicate();
                    let ghost nd = newdoc.deep_view();
                    proof {
                        assoc::lemma_push(pre, kv@, nd);
                    }
                    self.documents.push((kv, newdoc));
                    proof {
                        assert(self.deep_view().documents =~= pre.push((kv@, nd)));
                        assert(self.deep_view().documents == insert_doc(
                            pre,
                            key_s,
                            batch[k as int],
                            method,
                        ));
                    }
                },
            }
            k += 1;
        }
        proof {
            assert(batch.skip(batch.len() as int) =~= Seq::<DocModel>::empty());
        }
        self.primary_key = Some(key);
        self.updated_at = now;
        Ok(UpdateResult::DocumentsAddition { nb_documents: docs.len() })
    }

    /// Applies an `UpdateSettings` job.
    pub fn apply_update_settings(&mut self, s: &Settings, now: i64) -> (r: Result<
        UpdateResult,
        Error,
    >)
        requires
            index_wf(old(self).deep_view()),
        ensures
            index_wf(final(self).deep_view()),
            update_settings_rel(
                old(self).deep_view(),
                final(self).deep_view(),
                r,
                s.deep_view(),
                now,
            ),
    {
        if let Some(k) = &self.primary_key {
            if let Some(d) = &s.primary_key {
                if !(*d == *k) {
                    return Err(Error::PrimaryKeyMismatch);
                }
            }
        } else {
            self.primary_key = match &s.primary_key {
                Some(d) => Some(d.clone()),
                None => None,
            };
        }
        self.settings = s.duplicate();
        self.updated_at = now;
        Ok(UpdateResult::Other)
    }

    /// Applies a `ClearDocuments` job: drops the documents, keeps the
    /// settings.
    pub fn apply_clear_documents(&mut self, now: i64) -> (r: Result<UpdateResult, Error>)
        requires
            index_wf(old(self).deep_view()),
        ensures
            index_wf(final(self).deep_view()),
            clear_documents_rel(old(self).deep_view(), final(self).deep_view(), r, now),
    {
        self.documents = Vec::new();
        self.updated_at = now;
        proof {
            assert(self.deep_view().documents =~= Seq::<(Seq<char>, DocModel)>::empty());
        }
        Ok(UpdateResult::Other)
    }

    /// Applies a `DeleteDocuments` job: removes the documents keyed by the
    /// given primary-key values and reports how many were present.
    #[verifier::loop_isolation(false)]
    pub fn apply_delete_documents(&mut self, ids: &Vec<String>, now: i64) -> (r: Result<
        UpdateResult,
        Error,
    >)
        requires
            index_wf(old(self).deep_view()),
        ensures
            index_wf(final(self).deep_view()),
            delete_documents_rel(
                old(self).deep_view(),
                final(self).deep_view(),
                r,
                ids.deep_view(),
                now,
            ),
    {
        let ghost m0 = self.deep_view();
        let ghost keys = ids.deep_view();
        let n0 = self.documents.len();
        proof {
            assert(keys.skip(0) =~= keys);
        }
        let mut k: usize = 0;
        while k < ids.len()
            invariant
                k <= ids.len(),
                keys == ids.deep_view(),
                n0 == m0.documents.len(),
                index_wf(self.deep_view()),
                remove_keys(self.deep_view().documents, keys.skip(k as int)) == remove_keys(
                    m0.documents,
                    keys,
                ),
                self.deep_view().documents.len() <= m0.documents.len(),
                self.deep_view().created_at == m0.created_at,
                self.deep_view().updated_at == m0.updated_at,
                self.deep_view().settings == m0.settings,
                self.deep_view().primary_key == m0.primary_key,
            decreases ids.len() - k,
        {
            let ghost rest = keys.skip(k as int);
            let ghost pre = self.deep_view().documents;
            proof {
                assert(rest[0] == keys[k as int]);
                assert(rest.drop_first() =~= keys.skip(k as int + 1));
            }
            match self.position_of_doc(&ids[k]) {
                Some(i) => {
                    proof {
                        assoc::lemma_key_index_unique(pre, i as int, keys[k as int]);
                        assoc::lemma_remove(pre, i as int);
                    }
                    self.documents.remove(i);
                    proof {
                        assert(self.deep_view().documents =~= pre.remove(i as int));
                        assert(self.deep_view().documents == remove_key(pre, keys[k as int]));
                    }
                },
                None => {
                    proof {
                        assert(remove_key(pre, keys[k as int]) == pre);
                    }
                },
            }
            k += 1;
        }
        proof {
            assert(keys.skip(keys.len() as int) =~= Seq::<Seq<char>>::empty());
        }
        self.updated_at = now;
        let deleted = n0 - self.documents.len();
        Ok(UpdateResult::DocumentDeletion { deleted })
    }
}

/// Handle on the index worker: the owner of every live index's engine
/// state, keyed by internal id. Writes on one id are serialized through
/// `&mut self`; `path` and `index_size` record where and how large the
/// on-disk engine environments are, which the surrounding process manages.
pub struct IndexActorHandleImpl {
    indexes: Vec<(u128, IndexState)>,
    pub path: String,
    pub index_size: usize,
}

impl IndexActorHandleImpl {
    /// The live indexes, keyed by id.
    pub closed spec fn map(&self) -> Seq<(u128, IndexModel)> {
        self.indexes.deep_view()
    }

    /// Ids are unique and every index satisfies its own invariant.
    pub open spec fn wf(&self) -> bool {
        &&& assoc::unique_keys(self.map())
        &&& forall|i: int| 0 <= i < self.map().len() ==> index_wf((#[trigger] self.map()[i]).1)
    }

    /// A worker with no indexes yet.
    pub fn new(path: String, index_size: usize) -> (r: Result<IndexActorHandleImpl, Error>)
        ensures
            r matches Ok(h) && h.wf() && h.map() == Seq::<(u128, IndexModel)>::empty(),
    {
        let h = IndexActorHandleImpl { indexes: Vec::new(), path, index_size };
        proof {
            assert(h.map() =~= Seq::<(u128, IndexModel)>::empty());
        }
        Ok(h)
    }

    /// Position of index `uuid`.
    fn position_of_index(&self, uuid: u128) -> (r: Option<usize>)
        ensures
            match r {
                Some(i) => i < self.map().len() && self.map()[i as int].0 == uuid,
                None => !assoc::contains_key(self.map(), uuid),
            },
    {
        let mut k: usize = 0;
        while k < self.indexes.len()
            invariant
                k <= self.indexes.len(),
                forall|j: int| 0 <= j < k ==> (#[trigger] self.map()[j]).0 != uuid,
            decreases self.indexes.len() - k,
        {
            if self.indexes[k].0 == uuid {
                return Some(k);
            }
            k += 1;
        }
        proof {
            if assoc::contains_key(self.map(), uuid) {
                let i = choose|i: int|
                    0 <= i < self.map().len() && (#[trigger] self.map()[i]).0 == uuid;
                assert(self.map()[i].0 != uuid);
            }
        }
        None
    }

    /// Materializes a fresh index under `uuid`.
    pub fn create_index(&mut self, uuid: u128, primary_key: Option<String>, now: i64) -> (r: Result<
        IndexMeta,
        Error,
    >)
        requires
            old(self).wf(),
        ensures
            final(self).wf(),
            assoc::contains_key(old(self).map(), uuid) ==> r == Err::<IndexMeta, Error>(
                Error::AlreadyExists,
            ) && *final(self) == *old(self),
            !assoc::contains_key(old(self).map(), uuid) ==> (r matches Ok(meta)
                && meta.created_at == now && meta.number_of_documents == 0) && final(self).map()
                == old(self).map().push((uuid, fresh_index_model(primary_key.deep_view(), now))),
    {
        if let Some(_) = self.position_of_index(uuid) {
            return Err(Error::AlreadyExists);
        }
        let st = IndexState::new(primary_key, now);
        let meta = st.meta();
        let ghost pre = self.map();
        let ghost m = st.deep_view();
        proof {
            assoc::lemma_push(pre, uuid, m);
        }
        self.indexes.push((uuid, st));
        proof {
            assert(self.map() =~= pre.push((uuid, m)));
        }
        Ok(meta)
    }

    /// Tears down the index under `uuid`.
    pub fn delete(&mut self, uuid: u128) -> (r: Result<(), Error>)
        requires
            old(self).wf(),
        ensures
            final(self).wf(),
            !assoc::contains_key(old(self).map(), uuid) ==> r == Err::<(), Error>(Error::NotFound)
                && *final(self) == *old(self),
            assoc::contains_key(old(self).map(), uuid) ==> r == Ok::<(), Error>(()) && !assoc::contains_key(
                final(self).map(),
                uuid,
            ) && (forall|u: u128|
                u != uuid ==> assoc::contains_key(final(self).map(), u) == assoc::contains_key(
                    old(self).map(),
                    u,
                )) && (forall|u: u128|
                u != uuid && assoc::contains_key(old(self).map(), u) ==> assoc::value_of(
                    final(self).map(),
                    u,
                ) == assoc::value_of(old(self).map(), u)),
    {
        match self.position_of_index(uuid) {
            Some(i) => {
                proof {
                    assoc::lemma_key_index_unique(self.map(), i as int, uuid);
                    assoc::lemma_remove(self.map(), i as int);
                }
                let ghost pre = self.map();
                self.indexes.remove(i);
                proof {
                    assert(self.map() =~= pre.remove(i as int));
                }
                Ok(())
            },
            None => Err(Error::NotFound),
        }
    }

    /// The metadata of index `uuid`.
    pub fn get_index_meta(&self, uuid: u128) -> (r: Result<IndexMeta, Error>)
        requires
            self.wf(),
        ensures
            !assoc::contains_key(self.map(), uuid) ==> r == Err::<IndexMeta, Error>(
                Error::NotFound,
            ),
            assoc::contains_key(self.map(), uuid) ==> ({
                let m = assoc::value_of(self.map(), uuid);
                r matches Ok(meta) && meta.created_at == m.created_at && meta.updated_at
                    == m.updated_at && meta.primary_key.deep_view() == m.primary_key
                    && meta.number_of_documents == m.documents.len()
            }),
    {
        match self.position_of_index(uuid) {
            Some(i) => {
                proof {
                    assoc::lemma_key_index_unique(self.map(), i as int, uuid);
                }
                Ok(self.indexes[i].1.meta())
            },
            None => Err(Error::NotFound),
        }
    }

    /// Whether the engine can dump index `uuid` into a snapshot directory:
    /// the dump itself is filesystem work outside this crate, but it exists
    /// exactly for live ids.
    pub fn snapshot(&self, uuid: u128) -> (r: Result<(), Error>)
        ensures
            r is Ok <==> assoc::contains_key(self.map(), uuid),
    {
        match self.position_of_index(uuid) {
            Some(i) => {
                proof {
                    assert(assoc::contains_key(self.map(), uuid));
                }
                Ok(())
            },
            None => Err(Error::NotFound),
        }
    }

    /// Sets a missing primary key (a conflicting one is a mismatch) and
    /// returns the index's metadata.
    pub fn update_index(&mut self, uuid: u128, primary_key: &Option<String>, now: i64) -> (r:
        Result<IndexMeta, Error>)
        requires
            old(self).wf(),
        ensures
            final(self).wf(),
            !assoc::contains_key(old(self).map(), uuid) ==> r == Err::<IndexMeta, Error>(
                Error::NotFound,
            ) && *final(self) == *old(self),
            assoc::contains_key(old(self).map(), uuid) ==> ({
                let m0 = assoc::value_of(old(self).map(), uuid);
                let m1 = assoc::value_of(final(self).map(), uuid);
                &&& assoc::contains_key(final(self).map(), uuid)
                &&& (forall|u: u128|
                    u != uuid ==> assoc::contains_key(final(self).map(), u) == assoc::contains_key(
                        old(self).map(),
                        u,
                    ))
                &&& (forall|u: u128|
                    u != uuid && assoc::contains_key(old(self).map(), u) ==> assoc::value_of(
                        final(self).map(),
                        u,
                    ) == assoc::value_of(old(self).map(), u))
                &&& match primary_key.deep_view() {
                    None => m1 == m0 && (r matches Ok(_)),
                    Some(d) => match m0.primary_key {
                        Some(k) => if d == k {
                            m1 == m0 && (r matches Ok(_))
                        } else {
                            r == Err::<IndexMeta, Error>(Error::PrimaryKeyMismatch) && m1 == m0
                        },
                        None => (r matches Ok(_)) && m1 == (IndexModel {
                            created_at: m0.created_at,
                            updated_at: now,
                            primary_key: Some(d),
                            settings: m0.settings,
                            documents: m0.documents,
                        }),
                    },
                }
                &&& (r matches Ok(meta) ==> meta.created_at == m1.created_at && meta.updated_at
                    == m1.updated_at && meta.primary_key.deep_view() == m1.primary_key
                    && meta.number_of_documents == m1.documents.len())
            }),
    {
        let i = match self.position_of_index(uuid) {
            Some(i) => i,
            None => {
                return Err(Error::NotFound);
            },
        };
        proof {
            assoc::lemma_key_index_unique(self.map(), i as int, uuid);
        }
        let ghost pre = self.map();
        let mut entry = self.indexes.remove(i);
        let failed: bool = match (primary_key, &entry.1.primary_key) {
            (Some(d), Some(k)) => !(*d == *k),
            (Some(d), None) => {
                entry.1.primary_key = Some(d.clone());
                entry.1.updated_at = now;
                false
            },
            _ => false,
        };
        let ghost m1 = entry.1.deep_view();
        let meta = entry.1.meta();
        self.indexes.insert(i, entry);
        proof {
            assert(self.map() =~= pre.update(i as int, (uuid, m1)));
            assoc::lemma_update_value(pre, i as int, m1);
        }
        if failed {
            return Err(Error::PrimaryKeyMismatch);
        }
        Ok(meta)
    }

    /// The per-field document counts of index `uuid`.
    pub fn fields_distribution(&self, uuid: u128) -> (r: Result<Vec<(String, u64)>, Error>)
        requires
            self.wf(),
        ensures
            !assoc::contains_key(self.map(), uuid) ==> r == Err::<Vec<(String, u64)>, Error>(
                Error::NotFound,
            ),
            assoc::contains_key(self.map(), uuid) ==> ({
                let docs = assoc::value_of(self.map(), uuid).documents;
                r matches Ok(v) && assoc::unique_keys(v.deep_view()) && (forall|i: int|
                    0 <= i < v.deep_view().len() ==> (#[trigger] v.deep_view()[i]).1
                        == count_with_field(docs, v.deep_view()[i].0) && v.deep_view()[i].1
                        >= 1) && (forall|d: int, f: int|
                    0 <= d < docs.len() && 0 <= f < docs[d].1.len() ==> assoc::contains_key(
                        v.deep_view(),
                        (#[trigger] docs[d].1[f]).0,
                    ))
            }),
    {
        match self.position_of_index(uuid) {
            Some(i) => {
                proof {
                    assoc::lemma_key_index_unique(self.map(), i as int, uuid);
                }
                Ok(self.indexes[i].1.fields_distribution())
            },
            None => Err(Error::NotFound),
        }
    }

    /// Applies one update job to index `uuid`, dispatching on its
    /// description. A job against a deleted id fails with
    /// `IndexUnavailable`; a payload that did not decode fails with
    /// `MalformedPayload` and leaves the index untouched.
    pub fn update(
        &mut self,
        uuid: u128,
        meta: &UpdateMeta,
        decoded: &Result<Vec<Document>, String>,
        now: i64,
    ) -> (r: Result<UpdateResult, Error>)
        requires
            old(self).wf(),
        ensures
            final(self).wf(),
            !assoc::contains_key(old(self).map(), uuid) ==> r == Err::<UpdateResult, Error>(
                Error::IndexUnavailable,
            ) && *final(self) == *old(self),
            assoc::contains_key(old(self).map(), uuid) ==> ({
                let m0 = assoc::value_of(old(self).map(), uuid);
                let m1 = assoc::value_of(final(self).map(), uuid);
                &&& assoc::contains_key(final(self).map(), uuid)
                &&& (forall|u: u128|
                    u != uuid ==> assoc::contains_key(final(self).map(), u) == assoc::contains_key(
                        old(self).map(),
                        u,
                    ))
                &&& (forall|u: u128|
                    u != uuid && assoc::contains_key(old(self).map(), u) ==> assoc::value_of(
                        final(self).map(),
                        u,
                    ) == assoc::value_of(old(self).map(), u))
                &&& match meta.deep_view() {
                    MetaModel::AddDocuments { method, primary_key, .. } => match decoded {
                        Ok(docs) => add_documents_rel(
                            m0,
                            m1,
                            r,
                            method,
                            primary_key,
                            docs.deep_view(),
                            now,
                        ),
                        Err(reason) => (r matches Err(Error::MalformedPayload { reason: rr })
                            && rr@ == reason@) && m1 == m0,
                    },
                    MetaModel::UpdateSettings { settings } => update_settings_rel(
                        m0,
                        m1,
                        r,
                        settings,
                        now,
                    ),
                    MetaModel::ClearDocuments => clear_documents_rel(m0, m1, r, now),
                    MetaModel::DeleteDocuments { ids } => delete_documents_rel(m0, m1, r, ids, now),
                }
            }),
    {
        let i = match self.position_of_index(uuid) {
            Some(i) => i,
            None => {
                return Err(Error::IndexUnavailable);
            },
        };
        proof {
            assoc::lemma_key_index_unique(self.map(), i as int, uuid);
        }
        let ghost pre = self.map();
        let mut entry = self.indexes.remove(i);
        let r = match meta {
            UpdateMeta::AddDocuments { method, format: _, primary_key } => match decoded {
                Ok(docs) => entry.1.apply_add_documents(*method, primary_key, docs, now),
                Err(reason) => Err(Error::MalformedPayload { reason: reason.clone() }),
            },
            UpdateMeta::UpdateSettings { settings } => entry.1.apply_update_settings(settings, now),
            UpdateMeta::ClearDocuments => entry.1.apply_clear_documents(now),
            UpdateMeta::DeleteDocuments { ids } => entry.1.apply_delete_documents(ids, now),
        };
        let ghost m1 = entry.1.deep_view();
        self.indexes.insert(i, entry);
        proof {
            assert(self.map() =~= pre.update(i as int, (uuid, m1)));
            assoc::lemma_update_value(pre, i as int, m1);
        }
        r
    }
}


/// Number of documents that carry a field named `name`.
pub open spec fn count_with_field(docs: Seq<(Seq<char>, DocModel)>, name: Seq<char>) -> int
    decreases docs.len(),
{
    if docs.len() == 0 {
        0
    } else {
        (if assoc::contains_key(docs[0].1, name) {
            1int
        } else {
            0int
        }) + count_with_field(docs.drop_first(), name)
    }
}

/// Document counts are never negative.
proof fn lemma_count_nonneg(docs: Seq<(Seq<char>, DocModel)>, name: Seq<char>)
    ensures
        count_with_field(docs, name) >= 0,
    decreases docs.len(),
{
    if docs.len() > 0 {
        lemma_count_nonneg(docs.drop_first(), name)
    }
}

/// A field name some document carries is counted at least once.
proof fn lemma_count_positive(docs: Seq<(Seq<char>, DocModel)>, name: Seq<char>, d: int)
    requires
        0 <= d < docs.len(),
        assoc::contains_key(docs[d].1, name),
    ensures
        count_with_field(docs, name) >= 1,
    decreases d,
{
    lemma_count_nonneg(docs.drop_first(), name);
    if d > 0 {
        assert(docs.drop_first()[d - 1] == docs[d]);
        lemma_count_positive(docs.drop_first(), name, d - 1);
    }
}

/// Whether the distribution built so far already has an entry for `name`.
fn distribution_has_name(out: &Vec<(String, u64)>, name: &String) -> (r: bool)
    ensures
        r == assoc::contains_key(out.deep_view(), name@),
{
    let mut k: usize = 0;
    while k < out.len()
        invariant
            k <= out.len(),
            forall|j: int| 0 <= j < k ==> (#[trigger] out.deep_view()[j]).0 != name@,
        decreases out.len() - k,
    {
        if out[k].0 == *name {
            proof {
                assert((#[trigger] out.deep_view()[k as int]).0 == name@);
            }
            return true;
        }
        k += 1;
    }
    proof {
        if assoc::contains_key(out.deep_view(), name@) {
            let i = choose|i: int|
                0 <= i < out.deep_view().len() && (#[trigger] out.deep_view()[i]).0 == name@;
            assert(out.deep_view()[i].0 != name@);
        }
    }
    false
}

impl IndexState {
    /// How many stored documents carry a field named `name`.
    #[verifier::loop_isolation(false)]
    fn count_field(&self, name: &String) -> (r: usize)
        ensures
            r == count_with_field(self.deep_view().documents, name@),
    {
        let ghost docs = self.deep_view().documents;
        proof {
            assert(docs.skip(0) =~= docs);
        }
        let mut acc: usize = 0;
        let mut k: usize = 0;
        while k < self.documents.len()
            invariant
                k <= self.documents.len(),
                acc <= k,
                acc + count_with_field(docs.skip(k as int), name@) == count_with_field(
                    docs,
                    name@,
                ),
            decreases self.documents.len() - k,
        {
            let ghost rest = docs.skip(k as int);
            proof {
                assert(rest[0] == docs[k as int]);
                assert(rest.drop_first() =~= docs.skip(k as int + 1));
            }
            if self.documents[k].1.has_field(name) {
                acc += 1;
            }
            k += 1;
        }
        proof {
            assert(docs.skip(docs.len() as int) =~= Seq::<(Seq<char>, DocModel)>::empty());
        }
        acc
    }

    /// For each field name occurring in any stored document, the number
    /// of documents that carry it. Every occurring field has exactly one
    /// entry.
    #[verifier::loop_isolation(false)]
    pub fn fields_distribution(&self) -> (r: Vec<(String, u64)>)
        ensures
            assoc::unique_keys(r.deep_view()),
            forall|i: int|
                0 <= i < r.deep_view().len() ==> (#[trigger] r.deep_view()[i]).1
                    == count_with_field(self.deep_view().documents, r.deep_view()[i].0),
            forall|i: int| 0 <= i < r.deep_view().len() ==> (#[trigger] r.deep_view()[i]).1 >= 1,
            forall|d: int, f: int|
                0 <= d < self.deep_view().documents.len() && 0 <= f
                    < self.deep_view().documents[d].1.len() ==> assoc::contains_key(
                    r.deep_view(),
                    (#[trigger] self.deep_view().documents[d].1[f]).0,
                ),
    {
        let ghost docs = self.deep_view().documents;
        let mut out: Vec<(String, u64)> = Vec::new();
        let mut d: usize = 0;
        while d < self.documents.len()
            invariant
                d <= self.documents.len(),
                assoc::unique_keys(out.deep_view()),
                forall|i: int|
                    0 <= i < out.deep_view().len() ==> (#[trigger] out.deep_view()[i]).1
                        == count_with_field(docs, out.deep_view()[i].0),
                forall|i: int|
                    0 <= i < out.deep_view().len() ==> (#[trigger] out.deep_view()[i]).1 >= 1,
                forall|d2: int, f: int|
                    0 <= d2 < d && 0 <= f < docs[d2].1.len() ==> assoc::contains_key(
                        out.deep_view(),
                        (#[trigger] docs[d2].1[f]).0,
                    ),
            decreases self.documents.len() - d,
        {
            let nfields = self.documents[d].1.fields.len();
            let mut f: usize = 0;
            while f < nfields
                invariant
                    f <= nfields,
                    nfields == docs[d as int].1.len(),
                    d < self.documents.len(),
                    assoc::unique_keys(out.deep_view()),
                    forall|i: int|
                        0 <= i < out.deep_view().len() ==> (#[trigger] out.deep_view()[i]).1
                            == count_with_field(docs, out.deep_view()[i].0),
                    forall|i: int|
                        0 <= i < out.deep_view().len() ==> (#[trigger] out.deep_view()[i]).1 >= 1,
                    forall|d2: int, f2: int|
                        0 <= d2 < d && 0 <= f2 < docs[d2].1.len() ==> assoc::contains_key(
                            out.deep_view(),
                            (#[trigger] docs[d2].1[f2]).0,
                        ),
                    forall|f2: int|
                        0 <= f2 < f ==> assoc::contains_key(
                            out.deep_view(),
                            (#[trigger] docs[d as int].1[f2]).0,
                        ),
                decreases nfields - f,
            {
                let name = self.documents[d].1.fields[f].0.clone();
                if !distribution_has_name(&out, &name) {
                    let c = self.count_field(&name);
                    let ghost pre = out.deep_view();
                    proof {
                        assert(assoc::contains_key(docs[d as int].1, name@));
                        lemma_count_positive(docs, name@, d as int);
                        assoc::lemma_push(pre, name@, c as u64);
                    }
                    out.push((name, c as u64));
                    proof {
                        assert(out.deep_view() =~= pre.push((docs[d as int].1[f as int].0, c as u64)));
                    }
                } else {
                    proof {
                        assert(assoc::contains_key(out.deep_view(), docs[d as int].1[f as int].0));
                    }
                }
                f += 1;
            }
            d += 1;
        }
        out
    }
}

} // verus!
