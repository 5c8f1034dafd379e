//! The store of one account's Sieve scripts.
//!
//! This is the library's own store: it keeps documents and blobs in memory
//! and stands for the server's persistent store, whose batches, asserted
//! values and blobs it follows. It has no failure of its own but a value
//! that is no longer the stored one, and an identifier that cannot be
//! assigned because none is left.
//!
//! A document holds the value of a script (its name, whether it is active,
//! where its source ends in its blob) and the identifiers of the messages it
//! has answered. Blobs are kept beside the documents under their own names.
//!
//! Documents are written in batches. An update carries the value that its
//! writer read; the batch is applied only if every such value is still the
//! stored one, and then as a whole. This is a compare-and-swap on the stored
//! value: of two writers that read the same value, the second to commit
//! fails once the first has changed it.
use vstd::prelude::*;
use crate::sieve::object::{BlobId, BlobKind};

verus! {

/// The stored value of a script.
#[derive(Debug, PartialEq, Eq)]
pub struct Script {
    pub name: String,
    pub is_active: bool,
    /// The length of the script's source, which is where the compiled form
    /// begins in the script's blob.
    pub blob_size: u64,
}

/// The mathematical value of a `Script`.
pub ghost struct ScriptView {
    pub name: Seq<char>,
    pub is_active: bool,
    pub blob_size: u64,
}

impl View for Script {
    type V = ScriptView;

    open spec fn view(&self) -> ScriptView {
        ScriptView { name: self.name@, is_active: self.is_active, blob_size: self.blob_size }
    }
}

impl Clone for Script {
    fn clone(&self) -> (copy: Self)
        ensures
            copy@ == self@,
    {
        Script { name: self.name.clone(), is_active: self.is_active, blob_size: self.blob_size }
    }
}

impl Script {
    /// Whether two values are the same.
    pub fn same_as(&self, other: &Script) -> (same: bool)
        ensures
            same == (self@ == other@),
    {
        let same = self.name == other.name && self.is_active == other.is_active && self.blob_size
            == other.blob_size;
        assert(same ==> self@ =~= other@);
        same
    }
}

/// A stored script: its identifier, its value, and the identifiers of the
/// messages it has answered.
#[derive(Debug, PartialEq, Eq)]
pub struct Document {
    pub document_id: u32,
    pub value: Script,
    pub email_ids: Vec<u32>,
}

/// The mathematical value of a `Document`.
pub ghost struct DocumentView {
    pub document_id: u32,
    pub value: ScriptView,
    pub email_ids: Seq<u32>,
}

impl View for Document {
    type V = DocumentView;

    open spec fn view(&self) -> DocumentView {
        DocumentView {
            document_id: self.document_id,
            value: self.value@,
            email_ids: self.email_ids@,
        }
    }
}

/// A stored blob.
#[derive(Debug, PartialEq, Eq)]
pub struct Blob {
    pub kind: BlobKind,
    pub bytes: Vec<u8>,
}

/// The mathematical value of a `Blob`.
pub ghost struct BlobView {
    pub kind: BlobKind,
    pub bytes: Seq<u8>,
}

impl View for Blob {
    type V = BlobView;

    open spec fn view(&self) -> BlobView {
        BlobView { kind: self.kind, bytes: self.bytes@ }
    }
}

/// One operation of a batch.
#[derive(Debug, PartialEq, Eq)]
pub enum Operation {
    /// Store a document under the identifier with the value.
    Create { document_id: u32, value: Script },
    /// Replace the value of a document, on condition that `assert_value` is
    /// the stored value; take its message identifiers out where
    /// `clear_email_ids` is set.
    Update { document_id: u32, assert_value: Script, value: Script, clear_email_ids: bool },
    /// Take a document out.
    Delete { document_id: u32 },
}

/// The mathematical value of an `Operation`.
pub ghost enum OperationView {
    Create { document_id: u32, value: ScriptView },
    Update { document_id: u32, assert_value: ScriptView, value: ScriptView, clear_email_ids: bool },
    Delete { document_id: u32 },
}

impl View for Operation {
    type V = OperationView;

    open spec fn view(&self) -> OperationView {
        match self {
            Operation::Create { document_id, value } => OperationView::Create {
                document_id: *document_id,
                value: value@,
            },
            Operation::Update {
                document_id,
                assert_value,
                value,
                clear_email_ids,
            } => OperationView::Update {
                document_id: *document_id,
                assert_value: assert_value@,
                value: value@,
                clear_email_ids: *clear_email_ids,
            },
            Operation::Delete { document_id } => OperationView::Delete {
                document_id: *document_id,
            },
        }
    }
}

/// The operations of a batch, each by its value.
pub open spec fn batch_view(batch: Seq<Operation>) -> Seq<OperationView> {
    Seq::new(batch.len(), |i: int| batch[i]@)
}

/// Why the store turned a request down.
#[derive(Clone, Copy, Debug, PartialEq, Eq, Structural)]
pub enum StoreError {
    /// A value that a batch asserted is no longer the stored one.
    AssertValueFailed,
    /// The store could not do what was asked.
    InternalError,
}

/// The place of the document with the identifier, the first if there are
/// several.
pub open spec fn position_of(documents: Seq<DocumentView>, id: u32) -> Option<int>
    decreases documents.len(),
{
    if documents.len() == 0 {
        None
    } else if documents[0].document_id == id {
        Some(0)
    } else {
        match position_of(documents.drop_first(), id) {
            Some(at) => Some(at + 1),
            None => None,
        }
    }
}

/// The stored value of the document with the identifier.
pub open spec fn value_of(documents: Seq<DocumentView>, id: u32) -> Option<ScriptView> {
    match position_of(documents, id) {
        Some(at) => Some(documents[at].value),
        None => None,
    }
}

/// Whether no two documents have the same identifier.
pub open spec fn distinct_ids(documents: Seq<DocumentView>) -> bool {
    forall|i: int, j: int|
        0 <= i < j < documents.len() ==> (#[trigger] documents[i]).document_id
            != (#[trigger] documents[j]).document_id
}

/// The identifiers of the documents, in their order.
pub open spec fn document_ids(documents: Seq<DocumentView>) -> Seq<u32> {
    Seq::new(documents.len(), |i: int| documents[i].document_id)
}

/// The least identifier among the documents with the name.
pub open spec fn min_id_named(documents: Seq<DocumentView>, name: Seq<char>) -> Option<u32>
    decreases documents.len(),
{
    if documents.len() == 0 {
        None
    } else {
        let before = min_id_named(documents.drop_last(), name);
        let last = documents.last();
        if last.value.name != name {
            before
        } else if before matches Some(id) && id <= last.document_id {
            before
        } else {
            Some(last.document_id)
        }
    }
}

/// The identifiers of the active documents, in the documents' order.
pub open spec fn active_ids(documents: Seq<DocumentView>) -> Seq<u32>
    decreases documents.len(),
{
    if documents.len() == 0 {
        Seq::empty()
    } else if documents.last().value.is_active {
        active_ids(documents.drop_last()).push(documents.last().document_id)
    } else {
        active_ids(documents.drop_last())
    }
}

/// The identifier that a new document gets: one more than the greatest in
/// use, zero where there is none.
pub open spec fn fresh_id(documents: Seq<DocumentView>) -> int
    decreases documents.len(),
{
    if documents.len() == 0 {
        0
    } else {
        let before = fresh_id(documents.drop_last());
        if documents.last().document_id >= before {
            documents.last().document_id + 1
        } else {
            before
        }
    }
}

/// Whether the store lets the operation pass: an update passes where the
/// value it asserts is the stored one.
pub open spec fn passes(documents: Seq<DocumentView>, op: OperationView) -> bool {
    match op {
        OperationView::Update { document_id, assert_value, .. } => value_of(documents, document_id)
            == Some(assert_value),
        _ => true,
    }
}

/// Whether the store lets every operation of the batch pass.
pub open spec fn all_pass(documents: Seq<DocumentView>, batch: Seq<OperationView>) -> bool {
    forall|i: int| 0 <= i < batch.len() ==> passes(documents, #[trigger] batch[i])
}

/// The documents after one operation. A created document takes the place of
/// one with its identifier, or comes last. An update or a delete of a
/// document that is not there changes nothing.
pub open spec fn applied(documents: Seq<DocumentView>, op: OperationView) -> Seq<DocumentView> {
    match op {
        OperationView::Create { document_id, value } => {
            let fresh = DocumentView { document_id, value, email_ids: Seq::empty() };
            match position_of(documents, document_id) {
                Some(at) => documents.update(at, fresh),
                None => documents.push(fresh),
            }
        },
        OperationView::Update { document_id, value, clear_email_ids, .. } => match position_of(
            documents,
            document_id,
        ) {
            Some(at) => documents.update(
                at,
                DocumentView {
                    document_id,
                    value,
                    email_ids: if clear_email_ids {
                        Seq::empty()
                    } else {
                        documents[at].email_ids
                    },
                },
            ),
            None => documents,
        },
        OperationView::Delete { document_id } => match position_of(documents, document_id) {
            Some(at) => documents.remove(at),
            None => documents,
        },
    }
}

/// The documents after the operations of a batch, one after the other.
pub open spec fn applied_all(documents: Seq<DocumentView>, batch: Seq<OperationView>) -> Seq<
    DocumentView,
>
    decreases batch.len(),
{
    if batch.len() == 0 {
        documents
    } else {
        applied(applied_all(documents, batch.drop_last()), batch.last())
    }
}

/// The documents after a batch was handed in: all of it applied where every
/// operation passes, nothing changed where one does not.
pub open spec fn written(documents: Seq<DocumentView>, batch: Seq<OperationView>) -> Seq<
    DocumentView,
> {
    if all_pass(documents, batch) {
        applied_all(documents, batch)
    } else {
        documents
    }
}

/// The place of the blob with the name, the first if there are several.
pub open spec fn blob_position(blobs: Seq<BlobView>, kind: BlobKind) -> Option<int>
    decreases blobs.len(),
{
    if blobs.len() == 0 {
        None
    } else if blobs[0].kind == kind {
        Some(0)
    } else {
        match blob_position(blobs.drop_first(), kind) {
            Some(at) => Some(at + 1),
            None => None,
        }
    }
}

/// The bytes of the blob with the name.
pub open spec fn blob_of(blobs: Seq<BlobView>, kind: BlobKind) -> Option<Seq<u8>> {
    match blob_position(blobs, kind) {
        Some(at) => Some(blobs[at].bytes),
        None => None,
    }
}

/// The blobs after one was stored under the name: it takes the place of the
/// blob with that name, or comes last.
pub open spec fn with_blob(blobs: Seq<BlobView>, kind: BlobKind, bytes: Seq<u8>) -> Seq<BlobView> {
    match blob_position(blobs, kind) {
        Some(at) => blobs.update(at, BlobView { kind, bytes }),
        None => blobs.push(BlobView { kind, bytes }),
    }
}

/// The blobs after the one with the name was taken out.
pub open spec fn without_blob(blobs: Seq<BlobView>, kind: BlobKind) -> Seq<BlobView> {
    match blob_position(blobs, kind) {
        Some(at) => blobs.remove(at),
        None => blobs,
    }
}

/// The bytes that the holder of an account gets for a blob identifier: those
/// of the stored blob, where the blob belongs to the account.
pub open spec fn downloadable(blobs: Seq<BlobView>, account_id: u32, id: BlobId) -> Option<Seq<u8>> {
    if id.kind.owner() == account_id {
        blob_of(blobs, id.kind)
    } else {
        None
    }
}

/// What `position_of` finds.
pub proof fn lemma_position_of(documents: Seq<DocumentView>, id: u32)
    ensures
        position_of(documents, id) matches Some(at) ==> 0 <= at < documents.len()
            && documents[at].document_id == id && forall|i: int|
            0 <= i < at ==> (#[trigger] documents[i]).document_id != id,
        position_of(documents, id) is None ==> forall|i: int|
            0 <= i < documents.len() ==> (#[trigger] documents[i]).document_id != id,
    decreases documents.len(),
{
    if documents.len() > 0 && documents[0].document_id != id {
        let rest = documents.drop_first();
        lemma_position_of(rest, id);
        assert forall|i: int| 0 < i < documents.len() implies #[trigger] documents[i] == rest[i
            - 1] by {}
        match position_of(rest, id) {
            Some(at) => {
                assert(documents[at + 1] == rest[at]);
                assert forall|i: int| 0 <= i < at + 1 implies (#[trigger] documents[i]).document_id
                    != id by {
                    if i > 0 {
                        assert(rest[i - 1].document_id != id);
                    }
                }
            },
            None => {
                assert forall|i: int| 0 <= i < documents.len() implies (
                #[trigger] documents[i]).document_id != id by {
                    if i > 0 {
                        assert(rest[i - 1].document_id != id);
                    }
                }
            },
        }
    }
}

/// Where identifiers are distinct, a document is found at its own place.
pub proof fn lemma_position_of_distinct(documents: Seq<DocumentView>, at: int)
    requires
        distinct_ids(documents),
        0 <= at < documents.len(),
    ensures
        position_of(documents, documents[at].document_id) == Some(at),
{
    let id = documents[at].document_id;
    lemma_position_of(documents, id);
    match position_of(documents, id) {
        Some(found) => {
            if found < at {
                assert(documents[found].document_id != documents[at].document_id);
            }
        },
        None => {
            assert(documents[at].document_id != id);
        },
    }
}

/// What `blob_position` finds.
pub proof fn lemma_blob_position(blobs: Seq<BlobView>, kind: BlobKind)
    ensures
        blob_position(blobs, kind) matches Some(at) ==> 0 <= at < blobs.len() && blobs[at].kind
            == kind && forall|i: int| 0 <= i < at ==> (#[trigger] blobs[i]).kind != kind,
        blob_position(blobs, kind) is None ==> forall|i: int|
            0 <= i < blobs.len() ==> (#[trigger] blobs[i]).kind != kind,
    decreases blobs.len(),
{
    if blobs.len() > 0 && blobs[0].kind != kind {
        let rest = blobs.drop_first();
        lemma_blob_position(rest, kind);
        match blob_position(rest, kind) {
            Some(at) => {
                assert(blobs[at + 1] == rest[at]);
                assert forall|i: int| 0 <= i < at + 1 implies (#[trigger] blobs[i]).kind
                    != kind by {
                    if i > 0 {
                        assert(rest[i - 1].kind != kind);
                    }
                }
            },
            None => {
                assert forall|i: int| 0 <= i < blobs.len() implies (#[trigger] blobs[i]).kind
                    != kind by {
                    if i > 0 {
                        assert(rest[i - 1].kind != kind);
                    }
                }
            },
        }
    }
}

/// Every identifier in use is below `fresh_id`.
pub proof fn lemma_fresh_id(documents: Seq<DocumentView>)
    ensures
        0 <= fresh_id(documents) <= u32::MAX + 1,
        forall|i: int| 0 <= i < documents.len() ==> (#[trigger] documents[i]).document_id
            < fresh_id(documents),
    decreases documents.len(),
{
    if documents.len() > 0 {
        let shorter = documents.drop_last();
        lemma_fresh_id(shorter);
        assert forall|i: int| 0 <= i < documents.len() implies (#[trigger] documents[i]).document_id
            < fresh_id(documents) by {
            if i < shorter.len() {
                assert(shorter[i].document_id < fresh_id(shorter));
            }
        }
    }
}

/// One operation keeps the identifiers distinct.
pub proof fn lemma_applied_distinct(documents: Seq<DocumentView>, op: OperationView)
    requires
        distinct_ids(documents),
    ensures
        distinct_ids(applied(documents, op)),
{
    let after = applied(documents, op);
    match op {
        OperationView::Create { document_id, value } => {
            lemma_position_of(documents, document_id);
            assert forall|i: int, j: int| 0 <= i < j < after.len() implies (
            #[trigger] after[i]).document_id != (#[trigger] after[j]).document_id by {
                if j < documents.len() {
                    assert(documents[i].document_id != documents[j].document_id);
                } else {
                    assert(documents[i].document_id != document_id);
                }
            }
        },
        OperationView::Update { document_id, .. } => {
            lemma_position_of(documents, document_id);
            assert forall|i: int, j: int| 0 <= i < j < after.len() implies (
            #[trigger] after[i]).document_id != (#[trigger] after[j]).document_id by {
                assert(documents[i].document_id != documents[j].document_id);
            }
        },
        OperationView::Delete { document_id } => {
            lemma_position_of(documents, document_id);
            match position_of(documents, document_id) {
                Some(at) => {
                    assert forall|i: int, j: int| 0 <= i < j < after.len() implies (
                    #[trigger] after[i]).document_id != (#[trigger] after[j]).document_id by {
                        let bi = if i < at { i } else { i + 1 };
                        let bj = if j < at { j } else { j + 1 };
                        assert(documents[bi].document_id != documents[bj].document_id);
                    }
                },
                None => {},
            }
        },
    }
}

/// A batch keeps the identifiers distinct.
pub proof fn lemma_applied_all_distinct(documents: Seq<DocumentView>, batch: Seq<OperationView>)
    requires
        distinct_ids(documents),
    ensures
        distinct_ids(applied_all(documents, batch)),
        distinct_ids(written(documents, batch)),
    decreases batch.len(),
{
    if batch.len() > 0 {
        lemma_applied_all_distinct(documents, batch.drop_last());
        lemma_applied_distinct(applied_all(documents, batch.drop_last()), batch.last());
    }
}

/// The mathematical value of a `Store`.
pub ghost struct StoreView {
    pub account_id: u32,
    pub documents: Seq<DocumentView>,
    pub blobs: Seq<BlobView>,
    /// The number of change sets committed so far.
    pub state: u64,
}

/// The Sieve scripts of one account, with their blobs.
pub struct Store {
    account_id: u32,
    documents: Vec<Document>,
    blobs: Vec<Blob>,
    state: u64,
}

impl View for Store {
    type V = StoreView;

    closed spec fn view(&self) -> StoreView {
        StoreView {
            account_id: self.account_id,
            documents: Seq::new(self.documents@.len(), |i: int| self.documents@[i]@),
            blobs: Seq::new(self.blobs@.len(), |i: int| self.blobs@[i]@),
            state: self.state,
        }
    }
}

impl Store {
    /// The store's invariant: no two documents have the same identifier.
    pub open spec fn wf(&self) -> bool {
        distinct_ids(self@.documents)
    }

    /// The empty store of an account.
    pub fn new(account_id: u32) -> (store: Store)
        ensures
            store.wf(),
            store@ == (StoreView {
                account_id,
                documents: Seq::empty(),
                blobs: Seq::empty(),
                state: 0,
            }),
    {
        let store = Store { account_id, documents: Vec::new(), blobs: Vec::new(), state: 0 };
        assert(store@.documents =~= Seq::empty());
        assert(store@.blobs =~= Seq::empty());
        store
    }

    /// The account whose scripts these are.
    pub fn account_id(&self) -> (id: u32)
        ensures
            id == self@.account_id,
    {
        self.account_id
    }

    /// The number of change sets committed so far.
    pub fn state(&self) -> (state: u64)
        ensures
            state == self@.state,
    {
        self.state
    }

    /// The number of documents.
    pub fn count(&self) -> (n: usize)
        ensures
            n == self@.documents.len(),
    {
        self.documents.len()
    }

    /// The place of the document with the identifier.
    fn find(&self, id: u32) -> (at: Option<usize>)
        ensures
            match at {
                Some(at) => position_of(self@.documents, id) == Some(at as int) && at
                    < self.documents@.len(),
                None => position_of(self@.documents, id) is None,
            },
    {
        let ghost documents = self@.documents;
        let mut at: usize = 0;
        assert(documents.skip(0) =~= documents);
        while at < self.documents.len()
            invariant
                at <= self.documents@.len(),
                documents == self@.documents,
                position_of(documents, id) == match position_of(documents.skip(at as int), id) {
                    Some(found) => Some(found + at),
                    None => None,
                },
            decreases self.documents@.len() - at,
        {
            assert(documents[at as int] == self.documents@[at as int]@);
            assert(documents.skip(at as int)[0] == documents[at as int]);
            assert(documents.skip(at as int).drop_first() =~= documents.skip(at + 1));
            if self.documents[at].document_id == id {
                return Some(at);
            }
            at += 1;
        }
        assert(documents.skip(at as int).len() == 0);
        None
    }

    /// The identifiers of the documents, in their order.
    pub fn get_document_ids(&self) -> (ids: Vec<u32>)
        ensures
            ids@ == document_ids(self@.documents),
    {
        let mut ids: Vec<u32> = Vec::new();
        let mut at: usize = 0;
        while at < self.documents.len()
            invariant
                at <= self.documents@.len(),
                ids@.len() == at,
                forall|i: int| 0 <= i < at ==> ids@[i] == self@.documents[i].document_id,
            decreases self.documents@.len() - at,
        {
            assert(self@.documents[at as int] == self.documents@[at as int]@);
            ids.push(self.documents[at].document_id);
            at += 1;
        }
        assert(ids@ =~= document_ids(self@.documents));
        ids
    }

    /// The stored value of a document, as a writer reads it before an update.
    pub fn get_value(&self, id: u32) -> (value: Option<Script>)
        ensures
            match value {
                Some(script) => value_of(self@.documents, id) == Some(script@),
                None => value_of(self@.documents, id) is None,
            },
    {
        match self.find(id) {
            Some(at) => {
                assert(self@.documents[at as int] == self.documents@[at as int]@);
                Some(self.documents[at].value.clone())
            },
            None => None,
        }
    }

    /// The identifiers of the messages that a script has answered.
    pub fn get_email_ids(&self, id: u32) -> (email_ids: Option<Vec<u32>>)
        ensures
            match email_ids {
                Some(ids) => position_of(self@.documents, id) matches Some(at) && ids@
                    == self@.documents[at].email_ids,
                None => position_of(self@.documents, id) is None,
            },
    {
        match self.find(id) {
            Some(at) => {
                assert(self@.documents[at as int] == self.documents@[at as int]@);
                let ids = self.documents[at].email_ids.clone();
                assert(ids@ =~= self.documents@[at as int].email_ids@);
                Some(ids)
            },
            None => None,
        }
    }

    /// The least identifier among the documents with the name.
    pub fn filter_name(&self, name: &String) -> (found: Option<u32>)
        ensures
            found == min_id_named(self@.documents, name@),
    {
        let ghost documents = self@.documents;
        let mut found: Option<u32> = None;
        let mut at: usize = 0;
        assert(documents.take(0) =~= Seq::<DocumentView>::empty());
        while at < self.documents.len()
            invariant
                at <= self.documents@.len(),
                documents == self@.documents,
                found == min_id_named(documents.take(at as int), name@),
            decreases self.documents@.len() - at,
        {
            assert(documents[at as int] == self.documents@[at as int]@);
            assert(documents.take(at + 1).drop_last() =~= documents.take(at as int));
            assert(documents.take(at + 1).last() == documents[at as int]);
            let document = &self.documents[at];
            if document.value.name == *name {
                found = match found {
                    Some(id) if id <= document.document_id => Some(id),
                    _ => Some(document.document_id),
                };
            }
            at += 1;
        }
        assert(documents.take(at as int) =~= documents);
        found
    }

    /// The identifiers of the active documents, in the documents' order.
    pub fn filter_active(&self) -> (ids: Vec<u32>)
        ensures
            ids@ == active_ids(self@.documents),
    {
        let ghost documents = self@.documents;
        let mut ids: Vec<u32> = Vec::new();
        let mut at: usize = 0;
        assert(documents.take(0) =~= Seq::<DocumentView>::empty());
        while at < self.documents.len()
            invariant
                at <= self.documents@.len(),
                documents == self@.documents,
                ids@ == active_ids(documents.take(at as int)),
            decreases self.documents@.len() - at,
        {
            assert(documents[at as int] == self.documents@[at as int]@);
            assert(documents.take(at + 1).drop_last() =~= documents.take(at as int));
            assert(documents.take(at + 1).last() == documents[at as int]);
            if self.documents[at].value.is_active {
                ids.push(self.documents[at].document_id);
            }
            at += 1;
        }
        assert(documents.take(at as int) =~= documents);
        ids
    }

    /// An identifier for a new document: one more than the greatest in use.
    /// There is none left once the greatest of all identifiers is in use.
    pub fn assign_document_id(&self) -> (id: Result<u32, StoreError>)
        ensures
            match id {
                Ok(id) => id == fresh_id(self@.documents),
                Err(error) => error == StoreError::InternalError && fresh_id(self@.documents)
                    > u32::MAX,
            },
    {
        let ghost documents = self@.documents;
        let mut fresh: u64 = 0;
        let mut at: usize = 0;
        assert(documents.take(0) =~= Seq::<DocumentView>::empty());
        while at < self.documents.len()
            invariant
                at <= self.documents@.len(),
                documents == self@.documents,
                fresh == fresh_id(documents.take(at as int)),
                fresh <= u32::MAX + 1,
            decreases self.documents@.len() - at,
        {
            assert(documents[at as int] == self.documents@[at as int]@);
            assert(documents.take(at + 1).drop_last() =~= documents.take(at as int));
            assert(documents.take(at + 1).last() == documents[at as int]);
            let id: u64 = self.documents[at].document_id as u64;
            if id >= fresh {
                fresh = id + 1;
            }
            at += 1;
        }
        assert(documents.take(at as int) =~= documents);
        if fresh > u32::MAX as u64 {
            Err(StoreError::InternalError)
        } else {
            Ok(fresh as u32)
        }
    }

    /// Whether the store lets the operation pass.
    fn check(&self, op: &Operation) -> (ok: bool)
        ensures
            ok == passes(self@.documents, op@),
    {
        match op {
            Operation::Update { document_id, assert_value, .. } => {
                match self.get_value(*document_id) {
                    Some(stored) => stored.same_as(assert_value),
                    None => false,
                }
            },
            _ => true,
        }
    }

    /// Applies one operation.
    fn apply(&mut self, op: &Operation)
        requires
            old(self).wf(),
        ensures
            final(self).wf(),
            final(self)@.documents == applied(old(self)@.documents, op@),
            final(self)@.account_id == old(self)@.account_id,
            final(self)@.blobs == old(self)@.blobs,
            final(self)@.state == old(self)@.state,
    {
        let ghost before = self@.documents;
        proof {
            lemma_applied_distinct(before, op@);
        }
        match op {
            Operation::Create { document_id, value } => {
                let fresh = Document {
                    document_id: *document_id,
                    value: value.clone(),
                    email_ids: Vec::new(),
                };
                match self.find(*document_id) {
                    Some(at) => {
                        self.documents.set(at, fresh);
                    },
                    None => {
                        self.documents.push(fresh);
                    },
                }
                assert(self@.documents =~= applied(before, op@));
            },
            Operation::Update { document_id, value, clear_email_ids, .. } => {
                match self.find(*document_id) {
                    Some(at) => {
                        assert(before[at as int] == self.documents@[at as int]@);
                        let stored = self.documents.remove(at);
                        let email_ids = if *clear_email_ids {
                            Vec::new()
                        } else {
                            stored.email_ids
                        };
                        self.documents.insert(
                            at,
                            Document { document_id: *document_id, value: value.clone(), email_ids },
                        );
                        assert(self@.documents =~= applied(before, op@));
                    },
                    None => {},
                }
            },
            Operation::Delete { document_id } => {
                match self.find(*document_id) {
                    Some(at) => {
                        self.documents.remove(at);
                        assert(self@.documents =~= applied(before, op@));
                    },
                    None => {},
                }
            },
        }
    }

    /// Hands in a batch. Every operation is held against the documents as
    /// they are; if one does not pass, nothing is changed and the answer is
    /// `AssertValueFailed`. Else the operations are applied in their order.
    pub fn write(&mut self, batch: &Vec<Operation>) -> (done: Result<(), StoreError>)
        requires
            old(self).wf(),
        ensures
            final(self).wf(),
            final(self)@.documents == written(old(self)@.documents, batch_view(batch@)),
            final(self)@.account_id == old(self)@.account_id,
            final(self)@.blobs == old(self)@.blobs,
            final(self)@.state == old(self)@.state,
            match done {
                Ok(_) => all_pass(old(self)@.documents, batch_view(batch@)),
                Err(error) => error == StoreError::AssertValueFailed && !all_pass(
                    old(self)@.documents,
                    batch_view(batch@),
                ),
            },
    {
        let ghost before = self@.documents;
        let ghost ops = batch_view(batch@);
        let mut at: usize = 0;
        while at < batch.len()
            invariant
                at <= batch@.len(),
                ops == batch_view(batch@),
                *self == *old(self),
                self.wf(),
                before == self@.documents,
                forall|i: int| 0 <= i < at ==> passes(before, #[trigger] ops[i]),
            decreases batch@.len() - at,
        {
            assert(ops[at as int] == batch@[at as int]@);
            if !self.check(&batch[at]) {
                return Err(StoreError::AssertValueFailed);
            }
            at += 1;
        }
        assert(all_pass(before, ops));
        let mut done: usize = 0;
        assert(ops.take(0) =~= Seq::<OperationView>::empty());
        while done < batch.len()
            invariant
                done <= batch@.len(),
                ops == batch_view(batch@),
                self.wf(),
                self@.documents == applied_all(before, ops.take(done as int)),
                self@.account_id == old(self)@.account_id,
                self@.blobs == old(self)@.blobs,
                self@.state == old(self)@.state,
            decreases batch@.len() - done,
        {
            assert(ops[done as int] == batch@[done as int]@);
            assert(ops.take(done + 1).drop_last() =~= ops.take(done as int));
            assert(ops.take(done + 1).last() == ops[done as int]);
            self.apply(&batch[done]);
            done += 1;
        }
        assert(ops.take(done as int) =~= ops);
        Ok(())
    }

    /// The place of the blob with the name.
    fn find_blob(&self, kind: &BlobKind) -> (at: Option<usize>)
        ensures
            match at {
                Some(at) => blob_position(self@.blobs, *kind) == Some(at as int) && at
                    < self.blobs@.len(),
                None => blob_position(self@.blobs, *kind) is None,
            },
    {
        let ghost blobs = self@.blobs;
        let mut at: usize = 0;
        assert(blobs.skip(0) =~= blobs);
        while at < self.blobs.len()
            invariant
                at <= self.blobs@.len(),
                blobs == self@.blobs,
                blob_position(blobs, *kind) == match blob_position(blobs.skip(at as int), *kind) {
                    Some(found) => Some(found + at),
                    None => None,
                },
            decreases self.blobs@.len() - at,
        {
            assert(blobs[at as int] == self.blobs@[at as int]@);
            assert(blobs.skip(at as int)[0] == blobs[at as int]);
            assert(blobs.skip(at as int).drop_first() =~= blobs.skip(at + 1));
            if self.blobs[at].kind == *kind {
                return Some(at);
            }
            at += 1;
        }
        assert(blobs.skip(at as int).len() == 0);
        None
    }

    /// Stores a blob under the name, in place of the one that is there.
    pub fn put_blob(&mut self, kind: BlobKind, bytes: Vec<u8>)
        ensures
            final(self)@.blobs == with_blob(old(self)@.blobs, kind, bytes@),
            final(self)@.documents == old(self)@.documents,
            final(self)@.account_id == old(self)@.account_id,
            final(self)@.state == old(self)@.state,
    {
        let ghost before = self@.blobs;
        match self.find_blob(&kind) {
            Some(at) => {
                self.blobs.set(at, Blob { kind, bytes });
            },
            None => {
                self.blobs.push(Blob { kind, bytes });
            },
        }
        assert(self@.blobs =~= with_blob(before, kind, bytes@));
        assert(self@.documents =~= old(self)@.documents);
    }

    /// The bytes of the blob with the name.
    pub fn get_blob(&self, kind: &BlobKind) -> (bytes: Option<Vec<u8>>)
        ensures
            match bytes {
                Some(bytes) => blob_of(self@.blobs, *kind) == Some(bytes@),
                None => blob_of(self@.blobs, *kind) is None,
            },
    {
        match self.find_blob(kind) {
            Some(at) => {
                assert(self@.blobs[at as int] == self.blobs@[at as int]@);
                let bytes = self.blobs[at].bytes.clone();
                assert(bytes@ =~= self.blobs@[at as int].bytes@);
                Some(bytes)
            },
            None => None,
        }
    }

    /// Takes the blob with the name out.
    pub fn delete_blob(&mut self, kind: &BlobKind)
        ensures
            final(self)@.blobs == without_blob(old(self)@.blobs, *kind),
            final(self)@.documents == old(self)@.documents,
            final(self)@.account_id == old(self)@.account_id,
            final(self)@.state == old(self)@.state,
    {
        let ghost before = self@.blobs;
        match self.find_blob(kind) {
            Some(at) => {
                self.blobs.remove(at);
            },
            None => {},
        }
        assert(self@.blobs =~= without_blob(before, *kind));
        assert(self@.documents =~= old(self)@.documents);
    }

    /// The bytes that the holder of the account gets for a blob identifier:
    /// those of the stored blob, where the blob belongs to the account.
    pub fn blob_download(&self, id: &BlobId) -> (bytes: Option<Vec<u8>>)
        ensures
            match bytes {
                Some(bytes) => downloadable(self@.blobs, self@.account_id, *id) == Some(bytes@),
                None => downloadable(self@.blobs, self@.account_id, *id) is None,
            },
    {
        if id.kind.account_id() == self.account_id {
            self.get_blob(&id.kind)
        } else {
            None
        }
    }

    /// Commits a change set and answers the new state. The count of states
    /// stops at the last number there is.
    pub fn commit_changes(&mut self) -> (state: u64)
        ensures
            state == final(self)@.state,
            final(self)@.state == (if old(self)@.state == u64::MAX {
                u64::MAX
            } else {
                (old(self)@.state + 1) as u64
            }),
            final(self)@.documents == old(self)@.documents,
            final(self)@.blobs == old(self)@.blobs,
            final(self)@.account_id == old(self)@.account_id,
    {
        if self.state < u64::MAX {
            self.state = self.state + 1;
        }
        assert(self@.documents =~= old(self)@.documents);
        assert(self@.blobs =~= old(self)@.blobs);
        self.state
    }

    /// Notes that a script has answered a message.
    pub fn add_email_id(&mut self, id: u32, email_id: u32)
        requires
            old(self).wf(),
        ensures
            final(self).wf(),
            final(self)@.documents == (match position_of(old(self)@.documents, id) {
                Some(at) => old(self)@.documents.update(
                    at,
                    DocumentView {
                        email_ids: old(self)@.documents[at].email_ids.push(email_id),
                        ..old(self)@.documents[at]
                    },
                ),
                None => old(self)@.documents,
            }),
            final(self)@.account_id == old(self)@.account_id,
            final(self)@.blobs == old(self)@.blobs,
            final(self)@.state == old(self)@.state,
    {
        let ghost before = self@.documents;
        match self.find(id) {
            Some(at) => {
                assert(before[at as int] == self.documents@[at as int]@);
                let mut stored = self.documents.remove(at);
                stored.email_ids.push(email_id);
                self.documents.insert(at, stored);
                assert(self@.documents =~= before.update(
                    at as int,
                    DocumentView {
                        email_ids: before[at as int].email_ids.push(email_id),
                        ..before[at as int]
                    },
                ));
                assert forall|i: int, j: int| 0 <= i < j < self@.documents.len() implies (
                #[trigger] self@.documents[i]).document_id != (
                #[trigger] self@.documents[j]).document_id by {
                    assert(before[i].document_id != before[j].document_id);
                }
            },
            None => {},
        }
    }
}

} // verus!
