//! Which script of an account is active.
//!
//! At most one script is meant to be active. Activating a script takes the
//! others out of the active state in the same batch, under the values that
//! were read, so the store changes as a whole or not at all.
use vstd::prelude::*;
use crate::sieve::store::{
    active_ids, all_pass, applied, applied_all, distinct_ids, lemma_position_of,
    lemma_position_of_distinct, passes, position_of, value_of, DocumentView, OperationView,
    ScriptView,
};

verus! {

/// A document after an activation of `activate_id`: an active document is
/// inactive and has answered no message, the document to activate is active,
/// every other document is as it was.
pub open spec fn switched(document: DocumentView, activate_id: Option<u32>) -> DocumentView {
    if document.value.is_active {
        DocumentView {
            document_id: document.document_id,
            value: ScriptView { is_active: false, ..document.value },
            email_ids: Seq::empty(),
        }
    } else if activate_id == Some(document.document_id) {
        DocumentView {
            document_id: document.document_id,
            value: ScriptView { is_active: true, ..document.value },
            email_ids: document.email_ids,
        }
    } else {
        document
    }
}

/// Whether the script is active.
pub open spec fn is_active(documents: Seq<DocumentView>, id: u32) -> bool {
    value_of(documents, id) matches Some(value) && value.is_active
}

/// Whether an activation of `activate_id` has nothing to do: the script is
/// active already, or there is no such script.
pub open spec fn activation_is_idle(documents: Seq<DocumentView>, activate_id: Option<u32>) -> bool {
    activate_id matches Some(id) && (value_of(documents, id) is None || is_active(documents, id))
}

/// The identifiers that an activation changes, each with its new state: the
/// active ones, which become inactive, then the one to activate.
pub open spec fn changed_by_activation(documents: Seq<DocumentView>, activate_id: Option<u32>) -> Seq<
    (u32, bool),
> {
    let off = Seq::new(active_ids(documents).len(), |i: int| (active_ids(documents)[i], false));
    match activate_id {
        Some(id) => off.push((id, true)),
        None => off,
    }
}

/// The documents after `activate_id` was made the one active script, or after
/// every script was made inactive where it is `None`, with the identifiers
/// that changed. Nothing changes where the script is active already, and
/// nothing changes where there is no such script.
pub open spec fn activated(documents: Seq<DocumentView>, activate_id: Option<u32>) -> (
    Seq<DocumentView>,
    Seq<(u32, bool)>,
) {
    if activation_is_idle(documents, activate_id) {
        (documents, Seq::empty())
    } else {
        (
            Seq::new(documents.len(), |i: int| switched(documents[i], activate_id)),
            changed_by_activation(documents, activate_id),
        )
    }
}

/// Whether at most one document is active.
pub open spec fn at_most_one_active(documents: Seq<DocumentView>) -> bool {
    forall|i: int, j: int|
        0 <= i < j < documents.len() ==> !((#[trigger] documents[i]).value.is_active && (
        #[trigger] documents[j]).value.is_active)
}

/// Whether some document with the identifier is active.
pub open spec fn has_active(documents: Seq<DocumentView>, id: u32) -> bool {
    exists|i: int|
        0 <= i < documents.len() && (#[trigger] documents[i]).document_id == id
            && documents[i].value.is_active
}

/// The active identifiers are those of the active documents.
pub proof fn lemma_active_ids(documents: Seq<DocumentView>)
    ensures
        forall|k: int|
            0 <= k < active_ids(documents).len() ==> has_active(
                documents,
                #[trigger] active_ids(documents)[k],
            ),
        forall|i: int|
            0 <= i < documents.len() && (#[trigger] documents[i]).value.is_active
                ==> active_ids(documents).contains(documents[i].document_id),
    decreases documents.len(),
{
    if documents.len() > 0 {
        let shorter = documents.drop_last();
        let last = documents.last();
        lemma_active_ids(shorter);
        let before = active_ids(shorter);
        let all = active_ids(documents);
        assert forall|k: int| 0 <= k < all.len() implies has_active(documents, #[trigger] all[k]) by {
            if k < before.len() {
                assert(all[k] == before[k]);
                assert(has_active(shorter, before[k]));
                let i = choose|i: int|
                    0 <= i < shorter.len() && (#[trigger] shorter[i]).document_id == before[k]
                        && shorter[i].value.is_active;
                assert(documents[i] == shorter[i]);
            } else {
                assert(documents[documents.len() - 1] == last);
            }
        }
        assert forall|i: int|
            0 <= i < documents.len() && (#[trigger] documents[i]).value.is_active implies all.contains(
            documents[i].document_id,
        ) by {
            if i < shorter.len() {
                assert(shorter[i] == documents[i]);
                assert(before.contains(shorter[i].document_id));
                let k = choose|k: int| 0 <= k < before.len() && before[k] == shorter[i].document_id;
                assert(all[k] == before[k]);
            } else {
                assert(all[all.len() - 1] == last.document_id);
            }
        }
    }
}

/// With distinct identifiers, a script is active exactly where its
/// identifier is among the active ones.
pub proof fn lemma_is_active(documents: Seq<DocumentView>, id: u32)
    requires
        distinct_ids(documents),
    ensures
        is_active(documents, id) <==> active_ids(documents).contains(id),
{
    lemma_active_ids(documents);
    lemma_position_of(documents, id);
    if active_ids(documents).contains(id) {
        let k = choose|k: int| 0 <= k < active_ids(documents).len() && active_ids(documents)[k] == id;
        assert(has_active(documents, active_ids(documents)[k]));
        let i = choose|i: int|
            0 <= i < documents.len() && (#[trigger] documents[i]).document_id == id
                && documents[i].value.is_active;
        lemma_position_of_distinct(documents, i);
    }
    if is_active(documents, id) {
        let at = position_of(documents, id)->0;
        assert(documents[at].value.is_active);
    }
}

/// After an activation at most one script is active, and it is the script
/// that was to be activated: the count of active scripts is zero or one.
/// Where that script was active already, the documents are as they were.
pub proof fn lemma_activated_singleton(documents: Seq<DocumentView>, activate_id: Option<u32>)
    requires
        distinct_ids(documents),
    ensures
        distinct_ids(activated(documents, activate_id).0),
        at_most_one_active(documents) ==> at_most_one_active(activated(documents, activate_id).0),
        !activation_is_idle(documents, activate_id) ==> at_most_one_active(
            activated(documents, activate_id).0,
        ) && forall|i: int|
            0 <= i < documents.len() ==> ((#[trigger] activated(
                documents,
                activate_id,
            ).0[i]).value.is_active <==> activate_id == Some(documents[i].document_id)),
{
    let after = activated(documents, activate_id).0;
    if activation_is_idle(documents, activate_id) {
    } else {
        assert forall|i: int| 0 <= i < documents.len() implies ((#[trigger] after[i]).value.is_active
            <==> activate_id == Some(documents[i].document_id)) by {
            if documents[i].value.is_active && activate_id == Some(documents[i].document_id) {
                lemma_position_of_distinct(documents, i);
            }
        }
        assert forall|i: int, j: int| 0 <= i < j < after.len() implies !((
        #[trigger] after[i]).value.is_active && (#[trigger] after[j]).value.is_active) by {
            assert(documents[i].document_id != documents[j].document_id);
        }
        assert forall|i: int, j: int| 0 <= i < j < after.len() implies (
        #[trigger] after[i]).document_id != (#[trigger] after[j]).document_id by {
            assert(documents[i].document_id != documents[j].document_id);
        }
    }
}

/// Activating an identifier that names no script changes nothing and
/// answers no change, whatever is active.
pub proof fn lemma_activation_of_unknown(documents: Seq<DocumentView>, id: u32)
    requires
        value_of(documents, id) is None,
    ensures
        activated(documents, Some(id)) == (documents, Seq::<(u32, bool)>::empty()),
{
}

/// Activating a script that is active changes nothing and answers no
/// change.
pub proof fn lemma_activation_idempotent(documents: Seq<DocumentView>, id: u32)
    requires
        is_active(documents, id),
    ensures
        activated(documents, Some(id)) == (documents, Seq::<(u32, bool)>::empty()),
{
}

/// The operation that takes a script out of the active state, under the
/// value that was read.
pub open spec fn deactivation(documents: Seq<DocumentView>, id: u32) -> OperationView {
    let value = value_of(documents, id)->0;
    OperationView::Update {
        document_id: id,
        assert_value: value,
        value: ScriptView { is_active: false, ..value },
        clear_email_ids: true,
    }
}

/// The operation that makes a script active, under the value that was read.
pub open spec fn activation(documents: Seq<DocumentView>, id: u32) -> OperationView {
    let value = value_of(documents, id)->0;
    OperationView::Update {
        document_id: id,
        assert_value: value,
        value: ScriptView { is_active: true, ..value },
        clear_email_ids: false,
    }
}

/// The deactivations of the active scripts, in their order.
pub open spec fn deactivations(documents: Seq<DocumentView>) -> Seq<OperationView> {
    Seq::new(
        active_ids(documents).len(),
        |k: int| deactivation(documents, active_ids(documents)[k]),
    )
}

/// The batch of an activation: the deactivation of every active script,
/// then the activation of the script to activate.
pub open spec fn activation_batch(documents: Seq<DocumentView>, activate_id: Option<u32>) -> Seq<
    OperationView,
> {
    match activate_id {
        Some(id) => deactivations(documents).push(activation(documents, id)),
        None => deactivations(documents),
    }
}

/// What committing an activation does, under the values that were read
/// before: the batch is applied where every value read is still the stored
/// one, and the changes are answered; where one is not, nothing is changed
/// and no change is answered. An activation that changes nothing commits
/// nothing.
pub open spec fn activation_committed(
    documents: Seq<DocumentView>,
    batch: Seq<OperationView>,
    changed: Seq<(u32, bool)>,
) -> (Seq<DocumentView>, Seq<(u32, bool)>) {
    if changed.len() > 0 && all_pass(documents, batch) {
        (applied_all(documents, batch), changed)
    } else {
        (documents, Seq::empty())
    }
}

/// Where a document is found depends on the identifiers alone.
pub proof fn lemma_position_of_same_ids(a: Seq<DocumentView>, b: Seq<DocumentView>, id: u32)
    requires
        a.len() == b.len(),
        forall|i: int| 0 <= i < a.len() ==> (#[trigger] a[i]).document_id == b[i].document_id,
    ensures
        position_of(a, id) == position_of(b, id),
    decreases a.len(),
{
    if a.len() > 0 {
        assert(a[0].document_id == b[0].document_id);
        assert forall|i: int| 0 <= i < a.drop_first().len() implies (
        #[trigger] a.drop_first()[i]).document_id == b.drop_first()[i].document_id by {
            assert(a[i + 1].document_id == b[i + 1].document_id);
        }
        lemma_position_of_same_ids(a.drop_first(), b.drop_first(), id);
    }
}

/// The documents after the first `n` deactivations.
spec fn partly_off(documents: Seq<DocumentView>, n: int) -> Seq<DocumentView> {
    Seq::new(
        documents.len(),
        |i: int|
            if active_ids(documents).take(n).contains(documents[i].document_id) {
                switched(documents[i], None)
            } else {
                documents[i]
            },
    )
}

/// Every deactivation passes, and the first `n` of them leave the documents
/// with those scripts inactive.
proof fn lemma_deactivations(documents: Seq<DocumentView>, n: int)
    requires
        distinct_ids(documents),
        0 <= n <= active_ids(documents).len(),
    ensures
        forall|k: int|
            0 <= k < deactivations(documents).len() ==> passes(
                documents,
                #[trigger] deactivations(documents)[k],
            ),
        applied_all(documents, deactivations(documents).take(n)) == partly_off(documents, n),
    decreases n,
{
    let active = active_ids(documents);
    let offs = deactivations(documents);
    lemma_active_ids(documents);
    assert forall|k: int| 0 <= k < offs.len() implies passes(documents, #[trigger] offs[k]) by {
        assert(has_active(documents, active[k]));
        lemma_position_of(documents, active[k]);
    }
    if n == 0 {
        assert(offs.take(0) =~= Seq::<OperationView>::empty());
        assert(active.take(0) =~= Seq::<u32>::empty());
        assert(partly_off(documents, 0) =~= documents);
    } else {
        lemma_deactivations(documents, n - 1);
        let before = partly_off(documents, n - 1);
        let id = active[n - 1];
        assert(offs.take(n).drop_last() =~= offs.take(n - 1));
        assert(offs.take(n).last() == offs[n - 1]);
        assert(has_active(documents, id));
        let at = choose|i: int|
            0 <= i < documents.len() && (#[trigger] documents[i]).document_id == id
                && documents[i].value.is_active;
        lemma_position_of_distinct(documents, at);
        assert forall|i: int| 0 <= i < before.len() implies (#[trigger] before[i]).document_id
            == documents[i].document_id by {}
        lemma_position_of_same_ids(before, documents, id);
        let after = applied(before, offs[n - 1]);
        let fewer = active.take(n - 1);
        let more = active.take(n);
        assert(more =~= fewer.push(id));
        assert(after =~= partly_off(documents, n)) by {
            assert forall|i: int| 0 <= i < documents.len() implies after[i] == partly_off(
                documents,
                n,
            )[i] by {
                if i == at {
                    assert(more[n - 1] == id);
                    assert(more.contains(id));
                } else {
                    assert(documents[i].document_id != documents[at].document_id);
                    if more.contains(documents[i].document_id) {
                        let k = choose|k: int|
                            0 <= k < more.len() && more[k] == documents[i].document_id;
                        assert(fewer[k] == documents[i].document_id);
                    }
                    if fewer.contains(documents[i].document_id) {
                        let k = choose|k: int|
                            0 <= k < fewer.len() && fewer[k] == documents[i].document_id;
                        assert(more[k] == documents[i].document_id);
                    }
                }
            }
        }
    }
}

/// The batch of an activation passes, and applying it gives the documents
/// of `activated`.
pub proof fn lemma_activation_batch(documents: Seq<DocumentView>, activate_id: Option<u32>)
    requires
        distinct_ids(documents),
        !activation_is_idle(documents, activate_id),
    ensures
        all_pass(documents, activation_batch(documents, activate_id)),
        applied_all(documents, activation_batch(documents, activate_id)) == activated(
            documents,
            activate_id,
        ).0,
{
    let active = active_ids(documents);
    let offs = deactivations(documents);
    let batch = activation_batch(documents, activate_id);
    lemma_deactivations(documents, active.len() as int);
    lemma_active_ids(documents);
    assert(offs.take(active.len() as int) =~= offs);
    assert(active.take(active.len() as int) =~= active);
    let off = partly_off(documents, active.len() as int);
    let goal = activated(documents, activate_id).0;
    // every active script is off, every other document is as it was
    assert forall|i: int| 0 <= i < documents.len() implies #[trigger] off[i] == switched(
        documents[i],
        None,
    ) by {
        if active.contains(documents[i].document_id) && !documents[i].value.is_active {
            let k = choose|k: int| 0 <= k < active.len() && active[k] == documents[i].document_id;
            assert(has_active(documents, active[k]));
            let j = choose|j: int|
                0 <= j < documents.len() && (#[trigger] documents[j]).document_id == active[k]
                    && documents[j].value.is_active;
            if j < i {
                assert(documents[j].document_id != documents[i].document_id);
            } else if i < j {
                assert(documents[i].document_id != documents[j].document_id);
            }
        }
    }
    if activate_id is Some {
        let id = activate_id->0;
        lemma_position_of(documents, id);
        let at = position_of(documents, id)->0;
        assert(batch.drop_last() =~= offs);
        assert(batch.last() == activation(documents, id));
        assert forall|k: int| 0 <= k < batch.len() implies passes(documents, #[trigger] batch[k]) by {
            if k < offs.len() {
                assert(batch[k] == offs[k]);
            }
        }
        assert forall|i: int| 0 <= i < off.len() implies (#[trigger] off[i]).document_id
            == documents[i].document_id by {}
        lemma_position_of_same_ids(off, documents, id);
        assert(!documents[at].value.is_active);
        assert(applied(off, batch.last()) =~= goal) by {
            assert forall|i: int| 0 <= i < documents.len() implies applied(off, batch.last())[i]
                == goal[i] by {
                if i != at {
                    if i < at {
                        assert(documents[i].document_id != documents[at].document_id);
                    } else {
                        assert(documents[at].document_id != documents[i].document_id);
                    }
                }
            }
        }
    } else {
        assert(batch == offs);
        assert(off =~= goal) by {
            assert forall|i: int| 0 <= i < documents.len() implies off[i] == goal[i] by {
                if activate_id == Some(documents[i].document_id) {
                    lemma_position_of(documents, documents[i].document_id);
                }
            }
        }
    }
}

} // verus!
