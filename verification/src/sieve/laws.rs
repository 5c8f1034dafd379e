//! What holds of the manager step by step: at most one script is active, a
//! script that is active is not destroyed, a name is given once, and of two
//! writers that read the same value one is turned down.
use vstd::prelude::*;
use crate::sieve::activate::{
    at_most_one_active, is_active, lemma_activated_singleton, lemma_position_of_same_ids,
};
use crate::sieve::object::{changes_view, ChangeView, Property, ValueView};
use crate::sieve::request::{Creation, SetRequest, Update};
use crate::sieve::script_set::{
    activation_target, begun, committed, conflict_error, created_all, created_one, destroyed_all,
    destroyed_one, fallback_at, script_is_active_error, set_result, update_committed, updated_all,
    updated_one, Progress,
};
use crate::sieve::store::{
    applied, distinct_ids, fresh_id, lemma_applied_distinct, lemma_fresh_id, lemma_position_of,
    min_id_named, passes, position_of, value_of, DocumentView, OperationView, ScriptView,
    StoreView,
};
use crate::sieve::validate::{
    lemma_parsed_all_stops, name_error, name_taken_error, parsed_all, validated, Config,
};

verus! {

/// Whether the documents are as the manager keeps them: no identifier
/// twice, and at most one script active.
pub open spec fn tidy(documents: Seq<DocumentView>) -> bool {
    distinct_ids(documents) && at_most_one_active(documents)
}

/// A document with a new identifier comes last.
pub proof fn lemma_create_fresh(documents: Seq<DocumentView>, value: ScriptView)
    requires
        fresh_id(documents) <= u32::MAX,
    ensures
        applied(
            documents,
            OperationView::Create { document_id: fresh_id(documents) as u32, value },
        ) == documents.push(
            DocumentView {
                document_id: fresh_id(documents) as u32,
                value,
                email_ids: Seq::empty(),
            },
        ),
{
    lemma_fresh_id(documents);
    lemma_position_of(documents, fresh_id(documents) as u32);
    if position_of(documents, fresh_id(documents) as u32) is Some {
        let at = position_of(documents, fresh_id(documents) as u32)->0;
        assert(documents[at].document_id < fresh_id(documents));
    }
}

/// A created script is inactive and has a blob.
pub proof fn lemma_created_inactive(
    store: StoreView,
    config: Config,
    changes: Seq<ChangeView>,
    fallback_name: Seq<char>,
)
    ensures
        validated(store, config, changes, None, fallback_name) matches Ok((value, blob))
            ==> !value.is_active && blob is Some,
{
}

/// An updated script is as active as it was.
pub proof fn lemma_updated_keeps_state(
    store: StoreView,
    config: Config,
    changes: Seq<ChangeView>,
    document_id: u32,
    current: ScriptView,
)
    ensures
        validated(store, config, changes, Some((document_id, current)), Seq::empty()) matches Ok(
            (value, _),
        ) ==> value.is_active == current.is_active,
{
}

/// A creation keeps the documents tidy.
pub proof fn lemma_created_one_tidy(
    progress: Progress,
    config: Config,
    creation_id: Seq<char>,
    changes: Seq<ChangeView>,
    fallback_name: Seq<char>,
)
    requires
        tidy(progress.store.documents),
    ensures
        tidy(created_one(progress, config, creation_id, changes, fallback_name).store.documents),
{
    let documents = progress.store.documents;
    let after = created_one(progress, config, creation_id, changes, fallback_name).store.documents;
    lemma_created_inactive(progress.store, config, changes, fallback_name);
    if after != documents {
        let value = validated(progress.store, config, changes, None, fallback_name)->Ok_0.0;
        lemma_create_fresh(documents, value);
        lemma_applied_distinct(
            documents,
            OperationView::Create { document_id: fresh_id(documents) as u32, value },
        );
        assert forall|i: int, j: int| 0 <= i < j < after.len() implies !((
        #[trigger] after[i]).value.is_active && (#[trigger] after[j]).value.is_active) by {
            if j < documents.len() {
                assert(after[i] == documents[i] && after[j] == documents[j]);
            }
        }
    }
}

/// The value of an updated document is the one written.
pub proof fn lemma_updated_value(
    documents: Seq<DocumentView>,
    document_id: u32,
    assert_value: ScriptView,
    value: ScriptView,
    clear_email_ids: bool,
)
    requires
        value_of(documents, document_id) is Some,
    ensures
        value_of(
            applied(
                documents,
                OperationView::Update { document_id, assert_value, value, clear_email_ids },
            ),
            document_id,
        ) == Some(value),
{
    let after = applied(
        documents,
        OperationView::Update { document_id, assert_value, value, clear_email_ids },
    );
    lemma_position_of(documents, document_id);
    let at = position_of(documents, document_id)->0;
    assert forall|i: int| 0 <= i < after.len() implies (#[trigger] after[i]).document_id
        == documents[i].document_id by {}
    lemma_position_of_same_ids(after, documents, document_id);
}

/// An update under the value read keeps the documents tidy.
pub proof fn lemma_update_committed_tidy(
    progress: Progress,
    config: Config,
    document_id: u32,
    snapshot: ScriptView,
    changes: Seq<ChangeView>,
)
    requires
        tidy(progress.store.documents),
    ensures
        tidy(update_committed(progress, config, document_id, snapshot, changes).store.documents),
{
    let documents = progress.store.documents;
    let after = update_committed(progress, config, document_id, snapshot, changes).store.documents;
    lemma_updated_keeps_state(progress.store, config, changes, document_id, snapshot);
    if after != documents {
        let value = validated(
            progress.store,
            config,
            changes,
            Some((document_id, snapshot)),
            Seq::empty(),
        )->Ok_0.0;
        let op = OperationView::Update {
            document_id,
            assert_value: snapshot,
            value,
            clear_email_ids: false,
        };
        lemma_applied_distinct(documents, op);
        lemma_position_of(documents, document_id);
        let at = position_of(documents, document_id)->0;
        assert forall|i: int, j: int| 0 <= i < j < after.len() implies !((
        #[trigger] after[i]).value.is_active && (#[trigger] after[j]).value.is_active) by {
            assert(after[i].value.is_active == documents[i].value.is_active);
            assert(after[j].value.is_active == documents[j].value.is_active);
        }
    }
}

/// An update of a request keeps the documents tidy.
pub proof fn lemma_updated_one_tidy(
    progress: Progress,
    config: Config,
    will_destroy: Seq<u32>,
    document_id: u32,
    changes: Seq<ChangeView>,
)
    requires
        tidy(progress.store.documents),
    ensures
        tidy(updated_one(progress, config, will_destroy, document_id, changes).store.documents),
{
    if !will_destroy.contains(document_id) {
        if let Some(current) = value_of(progress.store.documents, document_id) {
            lemma_update_committed_tidy(progress, config, document_id, current, changes);
        }
    }
}

/// A destroyed script leaves the documents tidy.
pub proof fn lemma_destroyed_one_tidy(progress: Progress, document_id: u32)
    requires
        tidy(progress.store.documents),
    ensures
        tidy(destroyed_one(progress, document_id).store.documents),
{
    let documents = progress.store.documents;
    let after = destroyed_one(progress, document_id).store.documents;
    if after != documents {
        lemma_applied_distinct(documents, OperationView::Delete { document_id });
        lemma_position_of(documents, document_id);
        let at = position_of(documents, document_id)->0;
        assert forall|i: int, j: int| 0 <= i < j < after.len() implies !((
        #[trigger] after[i]).value.is_active && (#[trigger] after[j]).value.is_active) by {
            let bi = if i < at { i } else { i + 1 };
            let bj = if j < at { j } else { j + 1 };
            assert(after[i] == documents[bi] && after[j] == documents[bj]);
        }
    }
}

/// The creations of a request keep the documents tidy.
pub proof fn lemma_created_all_tidy(
    progress: Progress,
    config: Config,
    create: Seq<Creation>,
    names: Seq<String>,
    upto: int,
)
    requires
        tidy(progress.store.documents),
    ensures
        tidy(created_all(progress, config, create, names, upto).store.documents),
    decreases upto,
{
    if upto > 0 {
        lemma_created_all_tidy(progress, config, create, names, upto - 1);
        let before = created_all(progress, config, create, names, upto - 1);
        if !before.failed {
            lemma_created_one_tidy(
                before,
                config,
                create[upto - 1].id@,
                changes_view(create[upto - 1].object@),
                fallback_at(names, upto - 1),
            );
        }
    }
}

/// The updates of a request keep the documents tidy.
pub proof fn lemma_updated_all_tidy(
    progress: Progress,
    config: Config,
    update: Seq<Update>,
    will_destroy: Seq<u32>,
    upto: int,
)
    requires
        tidy(progress.store.documents),
    ensures
        tidy(updated_all(progress, config, update, will_destroy, upto).store.documents),
    decreases upto,
{
    if upto > 0 {
        lemma_updated_all_tidy(progress, config, update, will_destroy, upto - 1);
        lemma_updated_one_tidy(
            updated_all(progress, config, update, will_destroy, upto - 1),
            config,
            will_destroy,
            update[upto - 1].id,
            changes_view(update[upto - 1].object@),
        );
    }
}

/// The destroyed scripts of a request leave the documents tidy.
pub proof fn lemma_destroyed_all_tidy(progress: Progress, destroy: Seq<u32>, upto: int)
    requires
        tidy(progress.store.documents),
    ensures
        tidy(destroyed_all(progress, destroy, upto).store.documents),
    decreases upto,
{
    if upto > 0 {
        lemma_destroyed_all_tidy(progress, destroy, upto - 1);
        lemma_destroyed_one_tidy(destroyed_all(progress, destroy, upto - 1), destroy[upto - 1]);
    }
}

/// Whatever a set request asks for, it leaves at most one script active and
/// no identifier twice, where it found the documents so.
pub proof fn lemma_set_keeps_one_active(
    store: StoreView,
    config: Config,
    request: SetRequest,
    names: Seq<String>,
)
    requires
        tidy(store.documents),
    ensures
        tidy(set_result(store, config, request, names).0.documents),
{
    let created = created_all(
        begun(store),
        config,
        request.create@,
        names,
        request.create@.len() as int,
    );
    lemma_created_all_tidy(begun(store), config, request.create@, names, request.create@.len() as int);
    if !created.failed {
        let updated = updated_all(
            created,
            config,
            request.update@,
            request.destroy@,
            request.update@.len() as int,
        );
        lemma_updated_all_tidy(
            created,
            config,
            request.update@,
            request.destroy@,
            request.update@.len() as int,
        );
        let destroyed = destroyed_all(updated, request.destroy@, request.destroy@.len() as int);
        lemma_destroyed_all_tidy(updated, request.destroy@, request.destroy@.len() as int);
        let ready = committed(destroyed);
        match activation_target(ready.response, request.on_success_activate_script) {
            Some(activate_id) => {
                lemma_activated_singleton(ready.store.documents, activate_id);
            },
            None => {},
        }
    }
}

/// Of two updates of one script under the same value read, the second is
/// turned down once the first has changed the stored value: the first is
/// answered as updated; the second leaves the documents as the first left
/// them and is answered with an error, which is the conflict where the
/// second update passes the rules.
pub proof fn lemma_second_update_conflicts(
    progress: Progress,
    config: Config,
    document_id: u32,
    snapshot: ScriptView,
    first: Seq<ChangeView>,
    second: Seq<ChangeView>,
)
    requires
        value_of(progress.store.documents, document_id) == Some(snapshot),
        validated(progress.store, config, first, Some((document_id, snapshot)), Seq::empty())
            matches Ok((value, _)) && value != snapshot,
    ensures
        ({
            let one = update_committed(progress, config, document_id, snapshot, first);
            let two = update_committed(one, config, document_id, snapshot, second);
            &&& one.response.updated.len() == progress.response.updated.len() + 1
            &&& one.response.updated.last().id == document_id
            &&& one.response.not_updated == progress.response.not_updated
            &&& two.store.documents == one.store.documents
            &&& two.response.updated == one.response.updated
            &&& two.response.not_updated.len() == one.response.not_updated.len() + 1
            &&& two.response.not_updated.last().0 == document_id
            &&& (validated(one.store, config, second, Some((document_id, snapshot)), Seq::empty())
                is Ok ==> two.response.not_updated.last().1 == conflict_error())
        }),
{
    let value = validated(
        progress.store,
        config,
        first,
        Some((document_id, snapshot)),
        Seq::empty(),
    )->Ok_0.0;
    lemma_updated_value(progress.store.documents, document_id, snapshot, value, false);
}

/// A script that is active is not destroyed: the request is answered
/// `ScriptIsActive` for it, and the store stays as it is.
pub proof fn lemma_destroy_active_rejected(progress: Progress, document_id: u32)
    requires
        progress.sieve_ids.contains(document_id),
        is_active(progress.store.documents, document_id),
    ensures
        destroyed_one(progress, document_id).store == progress.store,
        destroyed_one(progress, document_id).response.destroyed == progress.response.destroyed,
        destroyed_one(progress, document_id).response.not_destroyed
            == progress.response.not_destroyed.push((document_id, script_is_active_error())),
        is_active(destroyed_one(progress, document_id).store.documents, document_id),
{
}

/// The least identifier with a name, after a document came last.
pub proof fn lemma_min_id_named_push(
    documents: Seq<DocumentView>,
    document: DocumentView,
    name: Seq<char>,
)
    ensures
        document.value.name == name ==> min_id_named(documents.push(document), name) is Some,
        document.value.name == name && min_id_named(documents, name) is None ==> min_id_named(
            documents.push(document),
            name,
        ) == Some(document.document_id),
{
    assert(documents.push(document).drop_last() =~= documents);
    assert(documents.push(document).last() == document);
}

/// A name is given once. When a script was created under a name that no
/// script had, a second creation that asks for the same name is turned down
/// as `AlreadyExists`, with the identifier of the first.
pub proof fn lemma_same_name_twice(
    progress: Progress,
    config: Config,
    first_id: Seq<char>,
    first: Seq<ChangeView>,
    first_fallback: Seq<char>,
    second_id: Seq<char>,
    second: Seq<ChangeView>,
    second_fallback: Seq<char>,
    name: Seq<char>,
)
    requires
        progress.sieve_ids.len() < config.sieve_max_scripts,
        fresh_id(progress.store.documents) <= u32::MAX,
        name_error(progress.store.documents, config, None, name) is None,
        validated(progress.store, config, first, None, first_fallback) matches Ok((value, _))
            && value.name == name,
        second.len() > 0,
        second[0] == (ChangeView { property: Property::Name, value: ValueView::Text(name) }),
    ensures
        ({
            let one = created_one(progress, config, first_id, first, first_fallback);
            let two = created_one(one, config, second_id, second, second_fallback);
            &&& one.response.created.len() == progress.response.created.len() + 1
            &&& one.response.created.last().id == fresh_id(progress.store.documents)
            &&& one.response.not_created == progress.response.not_created
            &&& !one.failed
            &&& !two.failed
            &&& two.store == one.store
            &&& two.response.created == one.response.created
            &&& two.response.not_created == one.response.not_created.push(
                (
                    second_id,
                    name_taken_error(name, fresh_id(progress.store.documents) as u32),
                ),
            )
        }),
{
    let documents = progress.store.documents;
    let value = validated(progress.store, config, first, None, first_fallback)->Ok_0.0;
    lemma_created_inactive(progress.store, config, first, first_fallback);
    lemma_create_fresh(documents, value);
    let one = created_one(progress, config, first_id, first, first_fallback);
    let document = DocumentView {
        document_id: fresh_id(documents) as u32,
        value,
        email_ids: Seq::empty(),
    };
    lemma_min_id_named_push(documents, document, name);
    assert(name_error(one.store.documents, config, None, name) == Some(
        name_taken_error(name, fresh_id(documents) as u32),
    ));
    assert(second.take(1).drop_last() =~= Seq::<ChangeView>::empty());
    assert(second.take(1).last() == second[0]);
    assert(parsed_all(one.store.documents, config, None, second.take(1).drop_last()) is Ok);
    lemma_parsed_all_stops(one.store.documents, config, None, second, 1);
    assert(one.sieve_ids.len() <= config.sieve_max_scripts);
}

} // verus!
