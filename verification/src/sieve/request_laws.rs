//! What holds of a whole request: a script that is active outlives the
//! request to destroy it, a name is given once whatever else the request
//! asks for, a created script is stored as asked, and a reference that names
//! no creation activates nothing.
use vstd::prelude::*;
use crate::sieve::activate::{is_active, lemma_position_of_same_ids};
use crate::sieve::compile::compiled_form;
use crate::sieve::laws::{lemma_create_fresh, lemma_created_inactive, lemma_min_id_named_push};
use crate::sieve::object::{changes_view, BlobId, ChangeView, Property, ValueView};
use crate::sieve::request::{
    created_id, CreatedView, Creation, MaybeReference, ResponseView, SetRequest, Update,
};
use crate::sieve::script_set::{
    begun, committed, created_all, created_one, destroyed_all, destroyed_one, fallback_at,
    finished, next_state, script_blob, script_is_active_error, set_result, updated_all,
    updated_one, Progress,
};
use crate::sieve::object::BlobKind;
use crate::sieve::store::{
    applied, blob_of, blob_position, document_ids, downloadable, fresh_id, lemma_blob_position,
    lemma_fresh_id, lemma_position_of, min_id_named, position_of, value_of, with_blob,
    without_blob, BlobView, DocumentView, OperationView, ScriptView, StoreView,
};
use crate::sieve::validate::{
    blob_from, byte_len, is_vacation, lemma_parsed_all_stops, name_error, name_taken_error,
    parsed_all, validated, Config,
};

verus! {

/// The identifier that an operation is about.
pub open spec fn subject_of(op: OperationView) -> u32 {
    match op {
        OperationView::Create { document_id, .. } => document_id,
        OperationView::Update { document_id, .. } => document_id,
        OperationView::Delete { document_id } => document_id,
    }
}

/// A document is found at the first place that holds its identifier.
pub proof fn lemma_found_at(documents: Seq<DocumentView>, id: u32, at: int)
    requires
        0 <= at < documents.len(),
        documents[at].document_id == id,
        forall|i: int| 0 <= i < at ==> (#[trigger] documents[i]).document_id != id,
    ensures
        position_of(documents, id) == Some(at),
{
    lemma_position_of(documents, id);
    match position_of(documents, id) {
        Some(found) => {
            if found < at {
                assert(documents[found].document_id != id);
            }
        },
        None => {
            assert(documents[at].document_id != id);
        },
    }
}

/// The document with the identifier.
pub open spec fn document_of(documents: Seq<DocumentView>, id: u32) -> Option<DocumentView> {
    match position_of(documents, id) {
        Some(at) => Some(documents[at]),
        None => None,
    }
}

/// An operation on one document leaves every other as it is.
pub proof fn lemma_applied_keeps_others(documents: Seq<DocumentView>, op: OperationView, id: u32)
    requires
        subject_of(op) != id,
    ensures
        document_of(applied(documents, op), id) == document_of(documents, id),
        value_of(applied(documents, op), id) == value_of(documents, id),
{
    let after = applied(documents, op);
    lemma_position_of(documents, id);
    lemma_position_of(documents, subject_of(op));
    lemma_position_of(after, id);
    match position_of(documents, subject_of(op)) {
        Some(at) => {
            if op is Delete {
                // The documents behind the deleted one move up by one place.
                assert forall|i: int| 0 <= i < after.len() implies (#[trigger] after[i]).document_id
                    != id || (i < at && documents[i].document_id == id) || (i >= at && documents[i
                    + 1].document_id == id) by {}
                if let Some(found) = position_of(documents, id) {
                    let moved = if found < at {
                        found
                    } else {
                        found - 1
                    };
                    assert(after[moved] == documents[found]);
                    lemma_found_at(after, id, moved);
                }
            } else {
                assert forall|i: int| 0 <= i < after.len() implies (#[trigger] after[i]).document_id
                    == documents[i].document_id by {}
                lemma_position_of_same_ids(after, documents, id);
            }
        },
        None => {
            if op is Create {
                // The new document comes last.
                assert forall|i: int| 0 <= i < documents.len() implies #[trigger] after[i]
                    == documents[i] by {}
                if let Some(found) = position_of(documents, id) {
                    lemma_found_at(after, id, found);
                }
            }
        },
    }
}

/// A blob is found at the first place that holds its name.
pub proof fn lemma_blob_found_at(blobs: Seq<BlobView>, kind: BlobKind, at: int)
    requires
        0 <= at < blobs.len(),
        blobs[at].kind == kind,
        forall|i: int| 0 <= i < at ==> (#[trigger] blobs[i]).kind != kind,
    ensures
        blob_position(blobs, kind) == Some(at),
{
    lemma_blob_position(blobs, kind);
    match blob_position(blobs, kind) {
        Some(found) => {
            if found < at {
                assert(blobs[found].kind != kind);
            }
        },
        None => {
            assert(blobs[at].kind != kind);
        },
    }
}

/// A blob that is stored under one name leaves the blob of every other name
/// as it is.
pub proof fn lemma_with_blob_keeps_others(
    blobs: Seq<BlobView>,
    other: BlobKind,
    bytes: Seq<u8>,
    kind: BlobKind,
)
    requires
        other != kind,
    ensures
        blob_of(with_blob(blobs, other, bytes), kind) == blob_of(blobs, kind),
{
    let after = with_blob(blobs, other, bytes);
    lemma_blob_position(blobs, kind);
    lemma_blob_position(blobs, other);
    lemma_blob_position(after, kind);
    assert forall|i: int| 0 <= i < blobs.len() implies (#[trigger] after[i]).kind
        == blobs[i].kind by {}
    if let Some(found) = blob_position(blobs, kind) {
        assert(after[found] == blobs[found]);
        lemma_blob_found_at(after, kind, found);
    }
}

/// A blob that is taken out leaves the blob of every other name as it is.
pub proof fn lemma_without_blob_keeps_others(blobs: Seq<BlobView>, other: BlobKind, kind: BlobKind)
    requires
        other != kind,
    ensures
        blob_of(without_blob(blobs, other), kind) == blob_of(blobs, kind),
{
    let after = without_blob(blobs, other);
    lemma_blob_position(blobs, kind);
    lemma_blob_position(blobs, other);
    lemma_blob_position(after, kind);
    if let Some(at) = blob_position(blobs, other) {
        // The blobs behind the one taken out move up by one place.
        assert forall|i: int| 0 <= i < after.len() implies (#[trigger] after[i]).kind != kind || (i
            < at && blobs[i].kind == kind) || (i >= at && blobs[i + 1].kind == kind) by {}
        if let Some(found) = blob_position(blobs, kind) {
            let moved = if found < at {
                found
            } else {
                found - 1
            };
            assert(after[moved] == blobs[found]);
            lemma_blob_found_at(after, kind, moved);
        }
    }
}

/// Whether the request takes the script to be in use, the script is active
/// and stored with its blob as it was in the store `home`, and the request
/// has not destroyed it.
pub open spec fn kept_active(progress: Progress, id: u32, home: StoreView) -> bool {
    &&& progress.sieve_ids.contains(id)
    &&& progress.store.account_id == home.account_id
    &&& is_active(home.documents, id)
    &&& document_of(progress.store.documents, id) == document_of(home.documents, id)
    &&& blob_of(progress.store.blobs, script_blob(home, id)) == blob_of(
        home.blobs,
        script_blob(home, id),
    )
    &&& !progress.response.destroyed.contains(id)
}

/// A creation leaves an active script as it is.
pub proof fn lemma_created_one_keeps_active(
    progress: Progress,
    config: Config,
    creation_id: Seq<char>,
    changes: Seq<ChangeView>,
    fallback_name: Seq<char>,
    id: u32,
    home: StoreView,
)
    requires
        kept_active(progress, id, home),
    ensures
        kept_active(
            created_one(progress, config, creation_id, changes, fallback_name),
            id,
            home,
        ),
{
    let documents = progress.store.documents;
    let after = created_one(progress, config, creation_id, changes, fallback_name);
    lemma_fresh_id(documents);
    lemma_position_of(documents, id);
    if after.store != progress.store {
        let made = validated(progress.store, config, changes, None, fallback_name)->Ok_0;
        lemma_applied_keeps_others(
            documents,
            OperationView::Create { document_id: fresh_id(documents) as u32, value: made.0 },
            id,
        );
        lemma_with_blob_keeps_others(
            progress.store.blobs,
            script_blob(progress.store, fresh_id(documents) as u32),
            made.1->0,
            script_blob(progress.store, id),
        );
    }
    let at = choose|i: int| 0 <= i < progress.sieve_ids.len() && progress.sieve_ids[i] == id;
    if after.sieve_ids != progress.sieve_ids {
        assert(after.sieve_ids[at] == id);
    }
}

/// An update of a request that destroys an active script leaves that script
/// as it is.
pub proof fn lemma_updated_one_keeps_active(
    progress: Progress,
    config: Config,
    will_destroy: Seq<u32>,
    document_id: u32,
    changes: Seq<ChangeView>,
    id: u32,
    home: StoreView,
)
    requires
        kept_active(progress, id, home),
        will_destroy.contains(id),
    ensures
        kept_active(
            updated_one(progress, config, will_destroy, document_id, changes),
            id,
            home,
        ),
{
    let documents = progress.store.documents;
    let after = updated_one(progress, config, will_destroy, document_id, changes);
    if after.store != progress.store {
        let current = value_of(documents, document_id)->0;
        let made = validated(
            progress.store,
            config,
            changes,
            Some((document_id, current)),
            Seq::empty(),
        )->Ok_0;
        lemma_applied_keeps_others(
            documents,
            OperationView::Update {
                document_id,
                assert_value: current,
                value: made.0,
                clear_email_ids: false,
            },
            id,
        );
        if let Some(bytes) = made.1 {
            lemma_with_blob_keeps_others(
                progress.store.blobs,
                script_blob(progress.store, document_id),
                bytes,
                script_blob(progress.store, id),
            );
        }
    }
}

/// An active script outlives the request to destroy it, and that of any
/// other script.
pub proof fn lemma_destroyed_one_keeps_active(
    progress: Progress,
    document_id: u32,
    id: u32,
    home: StoreView,
)
    requires
        kept_active(progress, id, home),
    ensures
        kept_active(destroyed_one(progress, document_id), id, home),
        document_id == id ==> destroyed_one(progress, document_id).response.not_destroyed.contains(
            (id, script_is_active_error()),
        ),
        progress.response.not_destroyed.contains((id, script_is_active_error()))
            ==> destroyed_one(progress, document_id).response.not_destroyed.contains(
            (id, script_is_active_error()),
        ),
{
    let after = destroyed_one(progress, document_id);
    let answer = (id, script_is_active_error());
    if document_id == id {
        assert(after.response.not_destroyed.last() == answer);
    } else {
        lemma_applied_keeps_others(
            progress.store.documents,
            OperationView::Delete { document_id },
            id,
        );
        lemma_without_blob_keeps_others(
            progress.store.blobs,
            script_blob(progress.store, document_id),
            script_blob(progress.store, id),
        );
        if after.response.destroyed != progress.response.destroyed {
            assert forall|i: int| 0 <= i < after.response.destroyed.len() implies
                after.response.destroyed[i] != id by {
                if i < progress.response.destroyed.len() {
                    assert(progress.response.destroyed[i] != id);
                }
            }
        }
    }
    if progress.response.not_destroyed.contains(answer) {
        let at = choose|i: int|
            0 <= i < progress.response.not_destroyed.len() && progress.response.not_destroyed[i]
                == answer;
        assert(after.response.not_destroyed[at] == answer);
    }
}

/// The creations of a request leave an active script as it is.
pub proof fn lemma_created_all_keeps_active(
    progress: Progress,
    config: Config,
    create: Seq<Creation>,
    names: Seq<String>,
    upto: int,
    id: u32,
    home: StoreView,
)
    requires
        kept_active(progress, id, home),
    ensures
        kept_active(created_all(progress, config, create, names, upto), id, home),
    decreases upto,
{
    if upto > 0 {
        lemma_created_all_keeps_active(progress, config, create, names, upto - 1, id, home);
        let before = created_all(progress, config, create, names, upto - 1);
        if !before.failed {
            lemma_created_one_keeps_active(
                before,
                config,
                create[upto - 1].id@,
                changes_view(create[upto - 1].object@),
                fallback_at(names, upto - 1),
                id,
                home,
            );
        }
    }
}

/// The updates of a request that destroys an active script leave that
/// script as it is.
pub proof fn lemma_updated_all_keeps_active(
    progress: Progress,
    config: Config,
    update: Seq<Update>,
    will_destroy: Seq<u32>,
    upto: int,
    id: u32,
    home: StoreView,
)
    requires
        kept_active(progress, id, home),
        will_destroy.contains(id),
    ensures
        kept_active(updated_all(progress, config, update, will_destroy, upto), id, home),
    decreases upto,
{
    if upto > 0 {
        lemma_updated_all_keeps_active(
            progress,
            config,
            update,
            will_destroy,
            upto - 1,
            id,
            home,
        );
        lemma_updated_one_keeps_active(
            updated_all(progress, config, update, will_destroy, upto - 1),
            config,
            will_destroy,
            update[upto - 1].id,
            changes_view(update[upto - 1].object@),
            id,
            home,
        );
    }
}

/// An active script outlives the scripts that a request destroys, and is
/// answered `ScriptIsActive` once the request has come to it.
pub proof fn lemma_destroyed_all_keeps_active(
    progress: Progress,
    destroy: Seq<u32>,
    upto: int,
    id: u32,
    home: StoreView,
    at: int,
)
    requires
        kept_active(progress, id, home),
        0 <= at < destroy.len(),
        destroy[at] == id,
        upto <= destroy.len(),
    ensures
        kept_active(destroyed_all(progress, destroy, upto), id, home),
        at < upto ==> destroyed_all(progress, destroy, upto).response.not_destroyed.contains(
            (id, script_is_active_error()),
        ),
    decreases upto,
{
    if upto > 0 {
        lemma_destroyed_all_keeps_active(progress, destroy, upto - 1, id, home, at);
        lemma_destroyed_one_keeps_active(
            destroyed_all(progress, destroy, upto - 1),
            destroy[upto - 1],
            id,
            home,
        );
    }
}

/// A request that asks to destroy a script that is active when the request
/// begins leaves that script stored as it was, active and with its blob,
/// whatever else it asks for. Where it answers, it answers `ScriptIsActive`
/// for the script and does not list it as destroyed.
pub proof fn lemma_request_keeps_active_script(
    store: StoreView,
    config: Config,
    request: SetRequest,
    names: Seq<String>,
    id: u32,
)
    requires
        is_active(store.documents, id),
        request.destroy@.contains(id),
    ensures
        document_of(set_result(store, config, request, names).0.documents, id) == document_of(
            store.documents,
            id,
        ),
        blob_of(set_result(store, config, request, names).0.blobs, script_blob(store, id))
            == blob_of(store.blobs, script_blob(store, id)),
        is_active(set_result(store, config, request, names).0.documents, id),
        set_result(store, config, request, names).1 matches Ok(response)
            ==> response.not_destroyed.contains((id, script_is_active_error()))
            && !response.destroyed.contains(id),
{
    let start = begun(store);
    lemma_position_of(store.documents, id);
    assert(start.sieve_ids[position_of(store.documents, id)->0] == id);
    assert(kept_active(start, id, store));
    let created = created_all(start, config, request.create@, names, request.create@.len() as int);
    lemma_created_all_keeps_active(
        start,
        config,
        request.create@,
        names,
        request.create@.len() as int,
        id,
        store,
    );
    if !created.failed {
        let updated = updated_all(
            created,
            config,
            request.update@,
            request.destroy@,
            request.update@.len() as int,
        );
        lemma_updated_all_keeps_active(
            created,
            config,
            request.update@,
            request.destroy@,
            request.update@.len() as int,
            id,
            store,
        );
        let at = choose|i: int| 0 <= i < request.destroy@.len() && request.destroy@[i] == id;
        lemma_destroyed_all_keeps_active(
            updated,
            request.destroy@,
            request.destroy@.len() as int,
            id,
            store,
            at,
        );
        let destroyed = destroyed_all(updated, request.destroy@, request.destroy@.len() as int);
        let ready = committed(destroyed);
        assert(ready.response.not_destroyed.len() > 0);
        assert(finished(
            ready,
            request.on_success_activate_script,
            request.on_success_deactivate_script,
        ) == ready);
    }
}

/// The updates of a request leave what its creations were answered.
pub proof fn lemma_updated_all_keeps_created(
    progress: Progress,
    config: Config,
    update: Seq<Update>,
    will_destroy: Seq<u32>,
    upto: int,
)
    ensures
        updated_all(progress, config, update, will_destroy, upto).response.created
            == progress.response.created,
        updated_all(progress, config, update, will_destroy, upto).response.not_created
            == progress.response.not_created,
    decreases upto,
{
    if upto > 0 {
        lemma_updated_all_keeps_created(progress, config, update, will_destroy, upto - 1);
    }
}

/// The scripts that a request destroys leave what its creations were
/// answered.
pub proof fn lemma_destroyed_all_keeps_created(progress: Progress, destroy: Seq<u32>, upto: int)
    ensures
        destroyed_all(progress, destroy, upto).response.created == progress.response.created,
        destroyed_all(progress, destroy, upto).response.not_created
            == progress.response.not_created,
    decreases upto,
{
    if upto > 0 {
        lemma_destroyed_all_keeps_created(progress, destroy, upto - 1);
    }
}

/// Whether the longer sequence begins with the shorter.
pub open spec fn begins_with<A>(longer: Seq<A>, shorter: Seq<A>) -> bool {
    shorter.len() <= longer.len() && forall|k: int|
        0 <= k < shorter.len() ==> #[trigger] longer[k] == shorter[k]
}

/// Whether the response lists a script as created for the creation, under
/// the identifier.
pub open spec fn lists_created(response: ResponseView, creation_id: Seq<char>, id: u32) -> bool {
    exists|c: int|
        0 <= c < response.created.len() && (#[trigger] response.created[c]).creation_id
            == creation_id && response.created[c].id == id
}

/// A creation adds to what was answered and takes nothing back, leaves the
/// least identifier of a name that has one, and takes at most one
/// identifier.
pub proof fn lemma_created_one_adds(
    progress: Progress,
    config: Config,
    creation_id: Seq<char>,
    changes: Seq<ChangeView>,
    fallback_name: Seq<char>,
    name: Seq<char>,
    id: u32,
)
    ensures
        ({
            let after = created_one(progress, config, creation_id, changes, fallback_name);
            &&& begins_with(after.response.created, progress.response.created)
            &&& begins_with(after.response.not_created, progress.response.not_created)
            &&& fresh_id(progress.store.documents) <= fresh_id(after.store.documents)
                <= fresh_id(progress.store.documents) + 1
            &&& after.sieve_ids.len() <= progress.sieve_ids.len() + 1
            &&& (fresh_id(progress.store.documents) <= u32::MAX && !progress.failed
                ==> !after.failed)
            &&& (min_id_named(progress.store.documents, name) == Some(id) && id < fresh_id(
                progress.store.documents,
            ) ==> min_id_named(after.store.documents, name) == Some(id))
        }),
{
    let documents = progress.store.documents;
    let after = created_one(progress, config, creation_id, changes, fallback_name);
    if after.store.documents != documents {
        let value = validated(progress.store, config, changes, None, fallback_name)->Ok_0.0;
        lemma_create_fresh(documents, value);
        assert(after.store.documents.drop_last() =~= documents);
    }
}

/// The creations of a request add to what was answered and take nothing
/// back; they leave the least identifier of a name that has one; and while
/// identifiers are left they do not fail.
pub proof fn lemma_created_all_adds(
    progress: Progress,
    config: Config,
    create: Seq<Creation>,
    names: Seq<String>,
    from: int,
    upto: int,
    name: Seq<char>,
    id: u32,
)
    requires
        0 <= from <= upto,
    ensures
        ({
            let before = created_all(progress, config, create, names, from);
            let after = created_all(progress, config, create, names, upto);
            &&& begins_with(after.response.created, before.response.created)
            &&& begins_with(after.response.not_created, before.response.not_created)
            &&& fresh_id(before.store.documents) <= fresh_id(after.store.documents)
                <= fresh_id(before.store.documents) + (upto - from)
            &&& after.sieve_ids.len() <= before.sieve_ids.len() + (upto - from)
            &&& (fresh_id(before.store.documents) + (upto - from) <= u32::MAX + 1
                && !before.failed ==> !after.failed)
            &&& (min_id_named(before.store.documents, name) == Some(id) && id < fresh_id(
                before.store.documents,
            ) ==> min_id_named(after.store.documents, name) == Some(id))
        }),
    decreases upto - from,
{
    if from < upto {
        lemma_created_all_adds(progress, config, create, names, from, upto - 1, name, id);
        let middle = created_all(progress, config, create, names, upto - 1);
        if !middle.failed {
            lemma_created_one_adds(
                middle,
                config,
                create[upto - 1].id@,
                changes_view(create[upto - 1].object@),
                fallback_at(names, upto - 1),
                name,
                id,
            );
        }
    }
}

/// Of two creations of one request under one name, which no script has when
/// the turn of the first comes, the first is created and the second is
/// turned down as `AlreadyExists`, with the identifier of the first,
/// whatever else the request asks for. The quota has room for the creations
/// up to the second, and identifiers are left for all of them.
pub proof fn lemma_request_same_name_twice(
    store: StoreView,
    config: Config,
    request: SetRequest,
    names: Seq<String>,
    name: Seq<char>,
    first: int,
    second: int,
)
    requires
        0 <= first < second < request.create@.len(),
        document_ids(store.documents).len() + second <= config.sieve_max_scripts,
        fresh_id(store.documents) + request.create@.len() <= u32::MAX + 1,
        ({
            let before = created_all(begun(store), config, request.create@, names, first);
            &&& name_error(before.store.documents, config, None, name) is None
            &&& validated(
                before.store,
                config,
                changes_view(request.create@[first].object@),
                None,
                fallback_at(names, first),
            ) matches Ok((value, _)) && value.name == name
        }),
        changes_view(request.create@[second].object@).len() > 0,
        changes_view(request.create@[second].object@)[0] == (ChangeView {
            property: Property::Name,
            value: ValueView::Text(name),
        }),
    ensures
        ({
            let before = created_all(begun(store), config, request.create@, names, first);
            let id = fresh_id(before.store.documents) as u32;
            set_result(store, config, request, names).1 matches Ok(response) && lists_created(
                response,
                request.create@[first].id@,
                id,
            ) && response.not_created.contains(
                (request.create@[second].id@, name_taken_error(name, id)),
            )
        }),
{
    let create = request.create@;
    let start = begun(store);
    let all = create.len() as int;
    let before = created_all(start, config, create, names, first);
    let one = created_all(start, config, create, names, first + 1);
    let between = created_all(start, config, create, names, second);
    let two = created_all(start, config, create, names, second + 1);
    let created = created_all(start, config, create, names, all);
    let id = fresh_id(before.store.documents) as u32;
    let answer = (create[second].id@, name_taken_error(name, id));
    assert(created_all(start, config, create, names, 0) == start);
    lemma_created_all_adds(start, config, create, names, 0, first, name, id);
    lemma_created_all_adds(start, config, create, names, 0, second, name, id);
    lemma_created_all_adds(start, config, create, names, 0, all, name, id);
    // The first is created.
    let value = validated(
        before.store,
        config,
        changes_view(create[first].object@),
        None,
        fallback_at(names, first),
    )->Ok_0.0;
    lemma_created_inactive(
        before.store,
        config,
        changes_view(create[first].object@),
        fallback_at(names, first),
    );
    lemma_create_fresh(before.store.documents, value);
    lemma_min_id_named_push(
        before.store.documents,
        DocumentView { document_id: id, value, email_ids: Seq::empty() },
        name,
    );
    assert(one.store.documents.drop_last() =~= before.store.documents);
    let at = before.response.created.len() as int;
    assert(one.response.created[at].creation_id == create[first].id@);
    assert(one.response.created[at].id == id);
    assert(min_id_named(one.store.documents, name) == Some(id));
    // The name stays taken until the turn of the second.
    lemma_created_all_adds(start, config, create, names, first + 1, second, name, id);
    assert(between.response.created[at] == one.response.created[at]);
    // The second is turned down.
    let changes = changes_view(create[second].object@);
    assert(changes.take(1).drop_last() =~= Seq::<ChangeView>::empty());
    assert(changes.take(1).last() == changes[0]);
    assert(parsed_all(between.store.documents, config, None, changes.take(1).drop_last()) is Ok);
    lemma_parsed_all_stops(between.store.documents, config, None, changes, 1);
    assert(two.response.created == between.response.created);
    assert(two.response.not_created == between.response.not_created.push(answer));
    let missed = between.response.not_created.len() as int;
    assert(two.response.not_created[missed] == answer);
    // What was answered stays.
    lemma_created_all_adds(start, config, create, names, second + 1, all, name, id);
    assert(created.response.created[at] == two.response.created[at]);
    assert(created.response.not_created[missed] == answer);
    let updated = updated_all(
        created,
        config,
        request.update@,
        request.destroy@,
        request.update@.len() as int,
    );
    lemma_updated_all_keeps_created(
        created,
        config,
        request.update@,
        request.destroy@,
        request.update@.len() as int,
    );
    let destroyed = destroyed_all(updated, request.destroy@, request.destroy@.len() as int);
    lemma_destroyed_all_keeps_created(updated, request.destroy@, request.destroy@.len() as int);
    let ready = committed(destroyed);
    assert(ready.response.not_created.len() > 0);
    assert(finished(
        ready,
        request.on_success_activate_script,
        request.on_success_deactivate_script,
    ) == ready);
    assert(ready.response.created[at].creation_id == create[first].id@);
    assert(ready.response.not_created[missed] == answer);
}

/// A request that creates one script, under a name that no script has and
/// from a blob that compiles, and asks for nothing else, stores the script
/// last, under an identifier that was not in use, inactive, with its name
/// and with its blob. It answers with that identifier and with the name and
/// the size of that blob, and the store is in its next state.
pub proof fn lemma_request_creates_script(
    store: StoreView,
    config: Config,
    request: SetRequest,
    names: Seq<String>,
    name: Seq<char>,
    blob_id: BlobId,
    source: Seq<u8>,
)
    requires
        request.create@.len() == 1,
        request.update@.len() == 0,
        request.destroy@.len() == 0,
        request.on_success_activate_script is None,
        request.on_success_deactivate_script != Some(true),
        changes_view(request.create@[0].object@) == seq![
            ChangeView { property: Property::Name, value: ValueView::Text(name) },
            ChangeView { property: Property::BlobId, value: ValueView::BlobId(blob_id) },
        ],
        name.len() > 0,
        name_error(store.documents, config, None, name) is None,
        downloadable(store.blobs, store.account_id, blob_id) == Some(source),
        compiled_form(config.sieve_max_script_size, source) is Ok,
        document_ids(store.documents).len() <= config.sieve_max_scripts,
        fresh_id(store.documents) <= u32::MAX,
    ensures
        ({
            let (after, answer) = set_result(store, config, request, names);
            let id = fresh_id(store.documents) as u32;
            let blob = blob_from(
                source,
                compiled_form(config.sieve_max_script_size, source),
            )->Ok_0.1;
            let value = ScriptView { name, is_active: false, blob_size: source.len() as u64 };
            &&& value_of(store.documents, id) is None
            &&& after.documents == store.documents.push(
                DocumentView { document_id: id, value, email_ids: Seq::empty() },
            )
            &&& value_of(after.documents, id) == Some(value)
            &&& after.blobs == with_blob(store.blobs, script_blob(store, id), blob)
            &&& after.state == next_state(store.state)
            &&& answer matches Ok(response) && response.created == seq![
                CreatedView {
                    creation_id: request.create@[0].id@,
                    id,
                    blob_id: BlobId {
                        kind: script_blob(store, id),
                        section_size: Some(blob.len() as usize),
                    },
                    is_active: None,
                },
            ] && response.not_created.len() == 0 && response.new_state == Some(
                next_state(store.state),
            )
        }),
{
    let create = request.create@;
    let start = begun(store);
    let changes = changes_view(create[0].object@);
    let id = fresh_id(store.documents) as u32;
    let value = ScriptView { name, is_active: false, blob_size: source.len() as u64 };
    assert(changes.drop_last() =~= seq![changes[0]]);
    assert(changes.drop_last().drop_last() =~= Seq::<ChangeView>::empty());
    assert(parsed_all(store.documents, config, None, changes.drop_last().drop_last()) is Ok);
    assert(parsed_all(store.documents, config, None, changes.drop_last()) is Ok);
    assert(changes.last() == changes[1]);
    assert(validated(store, config, changes, None, fallback_at(names, 0)) matches Ok((made, _))
        && made == value);
    lemma_create_fresh(store.documents, value);
    let one = created_one(start, config, create[0].id@, changes, fallback_at(names, 0));
    assert(created_all(start, config, create, names, 0) == start);
    assert(created_all(start, config, create, names, 1) == one);
    assert(updated_all(one, config, request.update@, request.destroy@, 0) == one);
    assert(destroyed_all(one, request.destroy@, 0) == one);
    let ready = committed(one);
    assert(finished(
        ready,
        request.on_success_activate_script,
        request.on_success_deactivate_script,
    ) == ready);
    assert(ready.response.created =~= seq![one.response.created[0]]);
    lemma_fresh_id(store.documents);
    lemma_position_of(store.documents, id);
    lemma_position_of(one.store.documents, id);
    assert(one.store.documents[store.documents.len() as int].document_id == id);
    match position_of(one.store.documents, id) {
        Some(at) => {
            if at < store.documents.len() {
                assert(one.store.documents[at] == store.documents[at]);
            }
        },
        None => {},
    }
}

/// No creation is found under a reference that none has.
pub proof fn lemma_created_id_none(created: Seq<CreatedView>, reference: Seq<char>)
    requires
        forall|c: int| 0 <= c < created.len() ==> (#[trigger] created[c]).creation_id != reference,
    ensures
        created_id(created, reference) is None,
    decreases created.len(),
{
    if created.len() > 0 {
        assert(created[0].creation_id != reference);
        assert forall|c: int| 0 <= c < created.drop_first().len() implies (
        #[trigger] created.drop_first()[c]).creation_id != reference by {
            assert(created[c + 1].creation_id != reference);
        }
        lemma_created_id_none(created.drop_first(), reference);
    }
}

/// The scripts that a request creates are answered under the names that its
/// creations have.
pub proof fn lemma_created_all_skips_reference(
    progress: Progress,
    config: Config,
    create: Seq<Creation>,
    names: Seq<String>,
    upto: int,
    reference: Seq<char>,
)
    requires
        upto <= create.len(),
        forall|i: int| 0 <= i < create.len() ==> (#[trigger] create[i]).id@ != reference,
        forall|c: int|
            0 <= c < progress.response.created.len() ==> (
            #[trigger] progress.response.created[c]).creation_id != reference,
    ensures
        forall|c: int|
            0 <= c < created_all(progress, config, create, names, upto).response.created.len() ==> (
            #[trigger] created_all(
                progress,
                config,
                create,
                names,
                upto,
            ).response.created[c]).creation_id != reference,
    decreases upto,
{
    if upto > 0 {
        lemma_created_all_skips_reference(progress, config, create, names, upto - 1, reference);
        let before = created_all(progress, config, create, names, upto - 1);
        let after = created_all(progress, config, create, names, upto);
        assert(create[upto - 1].id@ != reference);
        assert forall|c: int| 0 <= c < after.response.created.len() implies (
        #[trigger] after.response.created[c]).creation_id != reference by {
            if c < before.response.created.len() {
                assert(before.response.created[c].creation_id != reference);
            }
        }
    }
}

/// A request that asks to activate a script by a reference that none of its
/// creations has does what it does without the activation, and answers so.
pub proof fn lemma_unresolved_reference(
    store: StoreView,
    config: Config,
    request: SetRequest,
    names: Seq<String>,
    reference: String,
)
    requires
        request.on_success_activate_script == Some(MaybeReference::Reference(reference)),
        forall|i: int|
            0 <= i < request.create@.len() ==> (#[trigger] request.create@[i]).id@ != reference@,
    ensures
        set_result(store, config, request, names) == set_result(
            store,
            config,
            SetRequest {
                on_success_activate_script: None,
                on_success_deactivate_script: None,
                ..request
            },
            names,
        ),
{
    let start = begun(store);
    let created = created_all(start, config, request.create@, names, request.create@.len() as int);
    lemma_created_all_skips_reference(
        start,
        config,
        request.create@,
        names,
        request.create@.len() as int,
        reference@,
    );
    if !created.failed {
        let updated = updated_all(
            created,
            config,
            request.update@,
            request.destroy@,
            request.update@.len() as int,
        );
        lemma_updated_all_keeps_created(
            created,
            config,
            request.update@,
            request.destroy@,
            request.update@.len() as int,
        );
        let destroyed = destroyed_all(updated, request.destroy@, request.destroy@.len() as int);
        lemma_destroyed_all_keeps_created(updated, request.destroy@, request.destroy@.len() as int);
        let ready = committed(destroyed);
        lemma_created_id_none(ready.response.created, reference@);
        assert(finished(
            ready,
            request.on_success_activate_script,
            request.on_success_deactivate_script,
        ) == ready);
        assert(finished(ready, None, None) == ready);
    }
}

/// A request that creates one script under a name that a stored script has
/// creates nothing and turns the creation down as `AlreadyExists`, with the
/// least identifier of the scripts of that name, whatever it updates and
/// destroys besides.
pub proof fn lemma_request_name_taken(
    store: StoreView,
    config: Config,
    request: SetRequest,
    names: Seq<String>,
    name: Seq<char>,
    existing: u32,
)
    requires
        request.create@.len() == 1,
        document_ids(store.documents).len() <= config.sieve_max_scripts,
        byte_len(name) <= config.sieve_max_script_name,
        !is_vacation(name),
        min_id_named(store.documents, name) == Some(existing),
        changes_view(request.create@[0].object@).len() > 0,
        changes_view(request.create@[0].object@)[0] == (ChangeView {
            property: Property::Name,
            value: ValueView::Text(name),
        }),
    ensures
        set_result(store, config, request, names).1 matches Ok(response) && response.created.len()
            == 0 && response.not_created == seq![
            (request.create@[0].id@, name_taken_error(name, existing)),
        ],
{
    let create = request.create@;
    let start = begun(store);
    let changes = changes_view(create[0].object@);
    assert(changes.take(1).drop_last() =~= Seq::<ChangeView>::empty());
    assert(changes.take(1).last() == changes[0]);
    assert(parsed_all(store.documents, config, None, changes.take(1).drop_last()) is Ok);
    lemma_parsed_all_stops(store.documents, config, None, changes, 1);
    let one = created_one(start, config, create[0].id@, changes, fallback_at(names, 0));
    assert(created_all(start, config, create, names, 0) == start);
    assert(created_all(start, config, create, names, 1) == one);
    let updated = updated_all(
        one,
        config,
        request.update@,
        request.destroy@,
        request.update@.len() as int,
    );
    lemma_updated_all_keeps_created(
        one,
        config,
        request.update@,
        request.destroy@,
        request.update@.len() as int,
    );
    let destroyed = destroyed_all(updated, request.destroy@, request.destroy@.len() as int);
    lemma_destroyed_all_keeps_created(updated, request.destroy@, request.destroy@.len() as int);
    let ready = committed(destroyed);
    assert(ready.response.not_created.len() == 1);
    assert(finished(
        ready,
        request.on_success_activate_script,
        request.on_success_deactivate_script,
    ) == ready);
    assert(ready.response.not_created =~= seq![
        (create[0].id@, name_taken_error(name, existing)),
    ]);
    assert(ready.response.created =~= Seq::empty());
}

} // verus!
