//! What a set request does, step by step: the scripts it creates, updates
//! and destroys, the change set it commits, and the activation that follows
//! where nothing was turned down.
use vstd::prelude::*;
use crate::sieve::activate::{activated, is_active};
use crate::sieve::object::{
    changes_view, set_error, BlobId, BlobKind, ChangeView, Collection, MethodError, SetErrorType,
    SetErrorView,
};
use crate::sieve::request::{
    created_id, decorated, empty_response, Creation, CreatedView, MaybeReference, ResponseView,
    SetRequest, Update, Updated,
};
use crate::sieve::set::{deleted, with_documents};
use crate::sieve::store::{
    applied, document_ids, fresh_id, passes, value_of, with_blob, OperationView, ScriptView,
    StoreView,
};
use crate::sieve::validate::{validated, Config};

verus! {

/// How far a set request has come.
pub ghost struct Progress {
    pub store: StoreView,
    pub response: ResponseView,
    /// The identifiers that the request takes to be in use: those that were
    /// when it began, and those of the scripts it created.
    pub sieve_ids: Seq<u32>,
    /// Whether the request has changes to commit.
    pub changed: bool,
    /// Whether the store failed the request.
    pub failed: bool,
}

/// The error of a script beyond the quota.
pub open spec fn over_quota_error() -> SetErrorView {
    set_error(SetErrorType::OverQuota).described(
        "There are too many sieve scripts, please delete some before adding a new one."@,
    )
}

/// The error of an update whose script was changed by another writer.
pub open spec fn conflict_error() -> SetErrorView {
    set_error(SetErrorType::Forbidden).described(
        "Another process modified this sieve, please try again."@,
    )
}

/// The error of a script that is destroyed while it is active.
pub open spec fn script_is_active_error() -> SetErrorView {
    set_error(SetErrorType::ScriptIsActive).described("Deactivate Sieve script before deletion."@)
}

/// The name of the blob of a script.
pub open spec fn script_blob(store: StoreView, document_id: u32) -> BlobKind {
    BlobKind::Linked {
        account_id: store.account_id,
        collection: Collection::SieveScript,
        document_id,
    }
}

/// The fallback name of the creation at a place: the name given for that
/// place, the empty name where none is given.
pub open spec fn fallback_at(names: Seq<String>, at: int) -> Seq<char> {
    if 0 <= at < names.len() {
        names[at]@
    } else {
        Seq::empty()
    }
}

/// Where a request begins: nothing said, nothing changed, the identifiers
/// in use those of the stored scripts.
pub open spec fn begun(store: StoreView) -> Progress {
    Progress {
        store,
        response: empty_response(),
        sieve_ids: document_ids(store.documents),
        changed: false,
        failed: false,
    }
}

/// The progress after one creation.
///
/// A script is created while the identifiers in use are no more than the
/// quota; beyond it the creation is turned down as `OverQuota`. The object
/// is held to the rules, then the script gets a new identifier, its blob is
/// stored, and its document is created. The request fails where no
/// identifier is left.
pub open spec fn created_one(
    progress: Progress,
    config: Config,
    creation_id: Seq<char>,
    changes: Seq<ChangeView>,
    fallback_name: Seq<char>,
) -> Progress {
    let store = progress.store;
    let response = progress.response;
    if progress.sieve_ids.len() <= config.sieve_max_scripts {
        match validated(store, config, changes, None, fallback_name) {
            Ok((value, Some(blob))) => if fresh_id(store.documents) > u32::MAX {
                Progress { failed: true, ..progress }
            } else {
                let document_id = fresh_id(store.documents) as u32;
                let kind = script_blob(store, document_id);
                Progress {
                    store: StoreView {
                        blobs: with_blob(store.blobs, kind, blob),
                        documents: applied(
                            store.documents,
                            OperationView::Create { document_id, value },
                        ),
                        ..store
                    },
                    response: ResponseView {
                        created: response.created.push(
                            CreatedView {
                                creation_id,
                                id: document_id,
                                blob_id: BlobId { kind, section_size: Some(blob.len() as usize) },
                                is_active: None,
                            },
                        ),
                        ..response
                    },
                    sieve_ids: progress.sieve_ids.push(document_id),
                    changed: true,
                    failed: false,
                }
            },
            Ok((_, None)) => progress,
            Err(error) => Progress {
                response: ResponseView {
                    not_created: response.not_created.push((creation_id, error)),
                    ..response
                },
                ..progress
            },
        }
    } else {
        Progress {
            response: ResponseView {
                not_created: response.not_created.push((creation_id, over_quota_error())),
                ..response
            },
            ..progress
        }
    }
}

/// The progress after an update under the value that its writer read.
///
/// The object is held to the rules. Then the new blob is stored, if there is
/// one, and the document is written on condition that the value read is
/// still the stored one. Where it is not, the update is turned down as
/// `Forbidden` and the document stays as it is; the blob is stored all the
/// same.
pub open spec fn update_committed(
    progress: Progress,
    config: Config,
    document_id: u32,
    snapshot: ScriptView,
    changes: Seq<ChangeView>,
) -> Progress {
    let store = progress.store;
    let response = progress.response;
    match validated(store, config, changes, Some((document_id, snapshot)), Seq::empty()) {
        Err(error) => Progress {
            response: ResponseView {
                not_updated: response.not_updated.push((document_id, error)),
                ..response
            },
            ..progress
        },
        Ok((value, blob)) => {
            let kind = script_blob(store, document_id);
            let blobs = match blob {
                Some(bytes) => with_blob(store.blobs, kind, bytes),
                None => store.blobs,
            };
            let blob_id = match blob {
                Some(bytes) => Some(BlobId { kind, section_size: Some(bytes.len() as usize) }),
                None => None,
            };
            let op = OperationView::Update {
                document_id,
                assert_value: snapshot,
                value,
                clear_email_ids: false,
            };
            if passes(store.documents, op) {
                Progress {
                    store: StoreView { blobs, documents: applied(store.documents, op), ..store },
                    response: ResponseView {
                        updated: response.updated.push(
                            Updated { id: document_id, blob_id, is_active: None },
                        ),
                        ..response
                    },
                    changed: true,
                    ..progress
                }
            } else {
                Progress {
                    store: StoreView { blobs, ..store },
                    response: ResponseView {
                        not_updated: response.not_updated.push((document_id, conflict_error())),
                        ..response
                    },
                    changed: true,
                    ..progress
                }
            }
        },
    }
}

/// The progress after one update of a request: turned down as `WillDestroy`
/// where the request destroys the script, as `NotFound` where there is no
/// such script, and else committed under the stored value.
pub open spec fn updated_one(
    progress: Progress,
    config: Config,
    will_destroy: Seq<u32>,
    document_id: u32,
    changes: Seq<ChangeView>,
) -> Progress {
    let response = progress.response;
    if will_destroy.contains(document_id) {
        Progress {
            response: ResponseView {
                not_updated: response.not_updated.push(
                    (document_id, crate::sieve::object::will_destroy_error()),
                ),
                ..response
            },
            ..progress
        }
    } else {
        match value_of(progress.store.documents, document_id) {
            Some(current) => update_committed(progress, config, document_id, current, changes),
            None => Progress {
                response: ResponseView {
                    not_updated: response.not_updated.push(
                        (document_id, crate::sieve::object::not_found_error()),
                    ),
                    ..response
                },
                ..progress
            },
        }
    }
}

/// The progress after one script was to be destroyed: turned down as
/// `NotFound` where the identifier is not in use, as `ScriptIsActive` where
/// the script is active, and else deleted with its blob.
pub open spec fn destroyed_one(progress: Progress, document_id: u32) -> Progress {
    let response = progress.response;
    if progress.sieve_ids.contains(document_id) {
        if is_active(progress.store.documents, document_id) {
            Progress {
                response: ResponseView {
                    not_destroyed: response.not_destroyed.push(
                        (document_id, script_is_active_error()),
                    ),
                    ..response
                },
                ..progress
            }
        } else {
            Progress {
                store: deleted(progress.store, document_id),
                response: ResponseView {
                    destroyed: response.destroyed.push(document_id),
                    ..response
                },
                changed: true,
                ..progress
            }
        }
    } else {
        Progress {
            response: ResponseView {
                not_destroyed: response.not_destroyed.push(
                    (document_id, crate::sieve::object::not_found_error()),
                ),
                ..response
            },
            ..progress
        }
    }
}

/// The progress after the first `upto` creations, up to the first that
/// fails the request.
pub open spec fn created_all(
    progress: Progress,
    config: Config,
    create: Seq<Creation>,
    names: Seq<String>,
    upto: int,
) -> Progress
    decreases upto,
{
    if upto <= 0 {
        progress
    } else {
        let before = created_all(progress, config, create, names, upto - 1);
        if before.failed {
            before
        } else {
            created_one(
                before,
                config,
                create[upto - 1].id@,
                changes_view(create[upto - 1].object@),
                fallback_at(names, upto - 1),
            )
        }
    }
}

/// The progress after the first `upto` updates.
pub open spec fn updated_all(
    progress: Progress,
    config: Config,
    update: Seq<Update>,
    will_destroy: Seq<u32>,
    upto: int,
) -> Progress
    decreases upto,
{
    if upto <= 0 {
        progress
    } else {
        updated_one(
            updated_all(progress, config, update, will_destroy, upto - 1),
            config,
            will_destroy,
            update[upto - 1].id,
            changes_view(update[upto - 1].object@),
        )
    }
}

/// The progress after the first `upto` scripts were to be destroyed.
pub open spec fn destroyed_all(progress: Progress, destroy: Seq<u32>, upto: int) -> Progress
    decreases upto,
{
    if upto <= 0 {
        progress
    } else {
        destroyed_one(destroyed_all(progress, destroy, upto - 1), destroy[upto - 1])
    }
}

/// The state that follows a state.
pub open spec fn next_state(state: u64) -> u64 {
    if state == u64::MAX {
        u64::MAX
    } else {
        (state + 1) as u64
    }
}

/// The progress after the change set was committed, where there is one: the
/// store is in its next state, and the response says which.
pub open spec fn committed(progress: Progress) -> Progress {
    if progress.changed {
        Progress {
            store: StoreView { state: next_state(progress.store.state), ..progress.store },
            response: ResponseView {
                new_state: Some(next_state(progress.store.state)),
                ..progress.response
            },
            ..progress
        }
    } else {
        progress
    }
}

/// Whether the request's activation takes place: nothing was turned down,
/// and the request names a script to activate or asks for none to be active.
pub open spec fn activates(
    response: ResponseView,
    activate: Option<MaybeReference>,
    deactivate: Option<bool>,
) -> bool {
    &&& response.not_created.len() == 0
    &&& response.not_updated.len() == 0
    &&& response.not_destroyed.len() == 0
    &&& (activate is Some || deactivate == Some(true))
}

/// The script that the request asks to activate: `Some(None)` asks for no
/// active script, and `None` stands for a reference that names no created
/// script.
pub open spec fn activation_target(response: ResponseView, activate: Option<MaybeReference>) -> Option<
    Option<u32>,
> {
    match activate {
        Some(MaybeReference::Value(id)) => Some(Some(id)),
        Some(MaybeReference::Reference(reference)) => match created_id(
            response.created,
            reference@,
        ) {
            Some(id) => Some(Some(id)),
            None => None,
        },
        None => Some(None),
    }
}

/// The progress after the request's activation: where it takes place and
/// its target is found, the script is made the one active script, and the
/// response shows the new state of every script that changed.
pub open spec fn finished(
    progress: Progress,
    activate: Option<MaybeReference>,
    deactivate: Option<bool>,
) -> Progress {
    if activates(progress.response, activate, deactivate) {
        match activation_target(progress.response, activate) {
            Some(activate_id) => {
                let (documents, changes) = activated(progress.store.documents, activate_id);
                Progress {
                    store: with_documents(progress.store, documents),
                    response: decorated(progress.response, changes),
                    ..progress
                }
            },
            None => progress,
        }
    } else {
        progress
    }
}

/// What a set request does to the store and what it answers. The creations
/// come first, then the updates, then the scripts to destroy; the change set
/// is committed, and the activation follows. A request that the store fails
/// stops where it failed and answers `ServerPartialFail`.
pub open spec fn set_result(store: StoreView, config: Config, request: SetRequest, names: Seq<String>) -> (
    StoreView,
    Result<ResponseView, MethodError>,
) {
    let created = created_all(
        begun(store),
        config,
        request.create@,
        names,
        request.create@.len() as int,
    );
    if created.failed {
        (created.store, Err(MethodError::ServerPartialFail))
    } else {
        let updated = updated_all(
            created,
            config,
            request.update@,
            request.destroy@,
            request.update@.len() as int,
        );
        let destroyed = destroyed_all(updated, request.destroy@, request.destroy@.len() as int);
        let done = finished(
            committed(destroyed),
            request.on_success_activate_script,
            request.on_success_deactivate_script,
        );
        (done.store, Ok(done.response))
    }
}

} // verus!
