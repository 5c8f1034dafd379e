//! The steps of a set request, as the manager takes them.
use vstd::prelude::*;
use crate::sieve::object::{
    changes_view, BlobId, Change, Collection, MethodError, SetError, SetErrorType,
};
use crate::sieve::activate::at_most_one_active;
use crate::sieve::compile::{is_random_name, random_name};
use crate::sieve::laws::lemma_set_keeps_one_active;
use crate::sieve::request::{
    decorated, Created, Creation, MaybeReference, ResponseView, SetRequest, SetResponse, Update,
    Updated,
};
use crate::sieve::script_set::{
    activation_target, begun, committed, created_all, created_one, destroyed_all,
    destroyed_one, fallback_at, set_result, update_committed, updated_all, updated_one,
    Progress,
};
use crate::sieve::validate::{Config, RANDOM_NAME_LENGTH};
use crate::sieve::set::JMAP;
use crate::sieve::store::{
    all_pass, applied, applied_all, batch_view, Operation, OperationView, Script, StoreError,
    passes,
};

verus! {

/// What the manager keeps while it works on a set request.
#[derive(Debug)]
pub struct SetContext {
    pub response: SetResponse,
    /// The identifiers that the request takes to be in use.
    pub sieve_ids: Vec<u32>,
    /// Whether the request has changes to commit.
    pub changed: bool,
}

/// How far the manager has come with a request.
pub open spec fn progress_of(manager: JMAP, ctx: SetContext, failed: bool) -> Progress {
    Progress {
        store: manager@.store,
        response: ctx.response@,
        sieve_ids: ctx.sieve_ids@,
        changed: ctx.changed,
        failed,
    }
}

/// A batch of one operation passes where the operation does, and applies as
/// the operation does.
pub proof fn lemma_single_operation(
    documents: Seq<crate::sieve::store::DocumentView>,
    batch: Seq<OperationView>,
)
    requires
        batch.len() == 1,
    ensures
        all_pass(documents, batch) == passes(documents, batch[0]),
        applied_all(documents, batch) == applied(documents, batch[0]),
{
    assert(batch.drop_last() =~= Seq::<OperationView>::empty());
    assert(applied_all(documents, batch.drop_last()) == documents);
    assert(batch.last() == batch[0]);
}

/// Whether the identifier is among those given.
pub fn contains_id(ids: &Vec<u32>, id: u32) -> (found: bool)
    ensures
        found == ids@.contains(id),
{
    let mut at: usize = 0;
    while at < ids.len()
        invariant
            at <= ids@.len(),
            forall|i: int| 0 <= i < at ==> ids@[i] != id,
        decreases ids@.len() - at,
    {
        if ids[at] == id {
            assert(ids@[at as int] == id);
            return true;
        }
        at += 1;
    }
    false
}

impl JMAP {
    /// Takes one creation of a request.
    pub fn create_item(&mut self, ctx: &mut SetContext, creation: &Creation, fallback_name: String) -> (done: Result<(), MethodError>)
        requires
            old(self).wf(),
        ensures
            final(self).wf(),
            final(self)@.config == old(self)@.config,
            progress_of(*final(self), *final(ctx), done is Err) == created_one(
                progress_of(*old(self), *old(ctx), false),
                old(self)@.config,
                creation.id@,
                changes_view(creation.object@),
                fallback_name@,
            ),
    {
        if ctx.sieve_ids.len() <= self.config.sieve_max_scripts {
            match self.sieve_set_item(&creation.object, &None, fallback_name) {
                Ok((value, Some(blob))) => {
                    // Obtain document id
                    let document_id = match self.store.assign_document_id() {
                        Ok(id) => id,
                        Err(_) => {
                            return Err(MethodError::ServerPartialFail);
                        },
                    };
                    // Store blob
                    let blob_id = BlobId::linked(
                        self.store.account_id(),
                        Collection::SieveScript,
                        document_id,
                    );
                    let size = blob.len();
                    self.store.put_blob(blob_id.kind, blob);
                    // Write record
                    let mut batch: Vec<Operation> = Vec::new();
                    batch.push(Operation::Create { document_id, value });
                    proof {
                        lemma_single_operation(old(self)@.store.documents, batch_view(batch@));
                    }
                    match self.store.write(&batch) {
                        Ok(_) => {},
                        Err(_) => {
                            return Err(MethodError::ServerPartialFail);
                        },
                    }
                    ctx.sieve_ids.push(document_id);
                    ctx.changed = true;
                    // Add result with updated blobId
                    ctx.response.push_created(
                        Created {
                            creation_id: creation.id.clone(),
                            id: document_id,
                            blob_id: blob_id.with_section_size(size),
                            is_active: None,
                        },
                    );
                },
                Ok((_, None)) => {},
                Err(error) => {
                    ctx.response.push_not_created(creation.id.clone(), error);
                },
            }
        } else {
            ctx.response.push_not_created(
                creation.id.clone(),
                SetError::new(SetErrorType::OverQuota).with_description(
                    "There are too many sieve scripts, please delete some before adding a new one.",
                ),
            );
        }
        Ok(())
    }

    /// Commits an update of a script under the value that its writer read
    /// before. Where the stored value is another by now, the update is
    /// turned down and the script stays as it is.
    pub fn update_script(&mut self, ctx: &mut SetContext, document_id: u32, snapshot: Script, changes: &Vec<Change>) -> (done: Result<(), MethodError>)
        requires
            old(self).wf(),
        ensures
            final(self).wf(),
            done is Ok,
            final(self)@.config == old(self)@.config,
            progress_of(*final(self), *final(ctx), false) == update_committed(
                progress_of(*old(self), *old(ctx), false),
                old(self)@.config,
                document_id,
                snapshot@,
                changes_view(changes@),
            ),
    {
        let update = Some((document_id, snapshot));
        match self.sieve_set_item(changes, &update, String::new()) {
            Ok((value, blob)) => {
                // Store blob
                let blob_id = match blob {
                    Some(blob) => {
                        let blob_id = BlobId::linked(
                            self.store.account_id(),
                            Collection::SieveScript,
                            document_id,
                        );
                        let size = blob.len();
                        self.store.put_blob(blob_id.kind, blob);
                        Some(blob_id.with_section_size(size))
                    },
                    None => None,
                };
                // Write record
                let assert_value = match update {
                    Some((_, sieve)) => sieve,
                    None => value.clone(),
                };
                let mut batch: Vec<Operation> = Vec::new();
                batch.push(
                    Operation::Update { document_id, assert_value, value, clear_email_ids: false },
                );
                proof {
                    lemma_single_operation(old(self)@.store.documents, batch_view(batch@));
                }
                ctx.changed = true;
                match self.store.write(&batch) {
                    Ok(_) => {
                        // Add result with updated blobId
                        ctx.response.push_updated(Updated { id: document_id, blob_id, is_active: None });
                    },
                    Err(StoreError::AssertValueFailed) => {
                        ctx.response.push_not_updated(
                            document_id,
                            SetError::forbidden().with_description(
                                "Another process modified this sieve, please try again.",
                            ),
                        );
                    },
                    Err(_) => {
                        return Err(MethodError::ServerPartialFail);
                    },
                }
            },
            Err(error) => {
                ctx.response.push_not_updated(document_id, error);
            },
        }
        Ok(())
    }

    /// Takes one update of a request.
    pub fn update_item(&mut self, ctx: &mut SetContext, will_destroy: &Vec<u32>, update: &Update) -> (done: Result<(), MethodError>)
        requires
            old(self).wf(),
        ensures
            final(self).wf(),
            done is Ok,
            final(self)@.config == old(self)@.config,
            progress_of(*final(self), *final(ctx), false) == updated_one(
                progress_of(*old(self), *old(ctx), false),
                old(self)@.config,
                will_destroy@,
                update.id,
                changes_view(update.object@),
            ),
    {
        // Make sure id won't be destroyed
        if contains_id(will_destroy, update.id) {
            ctx.response.push_not_updated(update.id, SetError::will_destroy());
            return Ok(());
        }
        // Obtain sieve script
        match self.store.get_value(update.id) {
            Some(sieve) => self.update_script(ctx, update.id, sieve, &update.object),
            None => {
                ctx.response.push_not_updated(update.id, SetError::not_found());
                Ok(())
            },
        }
    }

    /// Takes one script that a request destroys.
    pub fn destroy_item(&mut self, ctx: &mut SetContext, document_id: u32) -> (done: Result<(), MethodError>)
        requires
            old(self).wf(),
        ensures
            final(self).wf(),
            done is Ok,
            final(self)@.config == old(self)@.config,
            progress_of(*final(self), *final(ctx), false) == destroyed_one(
                progress_of(*old(self), *old(ctx), false),
                document_id,
            ),
    {
        if contains_id(&ctx.sieve_ids, document_id) {
            // Make sure the script is not active
            let active = match self.store.get_value(document_id) {
                Some(sieve) => sieve.is_active,
                None => false,
            };
            if active {
                ctx.response.push_not_destroyed(
                    document_id,
                    SetError::new(SetErrorType::ScriptIsActive).with_description(
                        "Deactivate Sieve script before deletion.",
                    ),
                );
                return Ok(());
            }
            match self.sieve_script_delete(document_id) {
                Ok(_) => {},
                Err(error) => {
                    return Err(error);
                },
            }
            ctx.changed = true;
            ctx.response.push_destroyed(document_id);
        } else {
            ctx.response.push_not_destroyed(document_id, SetError::not_found());
        }
        Ok(())
    }
}

/// What a set request answered, by its value.
pub open spec fn response_view(response: Result<SetResponse, MethodError>) -> Result<
    ResponseView,
    MethodError,
> {
    match response {
        Ok(response) => Ok(response@),
        Err(error) => Err(error),
    }
}

/// A request that failed at a creation stays where it failed.
pub proof fn lemma_created_all_stops(
    progress: Progress,
    config: Config,
    create: Seq<Creation>,
    names: Seq<String>,
    at: int,
    upto: int,
)
    requires
        at <= upto,
        created_all(progress, config, create, names, at).failed,
    ensures
        created_all(progress, config, create, names, upto) == created_all(
            progress,
            config,
            create,
            names,
            at,
        ),
    decreases upto - at,
{
    if at < upto {
        lemma_created_all_stops(progress, config, create, names, at, upto - 1);
    }
}

impl JMAP {
    /// Answers a set request, with the names to give to the scripts that it
    /// creates without one: the creation at a place gets the name at that
    /// place, or the empty name where `names` is too short.
    pub fn sieve_script_set_with(&mut self, request: &SetRequest, names: &Vec<String>) -> (response: Result<SetResponse, MethodError>)
        requires
            old(self).wf(),
        ensures
            final(self).wf(),
            final(self)@.config == old(self)@.config,
            (final(self)@.store, response_view(response)) == set_result(
                old(self)@.store,
                old(self)@.config,
                *request,
                names@,
            ),
            at_most_one_active(old(self)@.store.documents) ==> at_most_one_active(
                final(self)@.store.documents,
            ),
    {
        proof {
            if at_most_one_active(self@.store.documents) {
                lemma_set_keeps_one_active(self@.store, self@.config, *request, names@);
            }
        }
        let ghost start = begun(self@.store);
        let ghost config = self@.config;
        let mut ctx = SetContext {
            response: SetResponse::new(),
            sieve_ids: self.store.get_document_ids(),
            changed: false,
        };
        // Process creates
        let mut at: usize = 0;
        while at < request.create.len()
            invariant
                at <= request.create@.len(),
                self.wf(),
                self@.config == config,
                config == old(self)@.config,
                start == begun(old(self)@.store),
                at_most_one_active(old(self)@.store.documents) ==> at_most_one_active(
                    set_result(old(self)@.store, config, *request, names@).0.documents,
                ),
                progress_of(*self, ctx, false) == created_all(
                    start,
                    config,
                    request.create@,
                    names@,
                    at as int,
                ),
            decreases request.create@.len() - at,
        {
            let fallback_name = if at < names.len() {
                names[at].clone()
            } else {
                String::new()
            };
            assert(fallback_name@ == fallback_at(names@, at as int));
            match self.create_item(&mut ctx, &request.create[at], fallback_name) {
                Ok(_) => {},
                Err(error) => {
                    proof {
                        lemma_created_all_stops(
                            start,
                            config,
                            request.create@,
                            names@,
                            at + 1,
                            request.create@.len() as int,
                        );
                    }
                    return Err(error);
                },
            }
            at += 1;
        }
        let ghost created = progress_of(*self, ctx, false);
        // Process updates
        let mut at: usize = 0;
        while at < request.update.len()
            invariant
                at <= request.update@.len(),
                self.wf(),
                self@.config == config,
                progress_of(*self, ctx, false) == updated_all(
                    created,
                    config,
                    request.update@,
                    request.destroy@,
                    at as int,
                ),
            decreases request.update@.len() - at,
        {
            match self.update_item(&mut ctx, &request.destroy, &request.update[at]) {
                Ok(_) => {},
                Err(error) => {
                    return Err(error);
                },
            }
            at += 1;
        }
        let ghost updated = progress_of(*self, ctx, false);
        // Process deletions
        let mut at: usize = 0;
        while at < request.destroy.len()
            invariant
                at <= request.destroy@.len(),
                self.wf(),
                self@.config == config,
                progress_of(*self, ctx, false) == destroyed_all(
                    updated,
                    request.destroy@,
                    at as int,
                ),
            decreases request.destroy@.len() - at,
        {
            match self.destroy_item(&mut ctx, request.destroy[at]) {
                Ok(_) => {},
                Err(error) => {
                    return Err(error);
                },
            }
            at += 1;
        }
        let ghost destroyed = progress_of(*self, ctx, false);
        // Write changes
        if ctx.changed {
            let state = self.store.commit_changes();
            ctx.response.new_state = Some(state);
            assert(ctx.response@.created =~= destroyed.response.created);
            assert(ctx.response@.not_created =~= destroyed.response.not_created);
            assert(ctx.response@.not_updated =~= destroyed.response.not_updated);
            assert(ctx.response@.not_destroyed =~= destroyed.response.not_destroyed);
        }
        assert(progress_of(*self, ctx, false) == committed(destroyed));
        let ghost ready = progress_of(*self, ctx, false);
        // Activate / deactivate scripts
        let asked = match &request.on_success_activate_script {
            Some(_) => true,
            None => match request.on_success_deactivate_script {
                Some(deactivate) => deactivate,
                None => false,
            },
        };
        assert(asked == (request.on_success_activate_script is Some
            || request.on_success_deactivate_script == Some(true)));
        if ctx.response.is_clean() && asked {
            let target: Option<Option<u32>> = match &request.on_success_activate_script {
                Some(MaybeReference::Value(id)) => Some(Some(*id)),
                Some(MaybeReference::Reference(reference)) => match ctx.response.get_id(
                    reference,
                ) {
                    Some(id) => Some(Some(id)),
                    None => None,
                },
                None => Some(None),
            };
            assert(target == activation_target(ready.response, request.on_success_activate_script));
            match target {
                Some(activate_id) => {
                    let changed_ids = match self.sieve_activate_script(activate_id) {
                        Ok(changed_ids) => changed_ids,
                        Err(error) => {
                            return Err(error);
                        },
                    };
                    let mut at: usize = 0;
                    assert(changed_ids@.take(0) =~= Seq::<(u32, bool)>::empty());
                    while at < changed_ids.len()
                        invariant
                            at <= changed_ids@.len(),
                            ctx.response@ == decorated(ready.response, changed_ids@.take(at as int)),
                        decreases changed_ids@.len() - at,
                    {
                        assert(changed_ids@.take(at + 1).drop_last() =~= changed_ids@.take(
                            at as int,
                        ));
                        assert(changed_ids@.take(at + 1).last() == changed_ids@[at as int]);
                        let (document_id, is_active) = changed_ids[at];
                        ctx.response.mark(document_id, is_active);
                        at += 1;
                    }
                    assert(changed_ids@.take(at as int) =~= changed_ids@);
                },
                None => {},
            }
        }
        Ok(ctx.response)
    }

    /// Answers a set request. A script that is created without a name gets a
    /// random one, of `RANDOM_NAME_LENGTH` letters and digits; with the
    /// names that were drawn, the request does what `set_result` says.
    pub fn sieve_script_set(&mut self, request: &SetRequest) -> (response: Result<SetResponse, MethodError>)
        requires
            old(self).wf(),
        ensures
            final(self).wf(),
            final(self)@.config == old(self)@.config,
            exists|names: Seq<String>|
                names.len() == request.create@.len() && (forall|i: int|
                    0 <= i < names.len() ==> is_random_name(
                        (#[trigger] names[i])@,
                        RANDOM_NAME_LENGTH,
                    )) && #[trigger] set_result(
                    old(self)@.store,
                    old(self)@.config,
                    *request,
                    names,
                ) == (final(self)@.store, response_view(response)),
            at_most_one_active(old(self)@.store.documents) ==> at_most_one_active(
                final(self)@.store.documents,
            ),
    {
        let mut names: Vec<String> = Vec::new();
        let mut at: usize = 0;
        while at < request.create.len()
            invariant
                at <= request.create@.len(),
                names@.len() == at,
                forall|i: int|
                    0 <= i < names@.len() ==> is_random_name(
                        (#[trigger] names@[i])@,
                        RANDOM_NAME_LENGTH,
                    ),
            decreases request.create@.len() - at,
        {
            names.push(random_name(RANDOM_NAME_LENGTH));
            at += 1;
        }
        self.sieve_script_set_with(request, &names)
    }
}

} // verus!
