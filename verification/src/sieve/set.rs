//! The manager of an account's Sieve scripts: what a set request creates,
//! updates and destroys, and which script it leaves active.
//!
//! The manager works on the store of this library, which keeps the scripts
//! in memory and never fails but for a value that is no longer the stored
//! one. A request reads and commits in one call, so within it no other
//! writer comes between; the arms that answer a failure of the store are
//! there for the store's contract, not because this store takes them. The
//! functions that commit under values read earlier (`update_script`,
//! `sieve_activation_commit`) are where a second writer can be put between
//! the reading and the writing.
use vstd::prelude::*;
use crate::sieve::activate::{
    activated, activation, activation_batch, activation_committed, activation_is_idle,
    deactivation, deactivations, has_active, lemma_activation_batch, lemma_active_ids,
    lemma_is_active,
};
use crate::sieve::object::{
    changes_view, BlobId, BlobKind, Change, Collection, MethodError, Property, SetError,
    SetErrorView,
};
use crate::sieve::store::{
    active_ids, applied, batch_view, lemma_position_of,
    without_blob, Operation, OperationView, Script, ScriptView, Store,
    StoreError, StoreView,
};
use crate::sieve::steps::{contains_id, lemma_single_operation};
use crate::sieve::validate::{
    compile_blob, is_vacation_name, parse_changes, validated, Config, Parsed,
};

verus! {

/// What an activation is to change, with the values it read: the batch to
/// commit, and the identifiers that the batch changes, each with its new
/// state.
#[derive(Debug)]
pub struct ActivationPlan {
    pub batch: Vec<Operation>,
    pub changed_ids: Vec<(u32, bool)>,
}

/// The manager of one account's Sieve scripts: its limits and its store.
pub struct JMAP {
    pub config: Config,
    pub store: Store,
}

/// The mathematical value of a `JMAP`.
pub ghost struct ManagerView {
    pub config: Config,
    pub store: StoreView,
}

impl View for JMAP {
    type V = ManagerView;

    open spec fn view(&self) -> ManagerView {
        ManagerView { config: self.config, store: self.store@ }
    }
}

/// The script that is updated, by its value.
pub open spec fn update_view(update: Option<(u32, Script)>) -> Option<(u32, ScriptView)> {
    match update {
        Some((id, script)) => Some((id, script@)),
        None => None,
    }
}

/// What a validation gave, by its value.
pub open spec fn item_view(item: Result<(Script, Option<Vec<u8>>), SetError>) -> Result<
    (ScriptView, Option<Seq<u8>>),
    SetErrorView,
> {
    match item {
        Ok((script, Some(blob))) => Ok((script@, Some(blob@))),
        Ok((script, None)) => Ok((script@, None)),
        Err(error) => Err(error@),
    }
}

/// The changes that an activation answers, by their value.
pub open spec fn changes_of(changed: Result<Vec<(u32, bool)>, MethodError>) -> Seq<(u32, bool)> {
    match changed {
        Ok(ids) => ids@,
        Err(_) => Seq::empty(),
    }
}

/// The store with other documents.
pub open spec fn with_documents(store: StoreView, documents: Seq<crate::sieve::store::DocumentView>) -> StoreView {
    StoreView { documents, ..store }
}

/// The store after a script was deleted: its document and its blob are gone.
pub open spec fn deleted(store: StoreView, document_id: u32) -> StoreView {
    StoreView {
        documents: applied(store.documents, OperationView::Delete { document_id }),
        blobs: without_blob(
            store.blobs,
            BlobKind::Linked {
                account_id: store.account_id,
                collection: Collection::SieveScript,
                document_id,
            },
        ),
        ..store
    }
}

impl JMAP {
    /// The manager's invariant: that of its store.
    pub open spec fn wf(&self) -> bool {
        self.store.wf()
    }

    /// A manager with the limits, over the store.
    pub fn new(config: Config, store: Store) -> (manager: JMAP)
        ensures
            manager.config == config,
            manager.store == store,
    {
        JMAP { config, store }
    }

    /// Holds a created or updated script to the rules and answers the script
    /// to store with its new blob, if it gets one, or the error of the
    /// request. `update` is the identifier and the value of the script that
    /// is updated; without it a script is created, and named `fallback_name`
    /// where the request names none.
    pub fn sieve_set_item(&self, changes: &Vec<Change>, update: &Option<(u32, Script)>, fallback_name: String) -> (item: Result<(Script, Option<Vec<u8>>), SetError>)
        ensures
            item_view(item) == validated(
                self@.store,
                self@.config,
                changes_view(changes@),
                update_view(*update),
                fallback_name@,
            ),
    {
        let current_name: Option<String> = match update {
            Some((_, current)) => Some(current.name.clone()),
            None => None,
        };
        match update {
            Some((_, current)) => {
                if is_vacation_name(current.name.as_str()) {
                    return Err(
                        SetError::forbidden().with_description(
                            "The 'vacation' script cannot be modified, use VacationResponse/set instead.",
                        ),
                    );
                }
            },
            None => {},
        }
        let parsed = match parse_changes(&self.store, &self.config, &current_name, changes) {
            Ok(parsed) => parsed,
            Err(error) => {
                return Err(error);
            },
        };
        let Parsed { name: parsed_name, blob_id } = parsed;
        let name: String = match (update, parsed_name) {
            (Some(_), Some(name)) => name,
            (Some((_, current)), None) => current.name.clone(),
            (None, Some(name)) => if name.as_str().unicode_len() > 0 {
                name
            } else {
                fallback_name
            },
            (None, None) => fallback_name,
        };
        let (is_active, blob_size) = match update {
            Some((_, current)) => (current.is_active, current.blob_size),
            None => (false, 0),
        };
        match blob_id {
            Some(blob_id) => {
                let own = match update {
                    Some((document_id, _)) => blob_id.kind.is_document(
                        self.store.account_id(),
                        Collection::SieveScript,
                        *document_id,
                    ),
                    None => false,
                };
                if own {
                    Ok((Script { name, is_active, blob_size }, None))
                } else {
                    match compile_blob(&self.store, &self.config, &blob_id) {
                        Ok((blob_size, blob)) => Ok(
                            (Script { name, is_active, blob_size }, Some(blob)),
                        ),
                        Err(error) => Err(error),
                    }
                }
            },
            None => {
                if update.is_none() {
                    Err(
                        SetError::invalid_properties().with_property(
                            Property::BlobId,
                        ).with_description("Missing blobId."),
                    )
                } else {
                    Ok((Script { name, is_active, blob_size }, None))
                }
            },
        }
    }

    /// Deletes a script: its document is taken out, then its blob.
    pub fn sieve_script_delete(&mut self, document_id: u32) -> (done: Result<(), MethodError>)
        requires
            old(self).wf(),
        ensures
            final(self).wf(),
            done is Ok,
            final(self)@.config == old(self)@.config,
            final(self)@.store == deleted(old(self)@.store, document_id),
    {
        let ghost before = self@.store;
        let mut batch: Vec<Operation> = Vec::new();
        batch.push(Operation::Delete { document_id });
        proof {
            lemma_single_operation(before.documents, batch_view(batch@));
        }
        match self.store.write(&batch) {
            Ok(_) => {},
            Err(_) => {
                return Err(MethodError::ServerPartialFail);
            },
        }
        let account_id = self.store.account_id();
        self.store.delete_blob(
            &BlobKind::Linked { account_id, collection: Collection::SieveScript, document_id },
        );
        Ok(())
    }

    /// Reads what an activation needs: the active scripts and the script to
    /// activate, each with its stored value, and makes the batch that
    /// changes them under those values. The plan is empty where the script
    /// is active already and where there is no such script.
    pub fn sieve_activation_plan(&self, activate_id: Option<u32>) -> (plan: ActivationPlan)
        requires
            self.wf(),
        ensures
            plan.changed_ids@ == activated(self@.store.documents, activate_id).1,
            batch_view(plan.batch@) == (if activation_is_idle(self@.store.documents, activate_id) {
                Seq::<OperationView>::empty()
            } else {
                activation_batch(self@.store.documents, activate_id)
            }),
    {
        let ghost documents = self@.store.documents;
        let ghost active = active_ids(documents);
        let mut changed_ids: Vec<(u32, bool)> = Vec::new();
        let mut batch: Vec<Operation> = Vec::new();
        assert(batch_view(batch@) =~= Seq::<OperationView>::empty());
        // Find the currently active script
        let active_now = self.store.filter_active();
        proof {
            lemma_active_ids(documents);
        }
        // Check if script is already active, and whether there is such a script
        let target = match activate_id {
            Some(id) => {
                proof {
                    lemma_is_active(documents, id);
                }
                if contains_id(&active_now, id) {
                    return ActivationPlan { batch, changed_ids };
                }
                match self.store.get_value(id) {
                    Some(sieve) => Some((id, sieve)),
                    None => {
                        return ActivationPlan { batch, changed_ids };
                    },
                }
            },
            None => None,
        };
        assert(!activation_is_idle(documents, activate_id));
        // Deactivate scripts
        let mut at: usize = 0;
        assert(batch_view(batch@) =~= deactivations(documents).take(0));
        while at < active_now.len()
            invariant
                at <= active_now@.len(),
                self.wf(),
                active_now@ == active,
                active == active_ids(documents),
                documents == self@.store.documents,
                forall|k: int| 0 <= k < active.len() ==> has_active(documents, #[trigger] active[k]),
                batch@.len() == at,
                batch_view(batch@) == deactivations(documents).take(at as int),
                changed_ids@ == Seq::new(at as nat, |k: int| (active[k], false)),
            decreases active_now@.len() - at,
        {
            let document_id = active_now[at];
            assert(has_active(documents, active[at as int]));
            proof {
                lemma_position_of(documents, document_id);
            }
            match self.store.get_value(document_id) {
                Some(sieve) => {
                    let value = Script {
                        name: sieve.name.clone(),
                        is_active: false,
                        blob_size: sieve.blob_size,
                    };
                    batch.push(
                        Operation::Update {
                            document_id,
                            assert_value: sieve,
                            value,
                            clear_email_ids: true,
                        },
                    );
                    changed_ids.push((document_id, false));
                    assert(batch@[at as int]@ == deactivation(documents, document_id));
                },
                None => {
                    assert(false);
                },
            }
            assert(deactivations(documents)[at as int] == deactivation(documents, document_id));
            assert(batch_view(batch@) =~= deactivations(documents).take(at + 1)) by {
                let now = batch_view(batch@);
                let goal = deactivations(documents).take(at + 1);
                assert(now.len() == goal.len());
                assert forall|k: int| 0 <= k < now.len() implies now[k] == goal[k] by {
                    if k < at {
                        assert(now[k] == deactivations(documents).take(at as int)[k]);
                    }
                }
            }
            assert(changed_ids@ =~= Seq::new((at + 1) as nat, |k: int| (active[k], false)));
            at += 1;
        }
        assert(deactivations(documents).take(at as int) =~= deactivations(documents));
        // Activate script
        match target {
            Some((document_id, sieve)) => {
                let value = Script {
                    name: sieve.name.clone(),
                    is_active: true,
                    blob_size: sieve.blob_size,
                };
                batch.push(
                    Operation::Update {
                        document_id,
                        assert_value: sieve,
                        value,
                        clear_email_ids: false,
                    },
                );
                changed_ids.push((document_id, true));
                assert(batch_view(batch@) =~= deactivations(documents).push(
                    activation(documents, document_id),
                ));
            },
            None => {},
        }
        assert(batch_view(batch@) == activation_batch(documents, activate_id));
        assert(changed_ids@ =~= activated(documents, activate_id).1);
        ActivationPlan { batch, changed_ids }
    }

    /// Commits an activation under the values that its plan read. Where a
    /// script of the plan was changed by another writer since, nothing is
    /// changed and no change is answered; the caller may try again.
    pub fn sieve_activation_commit(&mut self, plan: ActivationPlan) -> (changed: Result<Vec<(u32, bool)>, MethodError>)
        requires
            old(self).wf(),
        ensures
            final(self).wf(),
            changed is Ok,
            final(self)@.config == old(self)@.config,
            final(self)@.store == with_documents(
                old(self)@.store,
                activation_committed(
                    old(self)@.store.documents,
                    batch_view(plan.batch@),
                    plan.changed_ids@,
                ).0,
            ),
            changes_of(changed) == activation_committed(
                old(self)@.store.documents,
                batch_view(plan.batch@),
                plan.changed_ids@,
            ).1,
    {
        let ActivationPlan { batch, changed_ids } = plan;
        // Write changes
        if changed_ids.len() > 0 {
            match self.store.write(&batch) {
                Ok(_) => {},
                Err(StoreError::AssertValueFailed) => {
                    return Ok(Vec::new());
                },
                Err(_) => {
                    return Err(MethodError::ServerPartialFail);
                },
            }
            Ok(changed_ids)
        } else {
            Ok(changed_ids)
        }
    }

    /// Makes `activate_id` the one active script, or every script inactive
    /// where it is `None`, and answers the identifiers that changed, each
    /// with its new state. Nothing changes where the script is active
    /// already, and nothing changes where there is no such script.
    pub fn sieve_activate_script(&mut self, activate_id: Option<u32>) -> (changed: Result<Vec<(u32, bool)>, MethodError>)
        requires
            old(self).wf(),
        ensures
            final(self).wf(),
            changed is Ok,
            changes_of(changed) == activated(old(self)@.store.documents, activate_id).1,
            final(self)@.config == old(self)@.config,
            final(self)@.store == with_documents(
                old(self)@.store,
                activated(old(self)@.store.documents, activate_id).0,
            ),
    {
        let ghost documents = self@.store.documents;
        let plan = self.sieve_activation_plan(activate_id);
        proof {
            if !activation_is_idle(documents, activate_id) {
                lemma_activation_batch(documents, activate_id);
                if plan.changed_ids@.len() == 0 {
                    assert(activation_batch(documents, activate_id).len() == 0);
                    assert(activated(documents, activate_id).0 == documents);
                }
            }
        }
        self.sieve_activation_commit(plan)
    }
}

} // verus!
