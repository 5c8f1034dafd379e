//! A set request and its response.
use vstd::prelude::*;
use crate::sieve::object::{BlobId, Change, SetError, SetErrorView};

verus! {

/// An identifier, or a reference to an object that the same request creates.
#[derive(Debug, PartialEq, Eq)]
pub enum MaybeReference {
    Value(u32),
    Reference(String),
}

/// One object to create, under the name that the request calls it by.
#[derive(Debug)]
pub struct Creation {
    pub id: String,
    pub object: Vec<Change>,
}

/// One object to update.
#[derive(Debug)]
pub struct Update {
    pub id: u32,
    pub object: Vec<Change>,
}

/// A set request: the scripts to create, to update and to destroy, and the
/// script to leave active where all of that goes through.
#[derive(Debug)]
pub struct SetRequest {
    pub create: Vec<Creation>,
    pub update: Vec<Update>,
    pub destroy: Vec<u32>,
    pub on_success_activate_script: Option<MaybeReference>,
    pub on_success_deactivate_script: Option<bool>,
}

/// A created script as the response shows it.
#[derive(Debug, PartialEq, Eq)]
pub struct Created {
    pub creation_id: String,
    pub id: u32,
    pub blob_id: BlobId,
    /// The script's new state, where the request's activation changed it.
    pub is_active: Option<bool>,
}

/// The mathematical value of a `Created`.
pub ghost struct CreatedView {
    pub creation_id: Seq<char>,
    pub id: u32,
    pub blob_id: BlobId,
    pub is_active: Option<bool>,
}

impl View for Created {
    type V = CreatedView;

    open spec fn view(&self) -> CreatedView {
        CreatedView {
            creation_id: self.creation_id@,
            id: self.id,
            blob_id: self.blob_id,
            is_active: self.is_active,
        }
    }
}

/// An updated script as the response shows it.
#[derive(Clone, Copy, Debug, PartialEq, Eq, Structural)]
pub struct Updated {
    pub id: u32,
    /// The script's new blob, where the update gave it one.
    pub blob_id: Option<BlobId>,
    /// The script's new state, where the request's activation changed it.
    pub is_active: Option<bool>,
}

/// A script that was not created, with the reason.
#[derive(Debug, PartialEq, Eq)]
pub struct NotCreated {
    pub creation_id: String,
    pub error: SetError,
}

/// A script that was not updated or not destroyed, with the reason.
#[derive(Debug, PartialEq, Eq)]
pub struct NotDone {
    pub id: u32,
    pub error: SetError,
}

/// The response to a set request.
#[derive(Debug, PartialEq, Eq)]
pub struct SetResponse {
    pub created: Vec<Created>,
    pub updated: Vec<Updated>,
    pub destroyed: Vec<u32>,
    pub not_created: Vec<NotCreated>,
    pub not_updated: Vec<NotDone>,
    pub not_destroyed: Vec<NotDone>,
    /// The state after the request's changes, where it made any.
    pub new_state: Option<u64>,
}

/// The mathematical value of a `SetResponse`.
pub ghost struct ResponseView {
    pub created: Seq<CreatedView>,
    pub updated: Seq<Updated>,
    pub destroyed: Seq<u32>,
    pub not_created: Seq<(Seq<char>, SetErrorView)>,
    pub not_updated: Seq<(u32, SetErrorView)>,
    pub not_destroyed: Seq<(u32, SetErrorView)>,
    pub new_state: Option<u64>,
}

impl View for SetResponse {
    type V = ResponseView;

    open spec fn view(&self) -> ResponseView {
        ResponseView {
            created: Seq::new(self.created@.len(), |i: int| self.created@[i]@),
            updated: self.updated@,
            destroyed: self.destroyed@,
            not_created: Seq::new(
                self.not_created@.len(),
                |i: int| (self.not_created@[i].creation_id@, self.not_created@[i].error@),
            ),
            not_updated: Seq::new(
                self.not_updated@.len(),
                |i: int| (self.not_updated@[i].id, self.not_updated@[i].error@),
            ),
            not_destroyed: Seq::new(
                self.not_destroyed@.len(),
                |i: int| (self.not_destroyed@[i].id, self.not_destroyed@[i].error@),
            ),
            new_state: self.new_state,
        }
    }
}

/// The response that says nothing yet.
pub open spec fn empty_response() -> ResponseView {
    ResponseView {
        created: Seq::empty(),
        updated: Seq::empty(),
        destroyed: Seq::empty(),
        not_created: Seq::empty(),
        not_updated: Seq::empty(),
        not_destroyed: Seq::empty(),
        new_state: None,
    }
}

/// The identifier of the script that the request created under the name, the
/// first if there are several.
pub open spec fn created_id(created: Seq<CreatedView>, reference: Seq<char>) -> Option<u32>
    decreases created.len(),
{
    if created.len() == 0 {
        None
    } else if created[0].creation_id == reference {
        Some(created[0].id)
    } else {
        created_id(created.drop_first(), reference)
    }
}

/// A created script with its new state, where it is the script that changed.
pub open spec fn marked_created(created: CreatedView, id: u32, is_active: bool) -> CreatedView {
    if created.id == id {
        CreatedView { is_active: Some(is_active), ..created }
    } else {
        created
    }
}

/// An updated script with its new state, where it is the script that
/// changed.
pub open spec fn marked_updated(updated: Updated, id: u32, is_active: bool) -> Updated {
    if updated.id == id {
        Updated { is_active: Some(is_active), ..updated }
    } else {
        updated
    }
}

/// The response with the new state of one script, on every created and
/// updated object of that script.
pub open spec fn marked(response: ResponseView, id: u32, is_active: bool) -> ResponseView {
    ResponseView {
        created: Seq::new(
            response.created.len(),
            |i: int| marked_created(response.created[i], id, is_active),
        ),
        updated: Seq::new(
            response.updated.len(),
            |i: int| marked_updated(response.updated[i], id, is_active),
        ),
        ..response
    }
}

/// The response with the new states of the scripts that an activation
/// changed, one after the other.
pub open spec fn decorated(response: ResponseView, changes: Seq<(u32, bool)>) -> ResponseView
    decreases changes.len(),
{
    if changes.len() == 0 {
        response
    } else {
        marked(decorated(response, changes.drop_last()), changes.last().0, changes.last().1)
    }
}

impl SetResponse {
    /// The response that says nothing yet.
    pub fn new() -> (response: SetResponse)
        ensures
            response@ == empty_response(),
    {
        let response = SetResponse {
            created: Vec::new(),
            updated: Vec::new(),
            destroyed: Vec::new(),
            not_created: Vec::new(),
            not_updated: Vec::new(),
            not_destroyed: Vec::new(),
            new_state: None,
        };
        assert(response@.created =~= Seq::empty());
        assert(response@.not_created =~= Seq::empty());
        assert(response@.not_updated =~= Seq::empty());
        assert(response@.not_destroyed =~= Seq::empty());
        response
    }

    /// Whether nothing was turned down.
    pub fn is_clean(&self) -> (clean: bool)
        ensures
            clean == (self@.not_created.len() == 0 && self@.not_updated.len() == 0
                && self@.not_destroyed.len() == 0),
    {
        self.not_created.len() == 0 && self.not_updated.len() == 0 && self.not_destroyed.len() == 0
    }

    /// Notes a created script.
    pub fn push_created(&mut self, created: Created)
        ensures
            final(self)@ == (ResponseView {
                created: old(self)@.created.push(created@),
                ..old(self)@
            }),
    {
        self.created.push(created);
        assert(self@.created =~= old(self)@.created.push(created@));
        assert(self@.not_created =~= old(self)@.not_created);
        assert(self@.not_updated =~= old(self)@.not_updated);
        assert(self@.not_destroyed =~= old(self)@.not_destroyed);
    }

    /// Notes an updated script.
    pub fn push_updated(&mut self, updated: Updated)
        ensures
            final(self)@ == (ResponseView {
                updated: old(self)@.updated.push(updated),
                ..old(self)@
            }),
    {
        self.updated.push(updated);
        assert(self@.created =~= old(self)@.created);
        assert(self@.not_created =~= old(self)@.not_created);
        assert(self@.not_updated =~= old(self)@.not_updated);
        assert(self@.not_destroyed =~= old(self)@.not_destroyed);
    }

    /// Notes a destroyed script.
    pub fn push_destroyed(&mut self, id: u32)
        ensures
            final(self)@ == (ResponseView {
                destroyed: old(self)@.destroyed.push(id),
                ..old(self)@
            }),
    {
        self.destroyed.push(id);
        assert(self@.created =~= old(self)@.created);
        assert(self@.not_created =~= old(self)@.not_created);
        assert(self@.not_updated =~= old(self)@.not_updated);
        assert(self@.not_destroyed =~= old(self)@.not_destroyed);
    }

    /// Notes a script that was not created.
    pub fn push_not_created(&mut self, creation_id: String, error: SetError)
        ensures
            final(self)@ == (ResponseView {
                not_created: old(self)@.not_created.push((creation_id@, error@)),
                ..old(self)@
            }),
    {
        self.not_created.push(NotCreated { creation_id, error });
        assert(self@.created =~= old(self)@.created);
        assert(self@.not_created =~= old(self)@.not_created.push((creation_id@, error@)));
        assert(self@.not_updated =~= old(self)@.not_updated);
        assert(self@.not_destroyed =~= old(self)@.not_destroyed);
    }

    /// Notes a script that was not updated.
    pub fn push_not_updated(&mut self, id: u32, error: SetError)
        ensures
            final(self)@ == (ResponseView {
                not_updated: old(self)@.not_updated.push((id, error@)),
                ..old(self)@
            }),
    {
        self.not_updated.push(NotDone { id, error });
        assert(self@.created =~= old(self)@.created);
        assert(self@.not_created =~= old(self)@.not_created);
        assert(self@.not_updated =~= old(self)@.not_updated.push((id, error@)));
        assert(self@.not_destroyed =~= old(self)@.not_destroyed);
    }

    /// Notes a script that was not destroyed.
    pub fn push_not_destroyed(&mut self, id: u32, error: SetError)
        ensures
            final(self)@ == (ResponseView {
                not_destroyed: old(self)@.not_destroyed.push((id, error@)),
                ..old(self)@
            }),
    {
        self.not_destroyed.push(NotDone { id, error });
        assert(self@.created =~= old(self)@.created);
        assert(self@.not_created =~= old(self)@.not_created);
        assert(self@.not_updated =~= old(self)@.not_updated);
        assert(self@.not_destroyed =~= old(self)@.not_destroyed.push((id, error@)));
    }

    /// The identifier of the script that the request created under the name.
    pub fn get_id(&self, reference: &String) -> (id: Option<u32>)
        ensures
            id == created_id(self@.created, reference@),
    {
        let ghost created = self@.created;
        let mut at: usize = 0;
        assert(created.skip(0) =~= created);
        while at < self.created.len()
            invariant
                at <= self.created@.len(),
                created == self@.created,
                created_id(created, reference@) == created_id(created.skip(at as int), reference@),
            decreases self.created@.len() - at,
        {
            assert(created[at as int] == self.created@[at as int]@);
            assert(created.skip(at as int)[0] == created[at as int]);
            assert(created.skip(at as int).drop_first() =~= created.skip(at + 1));
            if self.created[at].creation_id == *reference {
                return Some(self.created[at].id);
            }
            at += 1;
        }
        assert(created.skip(at as int).len() == 0);
        None
    }

    /// Writes the new state of one script on every created and updated
    /// object of that script.
    pub fn mark(&mut self, id: u32, is_active: bool)
        ensures
            final(self)@ == marked(old(self)@, id, is_active),
    {
        let ghost before = self@;
        let mut at: usize = 0;
        while at < self.created.len()
            invariant
                at <= self.created@.len(),
                self@.created.len() == before.created.len(),
                forall|i: int|
                    0 <= i < at ==> #[trigger] self@.created[i] == marked_created(
                        before.created[i],
                        id,
                        is_active,
                    ),
                forall|i: int|
                    at <= i < before.created.len() ==> #[trigger] self@.created[i]
                        == before.created[i],
                self.updated == old(self).updated,
                self.destroyed == old(self).destroyed,
                self.not_created == old(self).not_created,
                self.not_updated == old(self).not_updated,
                self.not_destroyed == old(self).not_destroyed,
                self.new_state == old(self).new_state,
            decreases self.created@.len() - at,
        {
            let ghost current = self@.created;
            assert(current[at as int] == self.created@[at as int]@);
            if self.created[at].id == id {
                let mut created = self.created.remove(at);
                created.is_active = Some(is_active);
                self.created.insert(at, created);
                assert forall|i: int| 0 <= i < before.created.len() && i != at implies #[trigger] self@.created[i]
                    == current[i] by {}
            }
            at += 1;
        }
        let ghost kept = self.created;
        let mut at: usize = 0;
        while at < self.updated.len()
            invariant
                at <= self.updated@.len(),
                self@.updated.len() == before.updated.len(),
                forall|i: int|
                    0 <= i < at ==> #[trigger] self@.updated[i] == marked_updated(
                        before.updated[i],
                        id,
                        is_active,
                    ),
                forall|i: int|
                    at <= i < before.updated.len() ==> #[trigger] self@.updated[i]
                        == before.updated[i],
                self.created == kept,
                self.destroyed == old(self).destroyed,
                self.not_created == old(self).not_created,
                self.not_updated == old(self).not_updated,
                self.not_destroyed == old(self).not_destroyed,
                self.new_state == old(self).new_state,
            decreases self.updated@.len() - at,
        {
            let updated = self.updated[at];
            if updated.id == id {
                self.updated.set(
                    at,
                    Updated { id: updated.id, blob_id: updated.blob_id, is_active: Some(is_active) },
                );
            }
            at += 1;
        }
        assert(self@.created =~= marked(before, id, is_active).created);
        assert(self@.updated =~= marked(before, id, is_active).updated);
        assert(self@.not_created =~= before.not_created);
        assert(self@.not_updated =~= before.not_updated);
        assert(self@.not_destroyed =~= before.not_destroyed);
    }
}

} // verus!
