//! The plain values of the Sieve management interface: blob identifiers,
//! properties and their values, and the errors of a set request.
use vstd::prelude::*;

verus! {

/// The collection that a document belongs to.
#[derive(Clone, Copy, Debug, PartialEq, Eq, Structural)]
pub enum Collection {
    Email,
    Mailbox,
    SieveScript,
}

/// What a blob is: the blob of a document, named by the account, the
/// collection and the document, or an upload that waits to be used.
#[derive(Clone, Copy, Debug, PartialEq, Eq, Structural)]
pub enum BlobKind {
    Linked { account_id: u32, collection: Collection, document_id: u32 },
    Temporary { account_id: u32, upload_id: u64 },
}

impl BlobKind {
    /// The account that owns the blob.
    pub open spec fn owner(self) -> u32 {
        match self {
            BlobKind::Linked { account_id, .. } => account_id,
            BlobKind::Temporary { account_id, .. } => account_id,
        }
    }

    /// The account that owns the blob.
    pub fn account_id(&self) -> (id: u32)
        ensures
            id == self.owner(),
    {
        match self {
            BlobKind::Linked { account_id, .. } => *account_id,
            BlobKind::Temporary { account_id, .. } => *account_id,
        }
    }

    /// Whether this is the blob of the given document.
    pub fn is_document(&self, account_id: u32, collection: Collection, document_id: u32) -> (same: bool)
        ensures
            same == (*self == BlobKind::Linked { account_id, collection, document_id }),
    {
        match self {
            BlobKind::Linked { account_id: a, collection: c, document_id: d } => *a == account_id
                && *c == collection && *d == document_id,
            BlobKind::Temporary { .. } => false,
        }
    }
}

/// The identifier of a blob, with the size of its leading section where that
/// is known.
#[derive(Clone, Copy, Debug, PartialEq, Eq, Structural)]
pub struct BlobId {
    pub kind: BlobKind,
    pub section_size: Option<usize>,
}

impl BlobId {
    /// The identifier of the blob of a document.
    pub fn linked(account_id: u32, collection: Collection, document_id: u32) -> (id: BlobId)
        ensures
            id == (BlobId {
                kind: BlobKind::Linked { account_id, collection, document_id },
                section_size: None,
            }),
    {
        BlobId { kind: BlobKind::Linked { account_id, collection, document_id }, section_size: None }
    }

    /// The identifier of an upload.
    pub fn temporary(account_id: u32, upload_id: u64) -> (id: BlobId)
        ensures
            id == (BlobId { kind: BlobKind::Temporary { account_id, upload_id }, section_size: None }),
    {
        BlobId { kind: BlobKind::Temporary { account_id, upload_id }, section_size: None }
    }

    /// The same identifier with the size of the leading section set.
    pub fn with_section_size(self, size: usize) -> (id: BlobId)
        ensures
            id == (BlobId { kind: self.kind, section_size: Some(size) }),
    {
        BlobId { kind: self.kind, section_size: Some(size) }
    }
}

/// A property of a Sieve script object.
#[derive(Clone, Copy, Debug, PartialEq, Eq, Structural)]
pub enum Property {
    Id,
    Name,
    BlobId,
    IsActive,
    Value,
    EmailIds,
}

/// The value that a set request gives to a property.
#[derive(Debug, PartialEq, Eq)]
pub enum Value {
    Text(String),
    BlobId(BlobId),
    Bool(bool),
    UnsignedInt(u64),
    Id(u32),
    Null,
}

/// The mathematical value of a `Value`.
pub ghost enum ValueView {
    Text(Seq<char>),
    BlobId(BlobId),
    Bool(bool),
    UnsignedInt(u64),
    Id(u32),
    Null,
}

impl View for Value {
    type V = ValueView;

    open spec fn view(&self) -> ValueView {
        match self {
            Value::Text(text) => ValueView::Text(text@),
            Value::BlobId(id) => ValueView::BlobId(*id),
            Value::Bool(b) => ValueView::Bool(*b),
            Value::UnsignedInt(n) => ValueView::UnsignedInt(*n),
            Value::Id(id) => ValueView::Id(*id),
            Value::Null => ValueView::Null,
        }
    }
}

/// One property of a set request with the value it is given.
#[derive(Debug, PartialEq, Eq)]
pub struct Change {
    pub property: Property,
    pub value: Value,
}

/// The mathematical value of a `Change`.
pub ghost struct ChangeView {
    pub property: Property,
    pub value: ValueView,
}

impl View for Change {
    type V = ChangeView;

    open spec fn view(&self) -> ChangeView {
        ChangeView { property: self.property, value: self.value@ }
    }
}

/// The changes of a list, each by its value.
pub open spec fn changes_view(changes: Seq<Change>) -> Seq<ChangeView> {
    Seq::new(changes.len(), |i: int| changes[i]@)
}

/// Why one object of a set request was turned down.
#[derive(Clone, Copy, Debug, PartialEq, Eq, Structural)]
pub enum SetErrorType {
    OverQuota,
    WillDestroy,
    NotFound,
    ScriptIsActive,
    Forbidden,
    InvalidProperties,
    AlreadyExists,
    TooLarge,
    InvalidScript,
    BlobNotFound,
}

/// The error of one object of a set request.
#[derive(Debug, PartialEq, Eq)]
pub struct SetError {
    pub type_: SetErrorType,
    pub description: Option<String>,
    pub property: Option<Property>,
    pub existing_id: Option<u32>,
}

/// The mathematical value of a `SetError`.
pub ghost struct SetErrorView {
    pub type_: SetErrorType,
    pub description: Option<Seq<char>>,
    pub property: Option<Property>,
    pub existing_id: Option<u32>,
}

impl View for SetError {
    type V = SetErrorView;

    open spec fn view(&self) -> SetErrorView {
        SetErrorView {
            type_: self.type_,
            description: match self.description {
                Some(text) => Some(text@),
                None => None,
            },
            property: self.property,
            existing_id: self.existing_id,
        }
    }
}

/// An error of the given type with nothing else said.
pub open spec fn set_error(type_: SetErrorType) -> SetErrorView {
    SetErrorView { type_, description: None, property: None, existing_id: None }
}

impl SetErrorView {
    pub open spec fn described(self, text: Seq<char>) -> SetErrorView {
        SetErrorView { description: Some(text), ..self }
    }

    pub open spec fn about(self, property: Property) -> SetErrorView {
        SetErrorView { property: Some(property), ..self }
    }

    pub open spec fn existing(self, id: u32) -> SetErrorView {
        SetErrorView { existing_id: Some(id), ..self }
    }
}

/// The error of an identifier that the same request destroys.
pub open spec fn will_destroy_error() -> SetErrorView {
    set_error(SetErrorType::WillDestroy).described("ID will be destroyed."@)
}

/// The error of an identifier that names nothing.
pub open spec fn not_found_error() -> SetErrorView {
    set_error(SetErrorType::NotFound).described("ID not found."@)
}

impl SetError {
    pub fn new(type_: SetErrorType) -> (error: SetError)
        ensures
            error@ == set_error(type_),
    {
        SetError { type_, description: None, property: None, existing_id: None }
    }

    pub fn with_description(self, text: &str) -> (error: SetError)
        ensures
            error@ == self@.described(text@),
    {
        SetError {
            type_: self.type_,
            description: Some(String::from_str(text)),
            property: self.property,
            existing_id: self.existing_id,
        }
    }

    pub fn with_property(self, property: Property) -> (error: SetError)
        ensures
            error@ == self@.about(property),
    {
        SetError {
            type_: self.type_,
            description: self.description,
            property: Some(property),
            existing_id: self.existing_id,
        }
    }

    pub fn with_existing_id(self, id: u32) -> (error: SetError)
        ensures
            error@ == self@.existing(id),
    {
        SetError {
            type_: self.type_,
            description: self.description,
            property: self.property,
            existing_id: Some(id),
        }
    }

    pub fn invalid_properties() -> (error: SetError)
        ensures
            error@ == set_error(SetErrorType::InvalidProperties),
    {
        SetError::new(SetErrorType::InvalidProperties)
    }

    pub fn forbidden() -> (error: SetError)
        ensures
            error@ == set_error(SetErrorType::Forbidden),
    {
        SetError::new(SetErrorType::Forbidden)
    }

    pub fn already_exists() -> (error: SetError)
        ensures
            error@ == set_error(SetErrorType::AlreadyExists),
    {
        SetError::new(SetErrorType::AlreadyExists)
    }

    pub fn not_found() -> (error: SetError)
        ensures
            error@ == not_found_error(),
    {
        SetError::new(SetErrorType::NotFound).with_description("ID not found.")
    }

    pub fn will_destroy() -> (error: SetError)
        ensures
            error@ == will_destroy_error(),
    {
        SetError::new(SetErrorType::WillDestroy).with_description("ID will be destroyed.")
    }
}

/// Why a whole request failed.
#[derive(Clone, Copy, Debug, PartialEq, Eq, Structural)]
pub enum MethodError {
    ServerPartialFail,
}

} // verus!
