//! The rules that a created or updated script is held to: which properties a
//! set request may give, which names are taken or reserved, and how the blob
//! of a script is made from its source.
use vstd::prelude::*;
use vstd::utf8::encode_utf8;
use crate::sieve::compile::{compile, compiled_form, CompileFailure, CompileFailureView};
use crate::sieve::object::{
    changes_view, set_error, BlobId, BlobKind, Change, ChangeView, Collection, Property, SetError,
    SetErrorType, SetErrorView, Value, ValueView,
};
use crate::sieve::store::{downloadable, min_id_named, DocumentView, Script, ScriptView, Store, StoreView};

verus! {

/// The limits of the Sieve manager.
#[derive(Clone, Copy, Debug, PartialEq, Eq, Structural)]
pub struct Config {
    /// A script is created while the account holds at most this many.
    pub sieve_max_scripts: usize,
    /// The greatest length of a script's name, in bytes.
    pub sieve_max_script_name: usize,
    /// The greatest length of a script's source, in bytes.
    pub sieve_max_script_size: usize,
}

/// The length in characters of the names that are made up for scripts that
/// are created without one.
pub const RANDOM_NAME_LENGTH: usize = 15;

/// The length of a name in bytes.
pub open spec fn byte_len(name: Seq<char>) -> usize {
    encode_utf8(name).len() as usize
}

/// Whether the character is the letter, in either case.
pub open spec fn is_letter(c: char, lower: char, upper: char) -> bool {
    c == lower || c == upper
}

/// Whether the name is `vacation`, whatever the case of its letters.
pub open spec fn is_vacation(name: Seq<char>) -> bool {
    &&& name.len() == 8
    &&& is_letter(name[0], 'v', 'V')
    &&& is_letter(name[1], 'a', 'A')
    &&& is_letter(name[2], 'c', 'C')
    &&& is_letter(name[3], 'a', 'A')
    &&& is_letter(name[4], 't', 'T')
    &&& is_letter(name[5], 'i', 'I')
    &&& is_letter(name[6], 'o', 'O')
    &&& is_letter(name[7], 'n', 'N')
}

/// Whether the name is `vacation`, whatever the case of its letters.
pub fn is_vacation_name(name: &str) -> (reserved: bool)
    ensures
        reserved == is_vacation(name@),
{
    if name.unicode_len() != 8 {
        return false;
    }
    let c0 = name.get_char(0);
    let c1 = name.get_char(1);
    let c2 = name.get_char(2);
    let c3 = name.get_char(3);
    let c4 = name.get_char(4);
    let c5 = name.get_char(5);
    let c6 = name.get_char(6);
    let c7 = name.get_char(7);
    (c0 == 'v' || c0 == 'V') && (c1 == 'a' || c1 == 'A') && (c2 == 'c' || c2 == 'C') && (c3 == 'a'
        || c3 == 'A') && (c4 == 't' || c4 == 'T') && (c5 == 'i' || c5 == 'I') && (c6 == 'o' || c6
        == 'O') && (c7 == 'n' || c7 == 'N')
}

/// The error of a name that is longer than the limit.
pub open spec fn name_too_long_error() -> SetErrorView {
    set_error(SetErrorType::InvalidProperties).about(Property::Name).described(
        "Script name is too long."@,
    )
}

/// The error of the reserved name.
pub open spec fn name_reserved_error() -> SetErrorView {
    set_error(SetErrorType::Forbidden).about(Property::Name).described(
        "The 'vacation' name is reserved, please use a different name."@,
    )
}

/// The error of a name that another script has.
pub open spec fn name_taken_error(name: Seq<char>, existing_id: u32) -> SetErrorView {
    set_error(SetErrorType::AlreadyExists).existing(existing_id).described(
        "A sieve script with name '"@ + name + "' already exists."@,
    )
}

/// The error of a property that cannot be set, or not to such a value.
pub open spec fn invalid_property_error(property: Property) -> SetErrorView {
    set_error(SetErrorType::InvalidProperties).about(property).described(
        "Invalid property or value."@,
    )
}

/// The error of a change to the `vacation` script.
pub open spec fn vacation_script_error() -> SetErrorView {
    set_error(SetErrorType::Forbidden).described(
        "The 'vacation' script cannot be modified, use VacationResponse/set instead."@,
    )
}

/// The error of a blob that is not there, or not for this account.
pub open spec fn blob_not_found_error() -> SetErrorView {
    set_error(SetErrorType::BlobNotFound).about(Property::BlobId).described("Blob does not exist."@)
}

/// The error of a created script without a blob.
pub open spec fn missing_blob_error() -> SetErrorView {
    set_error(SetErrorType::InvalidProperties).about(Property::BlobId).described("Missing blobId."@)
}

/// The error of a script that did not compile: `TooLarge` where the source
/// is too long, `InvalidScript` otherwise, with the compiler's message.
pub open spec fn script_error(failure: CompileFailureView) -> SetErrorView {
    set_error(
        if failure.too_long {
            SetErrorType::TooLarge
        } else {
            SetErrorType::InvalidScript
        },
    ).described(failure.message)
}

/// What is wrong with a name that a request gives to a script, if anything.
/// The name must be no longer than the limit and must not be `vacation`; and
/// unless it is the name that the script has, no script may have it.
pub open spec fn name_error(
    documents: Seq<DocumentView>,
    config: Config,
    current_name: Option<Seq<char>>,
    name: Seq<char>,
) -> Option<SetErrorView> {
    if byte_len(name) > config.sieve_max_script_name {
        Some(name_too_long_error())
    } else if is_vacation(name) {
        Some(name_reserved_error())
    } else if current_name != Some(name) && min_id_named(documents, name) is Some {
        Some(name_taken_error(name, min_id_named(documents, name)->0))
    } else {
        None
    }
}

/// What the properties of a request have given so far.
#[derive(Debug)]
pub struct Parsed {
    pub name: Option<String>,
    pub blob_id: Option<BlobId>,
}

/// The mathematical value of a `Parsed`.
pub ghost struct ParsedView {
    pub name: Option<Seq<char>>,
    pub blob_id: Option<BlobId>,
}

/// The characters of a string, where there is one.
pub open spec fn text_view(text: Option<String>) -> Option<Seq<char>> {
    match text {
        Some(text) => Some(text@),
        None => None,
    }
}

impl View for Parsed {
    type V = ParsedView;

    open spec fn view(&self) -> ParsedView {
        ParsedView { name: text_view(self.name), blob_id: self.blob_id }
    }
}

/// What one more property gives: a name that passes `name_error`, a blob
/// identifier, nothing for a name set to null, and an error for everything
/// else.
pub open spec fn parsed_one(
    documents: Seq<DocumentView>,
    config: Config,
    current_name: Option<Seq<char>>,
    so_far: ParsedView,
    change: ChangeView,
) -> Result<ParsedView, SetErrorView> {
    match (change.property, change.value) {
        (Property::Name, ValueView::Text(name)) => match name_error(
            documents,
            config,
            current_name,
            name,
        ) {
            Some(error) => Err(error),
            None => Ok(ParsedView { name: Some(name), blob_id: so_far.blob_id }),
        },
        (Property::BlobId, ValueView::BlobId(id)) => Ok(
            ParsedView { name: so_far.name, blob_id: Some(id) },
        ),
        (Property::Name, ValueView::Null) => Ok(so_far),
        _ => Err(invalid_property_error(change.property)),
    }
}

/// What the properties of a request give, read in their order up to the
/// first error.
pub open spec fn parsed_all(
    documents: Seq<DocumentView>,
    config: Config,
    current_name: Option<Seq<char>>,
    changes: Seq<ChangeView>,
) -> Result<ParsedView, SetErrorView>
    decreases changes.len(),
{
    if changes.len() == 0 {
        Ok(ParsedView { name: None, blob_id: None })
    } else {
        match parsed_all(documents, config, current_name, changes.drop_last()) {
            Ok(so_far) => parsed_one(documents, config, current_name, so_far, changes.last()),
            Err(error) => Err(error),
        }
    }
}

/// The blob of a script and the place where its source ends: the source
/// followed by the compiled form, which is empty where the compiled script
/// could not be serialized; or the error of a script that did not compile.
pub open spec fn blob_from(
    source: Seq<u8>,
    outcome: Result<Option<Seq<u8>>, CompileFailureView>,
) -> Result<(u64, Seq<u8>), SetErrorView> {
    match outcome {
        Ok(Some(compiled)) => Ok((source.len() as u64, source + compiled)),
        Ok(None) => Ok((source.len() as u64, source)),
        Err(failure) => Err(script_error(failure)),
    }
}

/// The script that a request asks for and its new blob, if it gets one, or
/// the error of the request.
///
/// `update` is the identifier and the value of the script that is updated;
/// without it a script is created. A created script is inactive, needs a
/// blob, and is named `fallback_name` where the request gives no name or an
/// empty one. An updated script keeps what the request does not set. The
/// blob is read and compiled unless it is the script's own.
pub open spec fn validated(
    store: StoreView,
    config: Config,
    changes: Seq<ChangeView>,
    update: Option<(u32, ScriptView)>,
    fallback_name: Seq<char>,
) -> Result<(ScriptView, Option<Seq<u8>>), SetErrorView> {
    let current_name = match update {
        Some((_, current)) => Some(current.name),
        None => None,
    };
    if update matches Some((_, current)) && is_vacation(current.name) {
        Err(vacation_script_error())
    } else {
        match parsed_all(store.documents, config, current_name, changes) {
            Err(error) => Err(error),
            Ok(parsed) => {
                let name = match (update, parsed.name) {
                    (Some(_), Some(name)) => name,
                    (Some((_, current)), None) => current.name,
                    (None, Some(name)) => if name.len() > 0 {
                        name
                    } else {
                        fallback_name
                    },
                    (None, None) => fallback_name,
                };
                let kept = match update {
                    Some((_, current)) => ScriptView {
                        name,
                        is_active: current.is_active,
                        blob_size: current.blob_size,
                    },
                    None => ScriptView { name, is_active: false, blob_size: 0 },
                };
                match parsed.blob_id {
                    Some(blob_id) => if update matches Some((document_id, _)) && blob_id.kind
                        == (BlobKind::Linked {
                        account_id: store.account_id,
                        collection: Collection::SieveScript,
                        document_id,
                    }) {
                        Ok((kept, None))
                    } else {
                        match downloadable(store.blobs, store.account_id, blob_id) {
                            None => Err(blob_not_found_error()),
                            Some(source) => match blob_from(
                                source,
                                compiled_form(config.sieve_max_script_size, source),
                            ) {
                                Ok((blob_size, blob)) => Ok(
                                    (
                                        ScriptView { name, is_active: kept.is_active, blob_size },
                                        Some(blob),
                                    ),
                                ),
                                Err(error) => Err(error),
                            },
                        }
                    },
                    None => if update is None {
                        Err(missing_blob_error())
                    } else {
                        Ok((kept, None))
                    },
                }
            },
        }
    }
}

/// What is wrong with a name that a request gives to a script, if anything.
pub fn check_name(store: &Store, config: &Config, current_name: &Option<String>, name: &String) -> (checked: Result<(), SetError>)
    ensures
        match checked {
            Ok(_) => name_error(store@.documents, *config, text_view(*current_name), name@) is None,
            Err(error) => name_error(store@.documents, *config, text_view(*current_name), name@)
                == Some(error@),
        },
{
    if name.as_str().len() > config.sieve_max_script_name {
        return Err(
            SetError::invalid_properties().with_property(Property::Name).with_description(
                "Script name is too long.",
            ),
        );
    }
    if is_vacation_name(name.as_str()) {
        return Err(
            SetError::forbidden().with_property(Property::Name).with_description(
                "The 'vacation' name is reserved, please use a different name.",
            ),
        );
    }
    let unchanged = match current_name {
        Some(current) => *current == *name,
        None => false,
    };
    if !unchanged {
        match store.filter_name(name) {
            Some(id) => {
                let mut text = String::from_str("A sieve script with name '");
                text.append(name.as_str());
                text.append("' already exists.");
                return Err(
                    SetError {
                        type_: SetErrorType::AlreadyExists,
                        description: Some(text),
                        property: None,
                        existing_id: Some(id),
                    },
                );
            },
            None => {},
        }
    }
    Ok(())
}

/// Reads the properties of a request in their order, up to the first error.
pub fn parse_changes(store: &Store, config: &Config, current_name: &Option<String>, changes: &Vec<Change>) -> (parsed: Result<Parsed, SetError>)
    ensures
        match parsed {
            Ok(parsed) => parsed_all(
                store@.documents,
                *config,
                text_view(*current_name),
                changes_view(changes@),
            ) == Ok::<ParsedView, SetErrorView>(parsed@),
            Err(error) => parsed_all(
                store@.documents,
                *config,
                text_view(*current_name),
                changes_view(changes@),
            ) == Err::<ParsedView, SetErrorView>(error@),
        },
{
    let ghost all = changes_view(changes@);
    let mut parsed = Parsed { name: None, blob_id: None };
    let mut at: usize = 0;
    assert(all.take(0) =~= Seq::<ChangeView>::empty());
    while at < changes.len()
        invariant
            at <= changes@.len(),
            all == changes_view(changes@),
            parsed_all(store@.documents, *config, text_view(*current_name), all.take(at as int))
                == Ok::<ParsedView, SetErrorView>(parsed@),
        decreases changes@.len() - at,
    {
        assert(all[at as int] == changes@[at as int]@);
        assert(all.take(at + 1).drop_last() =~= all.take(at as int));
        assert(all.take(at + 1).last() == all[at as int]);
        proof {
            lemma_parsed_all_stops(
                store@.documents,
                *config,
                text_view(*current_name),
                all,
                at + 1,
            );
        }
        let change = &changes[at];
        match (&change.property, &change.value) {
            (Property::Name, Value::Text(name)) => {
                match check_name(store, config, current_name, name) {
                    Ok(_) => {
                        parsed.name = Some(name.clone());
                    },
                    Err(error) => {
                        return Err(error);
                    },
                }
            },
            (Property::BlobId, Value::BlobId(id)) => {
                parsed.blob_id = Some(*id);
            },
            (Property::Name, Value::Null) => {},
            _ => {
                return Err(
                    SetError::invalid_properties().with_property(
                        change.property,
                    ).with_description("Invalid property or value."),
                );
            },
        }
        at += 1;
    }
    assert(all.take(at as int) =~= all);
    Ok(parsed)
}

/// An error among the first properties is the error of them all.
pub proof fn lemma_parsed_all_stops(
    documents: Seq<DocumentView>,
    config: Config,
    current_name: Option<Seq<char>>,
    changes: Seq<ChangeView>,
    upto: int,
)
    requires
        0 <= upto <= changes.len(),
    ensures
        parsed_all(documents, config, current_name, changes.take(upto)) is Err ==> parsed_all(
            documents,
            config,
            current_name,
            changes,
        ) == parsed_all(documents, config, current_name, changes.take(upto)),
    decreases changes.len() - upto,
{
    if upto < changes.len() {
        assert(changes.take(upto + 1).drop_last() =~= changes.take(upto));
        lemma_parsed_all_stops(documents, config, current_name, changes, upto + 1);
    } else {
        assert(changes.take(upto) =~= changes);
    }
}

/// Makes the blob of a script from its source and from what the compiler
/// made of it: the source followed by the compiled form, with the length of
/// the source as the place where it ends; the source alone where the
/// compiled script could not be serialized; or the error of a script that
/// did not compile.
pub fn script_blob(source: Vec<u8>, outcome: Result<Option<Vec<u8>>, CompileFailure>) -> (made: Result<(u64, Vec<u8>), SetError>)
    ensures
        match made {
            Ok((blob_size, blob)) => blob_from(source@, crate::sieve::compile::outcome_view(outcome))
                == Ok::<(u64, Seq<u8>), SetErrorView>((blob_size, blob@)),
            Err(error) => blob_from(source@, crate::sieve::compile::outcome_view(outcome)) == Err::<
                (u64, Seq<u8>),
                SetErrorView,
            >(error@),
        },
{
    match outcome {
        Ok(Some(compiled)) => {
            let blob_size = source.len() as u64;
            let mut blob = source;
            let mut compiled = compiled;
            blob.append(&mut compiled);
            Ok((blob_size, blob))
        },
        Ok(None) => {
            let blob_size = source.len() as u64;
            Ok((blob_size, source))
        },
        Err(failure) => {
            let type_ = if failure.too_long {
                SetErrorType::TooLarge
            } else {
                SetErrorType::InvalidScript
            };
            Err(
                SetError {
                    type_,
                    description: Some(failure.message),
                    property: None,
                    existing_id: None,
                },
            )
        },
    }
}

/// Reads a script's source, compiles it and makes the script's blob.
pub fn compile_blob(store: &Store, config: &Config, blob_id: &BlobId) -> (made: Result<(u64, Vec<u8>), SetError>)
    ensures
        match made {
            Ok((blob_size, blob)) => downloadable(store@.blobs, store@.account_id, *blob_id)
                matches Some(source) && blob_from(
                source,
                compiled_form(config.sieve_max_script_size, source),
            ) == Ok::<(u64, Seq<u8>), SetErrorView>((blob_size, blob@)),
            Err(error) => match downloadable(store@.blobs, store@.account_id, *blob_id) {
                Some(source) => blob_from(
                    source,
                    compiled_form(config.sieve_max_script_size, source),
                ) == Err::<(u64, Seq<u8>), SetErrorView>(error@),
                None => error@ == blob_not_found_error(),
            },
        },
{
    match store.blob_download(blob_id) {
        Some(source) => {
            let outcome = compile(config.sieve_max_script_size, &source);
            script_blob(source, outcome)
        },
        None => Err(
            SetError::new(SetErrorType::BlobNotFound).with_property(
                Property::BlobId,
            ).with_description("Blob does not exist."),
        ),
    }
}

} // verus!
