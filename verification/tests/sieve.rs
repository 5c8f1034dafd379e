use jmap::sieve::object::{
    BlobId, BlobKind, Change, Collection, MethodError, Property, SetError, SetErrorType, Value,
};
use jmap::sieve::request::{Creation, MaybeReference, SetRequest, SetResponse, Update, Updated};
use jmap::sieve::set::JMAP;
use jmap::sieve::steps::{contains_id, SetContext};
use jmap::sieve::store::{Operation, Script, Store, StoreError};
use jmap::sieve::validate::{
    check_name, compile_blob, is_vacation_name, parse_changes, script_blob, Config,
    RANDOM_NAME_LENGTH,
};
use jmap::sieve::compile::CompileFailure;

const ACCOUNT: u32 = 1;
const KEEP: &[u8] = b"keep;";
const FILE_INTO: &[u8] = b"require [\"fileinto\"]; fileinto \"Junk\";";
const BROKEN: &[u8] = b"if anyof ( {";

fn config() -> Config {
    Config { sieve_max_scripts: 5, sieve_max_script_name: 32, sieve_max_script_size: 4096 }
}

fn manager() -> JMAP {
    JMAP::new(config(), Store::new(ACCOUNT))
}

fn upload(manager: &mut JMAP, upload_id: u64, source: &[u8]) -> BlobId {
    manager.store.put_blob(BlobKind::Temporary { account_id: ACCOUNT, upload_id }, source.to_vec());
    BlobId::temporary(ACCOUNT, upload_id)
}

fn linked(document_id: u32) -> BlobKind {
    BlobKind::Linked { account_id: ACCOUNT, collection: Collection::SieveScript, document_id }
}

fn name(text: &str) -> Change {
    Change { property: Property::Name, value: Value::Text(text.to_string()) }
}

fn blob(id: BlobId) -> Change {
    Change { property: Property::BlobId, value: Value::BlobId(id) }
}

fn request() -> SetRequest {
    SetRequest {
        create: Vec::new(),
        update: Vec::new(),
        destroy: Vec::new(),
        on_success_activate_script: None,
        on_success_deactivate_script: None,
    }
}

fn create(manager: &mut JMAP, creation_id: &str, object: Vec<Change>) -> SetResponse {
    let mut set = request();
    set.create.push(Creation { id: creation_id.to_string(), object });
    manager.sieve_script_set(&set).unwrap()
}

fn update(manager: &mut JMAP, id: u32, object: Vec<Change>) -> SetResponse {
    let mut set = request();
    set.update.push(Update { id, object });
    manager.sieve_script_set(&set).unwrap()
}

fn destroy(manager: &mut JMAP, id: u32) -> SetResponse {
    let mut set = request();
    set.destroy.push(id);
    manager.sieve_script_set(&set).unwrap()
}

fn script(manager: &mut JMAP, script_name: &str, upload_id: u64) -> u32 {
    let source = upload(manager, upload_id, KEEP);
    let response = create(manager, "c", vec![name(script_name), blob(source)]);
    assert_eq!(response.not_created, vec![]);
    response.created[0].id
}

fn only_error(errors: &[jmap::sieve::request::NotCreated]) -> &SetError {
    assert_eq!(errors.len(), 1);
    &errors[0].error
}

fn active_count(manager: &JMAP) -> usize {
    manager.store.filter_active().len()
}

#[test]
fn create_stores_source_and_compiled_form() {
    let mut manager = manager();
    let source = upload(&mut manager, 7, FILE_INTO);
    let response = create(&mut manager, "c1", vec![name("A"), blob(source)]);
    assert_eq!(response.not_created, vec![]);
    assert_eq!(response.created.len(), 1);
    let created = &response.created[0];
    assert_eq!(created.creation_id, "c1");
    assert_eq!(created.id, 0);
    assert_eq!(created.is_active, None);
    assert_eq!(response.new_state, Some(1));
    let stored = manager.store.get_blob(&linked(0)).unwrap();
    assert_eq!(created.blob_id, BlobId { kind: linked(0), section_size: Some(stored.len()) });
    assert!(stored.len() > FILE_INTO.len());
    assert_eq!(&stored[..FILE_INTO.len()], FILE_INTO);
    assert_eq!(
        manager.store.get_value(0),
        Some(Script { name: "A".to_string(), is_active: false, blob_size: FILE_INTO.len() as u64 })
    );
}

#[test]
fn same_name_is_turned_down_with_the_first_id() {
    let mut manager = manager();
    let first = script(&mut manager, "A", 1);
    let source = upload(&mut manager, 2, KEEP);
    let response = create(&mut manager, "c2", vec![name("A"), blob(source)]);
    assert_eq!(response.created, vec![]);
    assert_eq!(response.new_state, None);
    let error = only_error(&response.not_created);
    assert_eq!(error.type_, SetErrorType::AlreadyExists);
    assert_eq!(error.existing_id, Some(first));
    assert_eq!(error.property, None);
    assert_eq!(error.description.as_deref(), Some("A sieve script with name 'A' already exists."));
    assert_eq!(manager.store.count(), 1);
}

#[test]
fn same_name_twice_in_one_request() {
    let mut manager = manager();
    let one = upload(&mut manager, 1, KEEP);
    let two = upload(&mut manager, 2, FILE_INTO);
    let mut set = request();
    set.create.push(Creation { id: "a".to_string(), object: vec![name("twin"), blob(one)] });
    set.create.push(Creation { id: "b".to_string(), object: vec![name("twin"), blob(two)] });
    let response = manager.sieve_script_set(&set).unwrap();
    assert_eq!(response.created.len(), 1);
    assert_eq!(response.created[0].creation_id, "a");
    assert_eq!(response.not_created.len(), 1);
    assert_eq!(response.not_created[0].creation_id, "b");
    assert_eq!(response.not_created[0].error.type_, SetErrorType::AlreadyExists);
    assert_eq!(response.not_created[0].error.existing_id, Some(response.created[0].id));
    assert_eq!(manager.store.filter_name(&"twin".to_string()), Some(response.created[0].id));
}

#[test]
fn same_name_twice_with_more_in_the_request() {
    let mut manager = manager();
    let old = script(&mut manager, "old", 9);
    let one = upload(&mut manager, 1, KEEP);
    let two = upload(&mut manager, 2, FILE_INTO);
    let three = upload(&mut manager, 3, KEEP);
    let mut set = request();
    set.create.push(Creation { id: "a".to_string(), object: vec![name("first"), blob(one)] });
    set.create.push(Creation { id: "b".to_string(), object: vec![name("twin"), blob(two.clone())] });
    set.create.push(Creation { id: "c".to_string(), object: vec![name("other"), blob(three)] });
    set.create.push(Creation { id: "d".to_string(), object: vec![name("twin"), blob(two)] });
    set.update.push(Update { id: old, object: vec![name("older")] });
    set.on_success_activate_script = Some(MaybeReference::Value(old));
    let response = manager.sieve_script_set(&set).unwrap();
    let created: Vec<(&str, u32)> =
        response.created.iter().map(|c| (c.creation_id.as_str(), c.id)).collect();
    assert_eq!(created, vec![("a", 1), ("b", 2), ("c", 3)]);
    assert_eq!(response.not_created.len(), 1);
    assert_eq!(response.not_created[0].creation_id, "d");
    assert_eq!(response.not_created[0].error.type_, SetErrorType::AlreadyExists);
    assert_eq!(response.not_created[0].error.existing_id, Some(2));
    assert_eq!(manager.store.filter_name(&"twin".to_string()), Some(2));
    assert_eq!(manager.store.count(), 4);
    assert_eq!(manager.store.filter_active(), vec![]);
}

#[test]
fn activation_moves_the_active_script() {
    let mut manager = manager();
    let x = script(&mut manager, "X", 1);
    let y = script(&mut manager, "Y", 2);
    assert_eq!(manager.sieve_activate_script(Some(99)), Ok(vec![]));
    assert_eq!(active_count(&manager), 0);
    assert_eq!(manager.sieve_activate_script(Some(y)), Ok(vec![(y, true)]));
    assert_eq!(manager.store.filter_active(), vec![y]);
    assert_eq!(manager.sieve_activate_script(Some(x)), Ok(vec![(y, false), (x, true)]));
    assert_eq!(manager.store.filter_active(), vec![x]);
    assert_eq!(manager.store.get_value(y).unwrap().is_active, false);
    assert_eq!(manager.store.get_value(x).unwrap().is_active, true);
}

#[test]
fn activating_an_unknown_script_changes_nothing() {
    let mut manager = manager();
    let x = script(&mut manager, "X", 1);
    let y = script(&mut manager, "Y", 2);
    manager.sieve_activate_script(Some(y)).unwrap();
    manager.store.add_email_id(y, 11);
    assert_eq!(manager.sieve_activate_script(Some(99)), Ok(vec![]));
    assert_eq!(manager.store.filter_active(), vec![y]);
    assert_eq!(manager.store.get_email_ids(y), Some(vec![11]));
    assert_eq!(manager.store.get_value(x).unwrap().is_active, false);
    let mut set = request();
    set.on_success_activate_script = Some(MaybeReference::Value(99));
    let response = manager.sieve_script_set(&set).unwrap();
    assert_eq!(response.updated, vec![]);
    assert_eq!(response.created, vec![]);
    assert_eq!(manager.store.filter_active(), vec![y]);
    let plan = manager.sieve_activation_plan(Some(99));
    assert_eq!(plan.batch, vec![]);
    assert_eq!(plan.changed_ids, vec![]);
}

#[test]
fn activation_under_a_stale_value_changes_nothing() {
    let mut manager = manager();
    let x = script(&mut manager, "X", 1);
    let y = script(&mut manager, "Y", 2);
    manager.sieve_activate_script(Some(y)).unwrap();
    let plan = manager.sieve_activation_plan(Some(x));
    assert_eq!(plan.changed_ids, vec![(y, false), (x, true)]);
    assert_eq!(plan.batch.len(), 2);
    update(&mut manager, y, vec![name("Y2")]);
    assert_eq!(manager.sieve_activation_commit(plan), Ok(vec![]));
    assert_eq!(manager.store.filter_active(), vec![y]);
    assert_eq!(manager.store.get_value(x).unwrap().is_active, false);
    let plan = manager.sieve_activation_plan(Some(x));
    assert_eq!(manager.sieve_activation_commit(plan), Ok(vec![(y, false), (x, true)]));
    assert_eq!(manager.store.filter_active(), vec![x]);
    let plan = manager.sieve_activation_plan(Some(x));
    assert_eq!(plan.changed_ids, vec![]);
    assert_eq!(manager.sieve_activation_commit(plan), Ok(vec![]));
    assert_eq!(manager.store.filter_active(), vec![x]);
}

#[test]
fn activating_the_active_script_changes_nothing() {
    let mut manager = manager();
    let x = script(&mut manager, "X", 1);
    manager.sieve_activate_script(Some(x)).unwrap();
    manager.store.add_email_id(x, 41);
    let state = manager.store.state();
    assert_eq!(manager.sieve_activate_script(Some(x)), Ok(vec![]));
    assert_eq!(manager.store.filter_active(), vec![x]);
    assert_eq!(manager.store.get_email_ids(x), Some(vec![41]));
    assert_eq!(manager.store.state(), state);
}

#[test]
fn deactivation_clears_the_answered_messages() {
    let mut manager = manager();
    let x = script(&mut manager, "X", 1);
    let y = script(&mut manager, "Y", 2);
    manager.sieve_activate_script(Some(x)).unwrap();
    manager.store.add_email_id(x, 5);
    manager.store.add_email_id(x, 6);
    manager.store.add_email_id(y, 7);
    assert_eq!(manager.sieve_activate_script(None), Ok(vec![(x, false)]));
    assert_eq!(active_count(&manager), 0);
    assert_eq!(manager.store.get_email_ids(x), Some(vec![]));
    assert_eq!(manager.store.get_email_ids(y), Some(vec![7]));
    assert_eq!(manager.sieve_activate_script(None), Ok(vec![]));
}

#[test]
fn on_success_activate_by_reference() {
    let mut manager = manager();
    let old = script(&mut manager, "old", 1);
    manager.sieve_activate_script(Some(old)).unwrap();
    let source = upload(&mut manager, 2, KEEP);
    let mut set = request();
    set.create.push(Creation { id: "fresh".to_string(), object: vec![name("new"), blob(source)] });
    set.update.push(Update { id: old, object: vec![name("older")] });
    set.on_success_activate_script = Some(MaybeReference::Reference("fresh".to_string()));
    let response = manager.sieve_script_set(&set).unwrap();
    let new = response.created[0].id;
    assert_eq!(response.created[0].is_active, Some(true));
    assert_eq!(response.updated, vec![Updated { id: old, blob_id: None, is_active: Some(false) }]);
    assert_eq!(manager.store.filter_active(), vec![new]);
    assert_eq!(manager.store.get_value(old).unwrap().name, "older");
}

#[test]
fn on_success_activate_by_id_and_deactivate() {
    let mut manager = manager();
    let x = script(&mut manager, "X", 1);
    let mut set = request();
    set.on_success_activate_script = Some(MaybeReference::Value(x));
    let response = manager.sieve_script_set(&set).unwrap();
    assert_eq!(response.new_state, None);
    assert_eq!(manager.store.filter_active(), vec![x]);
    let mut set = request();
    set.on_success_deactivate_script = Some(false);
    manager.sieve_script_set(&set).unwrap();
    assert_eq!(manager.store.filter_active(), vec![x]);
    let mut set = request();
    set.on_success_deactivate_script = Some(true);
    manager.sieve_script_set(&set).unwrap();
    assert_eq!(active_count(&manager), 0);
}

#[test]
fn unknown_reference_leaves_the_response_as_it_is() {
    let mut manager = manager();
    let x = script(&mut manager, "X", 1);
    manager.sieve_activate_script(Some(x)).unwrap();
    let mut set = request();
    set.on_success_activate_script = Some(MaybeReference::Reference("nobody".to_string()));
    let response = manager.sieve_script_set(&set).unwrap();
    assert_eq!(response.created, vec![]);
    assert_eq!(manager.store.filter_active(), vec![x]);
}

#[test]
fn activation_waits_for_a_clean_request() {
    let mut manager = manager();
    let x = script(&mut manager, "X", 1);
    let mut set = request();
    set.destroy.push(77);
    set.on_success_activate_script = Some(MaybeReference::Value(x));
    let response = manager.sieve_script_set(&set).unwrap();
    assert_eq!(response.not_destroyed.len(), 1);
    assert_eq!(active_count(&manager), 0);
}

#[test]
fn at_most_one_script_is_active_after_any_of_these() {
    let mut manager = manager();
    let a = script(&mut manager, "a", 1);
    let b = script(&mut manager, "b", 2);
    let c = script(&mut manager, "c", 3);
    for target in [Some(a), Some(b), Some(b), None, Some(c), Some(404), Some(a)] {
        manager.sieve_activate_script(target).unwrap();
        assert!(active_count(&manager) <= 1);
        update(&mut manager, b, vec![name("b2")]);
        update(&mut manager, b, vec![name("b")]);
        assert!(active_count(&manager) <= 1);
    }
    assert_eq!(manager.store.filter_active(), vec![a]);
}

#[test]
fn destroying_the_active_script_is_turned_down() {
    let mut manager = manager();
    let x = script(&mut manager, "X", 1);
    manager.sieve_activate_script(Some(x)).unwrap();
    let response = destroy(&mut manager, x);
    assert_eq!(response.destroyed, vec![]);
    assert_eq!(response.not_destroyed.len(), 1);
    assert_eq!(response.not_destroyed[0].id, x);
    assert_eq!(response.not_destroyed[0].error.type_, SetErrorType::ScriptIsActive);
    assert_eq!(
        response.not_destroyed[0].error.description.as_deref(),
        Some("Deactivate Sieve script before deletion.")
    );
    assert_eq!(manager.store.get_value(x).unwrap().is_active, true);
    assert!(manager.store.get_blob(&linked(x)).is_some());
}

#[test]
fn the_active_script_outlives_a_request_that_asks_for_more() {
    let mut manager = manager();
    let x = script(&mut manager, "X", 1);
    let y = script(&mut manager, "Y", 2);
    manager.sieve_activate_script(Some(x)).unwrap();
    let source = upload(&mut manager, 3, KEEP);
    let mut set = request();
    set.create.push(Creation { id: "z".to_string(), object: vec![name("Z"), blob(source)] });
    set.update.push(Update { id: x, object: vec![name("renamed")] });
    set.destroy.push(y);
    set.destroy.push(x);
    set.on_success_activate_script = Some(MaybeReference::Reference("z".to_string()));
    let response = manager.sieve_script_set(&set).unwrap();
    assert_eq!(response.destroyed, vec![y]);
    assert_eq!(response.not_destroyed.len(), 1);
    assert_eq!(response.not_destroyed[0].id, x);
    assert_eq!(response.not_destroyed[0].error.type_, SetErrorType::ScriptIsActive);
    assert_eq!(response.not_updated[0].error, SetError::will_destroy());
    assert_eq!(response.created.len(), 1);
    assert_eq!(response.created[0].is_active, None);
    assert_eq!(
        manager.store.get_value(x),
        Some(Script { name: "X".to_string(), is_active: true, blob_size: KEEP.len() as u64 })
    );
    assert_eq!(manager.store.filter_active(), vec![x]);
}

#[test]
fn destroy_takes_document_and_blob() {
    let mut manager = manager();
    let x = script(&mut manager, "X", 1);
    let keep = script(&mut manager, "keep", 2);
    let response = destroy(&mut manager, x);
    assert_eq!(response.destroyed, vec![x]);
    assert_eq!(response.not_destroyed, vec![]);
    assert_eq!(response.new_state, Some(3));
    assert_eq!(manager.store.get_value(x), None);
    assert_eq!(manager.store.get_blob(&linked(x)), None);
    assert_eq!(manager.store.get_document_ids(), vec![keep]);
    assert_eq!(manager.sieve_script_delete(404), Ok(()));
    assert_eq!(manager.store.get_document_ids(), vec![keep]);
}

#[test]
fn destroy_of_an_unknown_script_is_not_found() {
    let mut manager = manager();
    let response = destroy(&mut manager, 3);
    assert_eq!(response.not_destroyed.len(), 1);
    assert_eq!(response.not_destroyed[0].error, SetError::not_found());
    assert_eq!(response.not_destroyed[0].error.type_, SetErrorType::NotFound);
    assert_eq!(response.not_destroyed[0].error.description.as_deref(), Some("ID not found."));
    assert_eq!(response.new_state, None);
}

#[test]
fn update_of_a_script_to_destroy_is_turned_down() {
    let mut manager = manager();
    let x = script(&mut manager, "X", 1);
    let mut set = request();
    set.update.push(Update { id: x, object: vec![name("renamed")] });
    set.destroy.push(x);
    let response = manager.sieve_script_set(&set).unwrap();
    assert_eq!(response.not_updated.len(), 1);
    assert_eq!(response.not_updated[0].error, SetError::will_destroy());
    assert_eq!(response.not_updated[0].error.type_, SetErrorType::WillDestroy);
    assert_eq!(response.destroyed, vec![x]);
    assert_eq!(manager.store.count(), 0);
}

#[test]
fn update_of_an_unknown_script_is_not_found() {
    let mut manager = manager();
    let response = update(&mut manager, 9, vec![name("n")]);
    assert_eq!(response.updated, vec![]);
    assert_eq!(response.not_updated.len(), 1);
    assert_eq!(response.not_updated[0].id, 9);
    assert_eq!(response.not_updated[0].error.type_, SetErrorType::NotFound);
}

#[test]
fn update_renames_and_swaps_the_blob() {
    let mut manager = manager();
    let x = script(&mut manager, "X", 1);
    let response = update(&mut manager, x, vec![name("Z")]);
    assert_eq!(response.updated, vec![Updated { id: x, blob_id: None, is_active: None }]);
    assert_eq!(
        manager.store.get_value(x),
        Some(Script { name: "Z".to_string(), is_active: false, blob_size: KEEP.len() as u64 })
    );
    let source = upload(&mut manager, 2, FILE_INTO);
    let response = update(&mut manager, x, vec![blob(source)]);
    let stored = manager.store.get_blob(&linked(x)).unwrap();
    assert_eq!(response.updated, vec![Updated {
        id: x,
        blob_id: Some(BlobId { kind: linked(x), section_size: Some(stored.len()) }),
        is_active: None
    }]);
    assert_eq!(&stored[..FILE_INTO.len()], FILE_INTO);
    assert_eq!(manager.store.get_value(x).unwrap().blob_size, FILE_INTO.len() as u64);
    assert_eq!(manager.store.get_value(x).unwrap().name, "Z");
}

#[test]
fn update_keeps_the_name_and_the_own_blob() {
    let mut manager = manager();
    let x = script(&mut manager, "X", 1);
    let before = manager.store.get_blob(&linked(x)).unwrap();
    let own = BlobId::linked(ACCOUNT, Collection::SieveScript, x);
    let response = update(&mut manager, x, vec![name("X"), blob(own)]);
    assert_eq!(response.not_updated, vec![]);
    assert_eq!(response.updated, vec![Updated { id: x, blob_id: None, is_active: None }]);
    assert_eq!(manager.store.get_blob(&linked(x)), Some(before));
    let null = Change { property: Property::Name, value: Value::Null };
    let response = update(&mut manager, x, vec![null]);
    assert_eq!(response.not_updated, vec![]);
    assert_eq!(manager.store.get_value(x).unwrap().name, "X");
}

#[test]
fn update_keeps_the_active_state() {
    let mut manager = manager();
    let x = script(&mut manager, "X", 1);
    manager.sieve_activate_script(Some(x)).unwrap();
    update(&mut manager, x, vec![name("still")]);
    assert_eq!(manager.store.get_value(x).unwrap().is_active, true);
}

#[test]
fn second_writer_with_the_same_snapshot_is_turned_down() {
    let mut manager = manager();
    let x = script(&mut manager, "X", 1);
    let read_by_one = manager.store.get_value(x).unwrap();
    let read_by_two = manager.store.get_value(x).unwrap();
    let mut ctx =
        SetContext { response: SetResponse::new(), sieve_ids: vec![x], changed: false };
    assert_eq!(manager.update_script(&mut ctx, x, read_by_one, &vec![name("one")]), Ok(()));
    assert_eq!(manager.update_script(&mut ctx, x, read_by_two, &vec![name("two")]), Ok(()));
    assert_eq!(ctx.response.updated, vec![Updated { id: x, blob_id: None, is_active: None }]);
    assert_eq!(ctx.response.not_updated.len(), 1);
    let error = &ctx.response.not_updated[0].error;
    assert_eq!(error.type_, SetErrorType::Forbidden);
    assert_eq!(
        error.description.as_deref(),
        Some("Another process modified this sieve, please try again.")
    );
    assert_eq!(manager.store.get_value(x).unwrap().name, "one");
    assert!(ctx.changed);
}

#[test]
fn vacation_script_cannot_be_modified() {
    let mut manager = manager();
    manager
        .store
        .write(&vec![Operation::Create {
            document_id: 0,
            value: Script { name: "Vacation".to_string(), is_active: false, blob_size: 0 },
        }])
        .unwrap();
    let response = update(&mut manager, 0, vec![name("holiday")]);
    assert_eq!(response.not_updated.len(), 1);
    let error = &response.not_updated[0].error;
    assert_eq!(error.type_, SetErrorType::Forbidden);
    assert_eq!(error.property, None);
    assert_eq!(
        error.description.as_deref(),
        Some("The 'vacation' script cannot be modified, use VacationResponse/set instead.")
    );
    assert_eq!(manager.store.get_value(0).unwrap().name, "Vacation");
}

#[test]
fn vacation_name_is_reserved() {
    let mut manager = manager();
    let source = upload(&mut manager, 1, KEEP);
    for reserved in ["vacation", "VACATION", "VaCaTiOn"] {
        let response = create(&mut manager, "c", vec![name(reserved), blob(source)]);
        let error = only_error(&response.not_created);
        assert_eq!(error.type_, SetErrorType::Forbidden);
        assert_eq!(error.property, Some(Property::Name));
        assert_eq!(
            error.description.as_deref(),
            Some("The 'vacation' name is reserved, please use a different name.")
        );
    }
    assert!(is_vacation_name("vacatioN"));
    assert!(!is_vacation_name("vacations"));
    assert!(!is_vacation_name("vacatio"));
    assert!(!is_vacation_name("vacatiob"));
    let response = create(&mut manager, "c", vec![name("vacations"), blob(source)]);
    assert_eq!(response.not_created, vec![]);
}

#[test]
fn name_length_is_counted_in_bytes() {
    let mut manager = manager();
    let source = upload(&mut manager, 1, KEEP);
    let fits = "x".repeat(32);
    let response = create(&mut manager, "c", vec![name(&fits), blob(source)]);
    assert_eq!(response.not_created, vec![]);
    let long = "x".repeat(33);
    let response = create(&mut manager, "c", vec![name(&long), blob(source)]);
    let error = only_error(&response.not_created);
    assert_eq!(error.type_, SetErrorType::InvalidProperties);
    assert_eq!(error.property, Some(Property::Name));
    assert_eq!(error.description.as_deref(), Some("Script name is too long."));
    let wide = "\u{e9}".repeat(17);
    let response = create(&mut manager, "c", vec![name(&wide), blob(source)]);
    assert_eq!(only_error(&response.not_created).type_, SetErrorType::InvalidProperties);
    let narrow = "\u{e9}".repeat(16);
    let response = create(&mut manager, "c", vec![name(&narrow), blob(source)]);
    assert_eq!(response.not_created, vec![]);
}

#[test]
fn other_properties_are_invalid() {
    let mut manager = manager();
    let source = upload(&mut manager, 1, KEEP);
    let cases = vec![
        Change { property: Property::IsActive, value: Value::Bool(true) },
        Change { property: Property::Id, value: Value::Id(3) },
        Change { property: Property::Name, value: Value::Bool(false) },
        Change { property: Property::BlobId, value: Value::Text("blob".to_string()) },
        Change { property: Property::EmailIds, value: Value::Null },
        Change { property: Property::Value, value: Value::UnsignedInt(1) },
    ];
    for case in cases {
        let property = case.property;
        let response = create(&mut manager, "c", vec![name("fine"), case, blob(source)]);
        let error = only_error(&response.not_created);
        assert_eq!(error.type_, SetErrorType::InvalidProperties);
        assert_eq!(error.property, Some(property));
        assert_eq!(error.description.as_deref(), Some("Invalid property or value."));
    }
    assert_eq!(manager.store.count(), 0);
}

#[test]
fn the_first_error_in_the_order_of_the_properties_counts() {
    let mut manager = manager();
    let source = upload(&mut manager, 1, KEEP);
    let bad = Change { property: Property::IsActive, value: Value::Bool(true) };
    let response = create(&mut manager, "c", vec![bad, name("vacation"), blob(source)]);
    assert_eq!(only_error(&response.not_created).type_, SetErrorType::InvalidProperties);
    let bad = Change { property: Property::IsActive, value: Value::Bool(true) };
    let response = create(&mut manager, "c", vec![name("vacation"), bad, blob(source)]);
    assert_eq!(only_error(&response.not_created).type_, SetErrorType::Forbidden);
}

#[test]
fn create_needs_a_blob() {
    let mut manager = manager();
    let response = create(&mut manager, "c", vec![name("A")]);
    let error = only_error(&response.not_created);
    assert_eq!(error.type_, SetErrorType::InvalidProperties);
    assert_eq!(error.property, Some(Property::BlobId));
    assert_eq!(error.description.as_deref(), Some("Missing blobId."));
}

#[test]
fn missing_and_foreign_blobs_are_not_found() {
    let mut manager = manager();
    let response = create(&mut manager, "c", vec![name("A"), blob(BlobId::temporary(ACCOUNT, 5))]);
    let error = only_error(&response.not_created);
    assert_eq!(error.type_, SetErrorType::BlobNotFound);
    assert_eq!(error.property, Some(Property::BlobId));
    assert_eq!(error.description.as_deref(), Some("Blob does not exist."));
    manager.store.put_blob(BlobKind::Temporary { account_id: 2, upload_id: 5 }, KEEP.to_vec());
    let response = create(&mut manager, "c", vec![name("A"), blob(BlobId::temporary(2, 5))]);
    assert_eq!(only_error(&response.not_created).type_, SetErrorType::BlobNotFound);
    assert_eq!(manager.store.blob_download(&BlobId::temporary(2, 5)), None);
    assert_eq!(manager.store.get_blob(&BlobKind::Temporary { account_id: 2, upload_id: 5 }), Some(KEEP.to_vec()));
}

#[test]
fn a_script_that_does_not_compile_is_invalid() {
    let mut manager = manager();
    let source = upload(&mut manager, 1, BROKEN);
    let response = create(&mut manager, "c", vec![name("A"), blob(source)]);
    let error = only_error(&response.not_created);
    assert_eq!(error.type_, SetErrorType::InvalidScript);
    assert_eq!(error.property, None);
    assert!(!error.description.as_deref().unwrap().is_empty());
    assert_eq!(manager.store.count(), 0);
    assert_eq!(manager.store.get_blob(&linked(0)), None);
}

#[test]
fn a_script_beyond_the_size_limit_is_too_large() {
    let mut manager = JMAP::new(
        Config { sieve_max_scripts: 5, sieve_max_script_name: 32, sieve_max_script_size: 10 },
        Store::new(ACCOUNT),
    );
    let source = upload(&mut manager, 1, FILE_INTO);
    let response = create(&mut manager, "c", vec![name("A"), blob(source)]);
    let error = only_error(&response.not_created);
    assert_eq!(error.type_, SetErrorType::TooLarge);
    assert_eq!(error.description.as_deref(), Some("Sieve script is too large at line 0, column 0."));
    let short = upload(&mut manager, 2, KEEP);
    let response = create(&mut manager, "c", vec![name("A"), blob(short)]);
    assert_eq!(response.not_created, vec![]);
}

#[test]
fn quota_counts_the_scripts_in_use() {
    let mut manager = JMAP::new(
        Config { sieve_max_scripts: 1, sieve_max_script_name: 32, sieve_max_script_size: 4096 },
        Store::new(ACCOUNT),
    );
    let source = upload(&mut manager, 1, KEEP);
    let mut set = request();
    for creation_id in ["a", "b", "c"] {
        set.create.push(Creation {
            id: creation_id.to_string(),
            object: vec![name(creation_id), blob(source)],
        });
    }
    let response = manager.sieve_script_set(&set).unwrap();
    assert_eq!(response.created.len(), 2);
    assert_eq!(response.not_created.len(), 1);
    assert_eq!(response.not_created[0].creation_id, "c");
    assert_eq!(response.not_created[0].error.type_, SetErrorType::OverQuota);
    assert_eq!(
        response.not_created[0].error.description.as_deref(),
        Some("There are too many sieve scripts, please delete some before adding a new one.")
    );
    assert_eq!(manager.store.count(), 2);
}

#[test]
fn a_script_without_a_name_gets_a_random_one() {
    let mut manager = manager();
    let source = upload(&mut manager, 1, KEEP);
    let response = create(&mut manager, "c", vec![blob(source)]);
    let first = manager.store.get_value(response.created[0].id).unwrap();
    assert_eq!(first.name.chars().count(), RANDOM_NAME_LENGTH);
    assert_eq!(RANDOM_NAME_LENGTH, 15);
    assert!(first.name.chars().all(|c| c.is_ascii_alphanumeric()));
    assert!(!first.is_active);
    let response = create(&mut manager, "c", vec![name(""), blob(source)]);
    let second = manager.store.get_value(response.created[0].id).unwrap();
    assert_eq!(second.name.len(), 15);
    assert_ne!(first.name, second.name);
}

#[test]
fn given_names_are_used_for_unnamed_scripts() {
    let mut manager = manager();
    let source = upload(&mut manager, 1, KEEP);
    let mut set = request();
    set.create.push(Creation { id: "a".to_string(), object: vec![blob(source)] });
    set.create.push(Creation { id: "b".to_string(), object: vec![name("named"), blob(source)] });
    set.create.push(Creation { id: "c".to_string(), object: vec![blob(source)] });
    let names = vec!["first".to_string(), "second".to_string()];
    let response = manager.sieve_script_set_with(&set, &names).unwrap();
    assert_eq!(response.created.len(), 3);
    assert_eq!(manager.store.get_value(0).unwrap().name, "first");
    assert_eq!(manager.store.get_value(1).unwrap().name, "named");
    assert_eq!(manager.store.get_value(2).unwrap().name, "");
    assert_eq!(response.new_state, Some(1));
}

#[test]
fn request_fails_when_no_identifier_is_left() {
    let mut manager = manager();
    manager
        .store
        .write(&vec![Operation::Create {
            document_id: u32::MAX,
            value: Script { name: "last".to_string(), is_active: false, blob_size: 0 },
        }])
        .unwrap();
    let source = upload(&mut manager, 1, KEEP);
    let mut set = request();
    set.create.push(Creation { id: "a".to_string(), object: vec![name("A"), blob(source)] });
    assert_eq!(manager.sieve_script_set(&set), Err(MethodError::ServerPartialFail));
    assert_eq!(manager.store.assign_document_id(), Err(StoreError::InternalError));
    assert_eq!(manager.store.count(), 1);
}

#[test]
fn batch_is_written_whole_or_not_at_all() {
    let mut store = Store::new(ACCOUNT);
    let one = Script { name: "one".to_string(), is_active: false, blob_size: 1 };
    let two = Script { name: "two".to_string(), is_active: true, blob_size: 2 };
    store
        .write(&vec![
            Operation::Create { document_id: 4, value: one.clone() },
            Operation::Create { document_id: 2, value: two.clone() },
        ])
        .unwrap();
    assert_eq!(store.get_document_ids(), vec![4, 2]);
    assert_eq!(store.assign_document_id(), Ok(5));
    assert_eq!(store.filter_active(), vec![2]);
    let renamed = Script { name: "uno".to_string(), is_active: false, blob_size: 1 };
    let stale = Script { name: "zwei".to_string(), is_active: true, blob_size: 2 };
    let failed = store.write(&vec![
        Operation::Update {
            document_id: 4,
            assert_value: one.clone(),
            value: renamed.clone(),
            clear_email_ids: false,
        },
        Operation::Update {
            document_id: 2,
            assert_value: stale,
            value: one.clone(),
            clear_email_ids: false,
        },
    ]);
    assert_eq!(failed, Err(StoreError::AssertValueFailed));
    assert_eq!(store.get_value(4), Some(one.clone()));
    assert_eq!(store.get_value(2), Some(two.clone()));
    let missing = store.write(&vec![Operation::Update {
        document_id: 9,
        assert_value: one.clone(),
        value: renamed.clone(),
        clear_email_ids: false,
    }]);
    assert_eq!(missing, Err(StoreError::AssertValueFailed));
    store
        .write(&vec![
            Operation::Update {
                document_id: 4,
                assert_value: one.clone(),
                value: renamed.clone(),
                clear_email_ids: true,
            },
            Operation::Delete { document_id: 2 },
            Operation::Delete { document_id: 2 },
        ])
        .unwrap();
    assert_eq!(store.get_value(4), Some(renamed));
    assert_eq!(store.get_document_ids(), vec![4]);
    assert_eq!(store.state(), 0);
    assert_eq!(store.commit_changes(), 1);
    assert_eq!(store.commit_changes(), 2);
}

#[test]
fn least_identifier_with_a_name_is_found() {
    let mut store = Store::new(ACCOUNT);
    for (document_id, script_name) in [(7u32, "a"), (3, "b"), (5, "a"), (9, "a")] {
        store
            .write(&vec![Operation::Create {
                document_id,
                value: Script { name: script_name.to_string(), is_active: false, blob_size: 0 },
            }])
            .unwrap();
    }
    assert_eq!(store.filter_name(&"a".to_string()), Some(5));
    assert_eq!(store.filter_name(&"b".to_string()), Some(3));
    assert_eq!(store.filter_name(&"c".to_string()), None);
    assert_eq!(store.account_id(), ACCOUNT);
}

#[test]
fn blobs_are_stored_under_their_name() {
    let mut store = Store::new(ACCOUNT);
    store.put_blob(linked(1), vec![1, 2]);
    store.put_blob(linked(2), vec![3]);
    store.put_blob(linked(1), vec![4, 5, 6]);
    assert_eq!(store.get_blob(&linked(1)), Some(vec![4, 5, 6]));
    assert_eq!(store.get_blob(&linked(2)), Some(vec![3]));
    assert_eq!(store.blob_download(&BlobId::linked(ACCOUNT, Collection::SieveScript, 2)), Some(vec![3]));
    store.delete_blob(&linked(1));
    store.delete_blob(&linked(8));
    assert_eq!(store.get_blob(&linked(1)), None);
    assert_eq!(store.get_blob(&linked(2)), Some(vec![3]));
    assert!(linked(2).is_document(ACCOUNT, Collection::SieveScript, 2));
    assert!(!linked(2).is_document(ACCOUNT, Collection::Email, 2));
    assert!(!linked(2).is_document(ACCOUNT, Collection::SieveScript, 3));
    assert_eq!(linked(2).account_id(), ACCOUNT);
}

#[test]
fn a_blob_is_the_source_followed_by_the_compiled_form() {
    assert_eq!(script_blob(vec![1, 2, 3], Ok(Some(vec![9, 8]))), Ok((3, vec![1, 2, 3, 9, 8])));
    assert_eq!(script_blob(vec![], Ok(Some(vec![]))), Ok((0, vec![])));
    assert_eq!(script_blob(vec![4, 5], Ok(None)), Ok((2, vec![4, 5])));
    let too_long = script_blob(
        vec![1],
        Err(CompileFailure { too_long: true, message: "long".to_string() }),
    );
    assert_eq!(
        too_long,
        Err(SetError::new(SetErrorType::TooLarge).with_description("long"))
    );
    let invalid = script_blob(
        vec![1],
        Err(CompileFailure { too_long: false, message: "bad".to_string() }),
    );
    assert_eq!(invalid.unwrap_err().type_, SetErrorType::InvalidScript);
}

#[test]
fn compiled_form_comes_from_the_compiler() {
    let mut manager = manager();
    let keep = upload(&mut manager, 1, KEEP);
    let file_into = upload(&mut manager, 2, FILE_INTO);
    let (keep_size, keep_blob) = compile_blob(&manager.store, &manager.config, &keep).unwrap();
    let (into_size, into_blob) = compile_blob(&manager.store, &manager.config, &file_into).unwrap();
    assert_eq!(keep_size, KEEP.len() as u64);
    assert_eq!(into_size, FILE_INTO.len() as u64);
    assert!(keep_blob.len() > KEEP.len());
    assert_ne!(&keep_blob[KEEP.len()..], &into_blob[FILE_INTO.len()..]);
    let again = compile_blob(&manager.store, &manager.config, &keep).unwrap();
    assert_eq!(again.1, keep_blob);
}

#[test]
fn names_are_checked_against_the_store() {
    let mut manager = manager();
    let x = script(&mut manager, "X", 1);
    let taken = check_name(&manager.store, &manager.config, &None, &"X".to_string());
    assert_eq!(taken.unwrap_err().existing_id, Some(x));
    let own = check_name(&manager.store, &manager.config, &Some("X".to_string()), &"X".to_string());
    assert_eq!(own, Ok(()));
    let other =
        check_name(&manager.store, &manager.config, &Some("Y".to_string()), &"X".to_string());
    assert_eq!(other.unwrap_err().type_, SetErrorType::AlreadyExists);
    let parsed = parse_changes(
        &manager.store,
        &manager.config,
        &None,
        &vec![name("first"), blob(BlobId::temporary(ACCOUNT, 3)), name("last")],
    )
    .unwrap();
    assert_eq!(parsed.name.as_deref(), Some("last"));
    assert_eq!(parsed.blob_id, Some(BlobId::temporary(ACCOUNT, 3)));
}

#[test]
fn identifiers_are_looked_up() {
    assert!(contains_id(&vec![3, 1, 2], 1));
    assert!(!contains_id(&vec![3, 1, 2], 4));
    assert!(!contains_id(&Vec::new(), 0));
    let mut response = SetResponse::new();
    assert!(response.is_clean());
    response.push_destroyed(4);
    response.push_updated(Updated { id: 4, blob_id: None, is_active: None });
    response.push_updated(Updated { id: 5, blob_id: None, is_active: None });
    response.mark(4, true);
    assert_eq!(response.updated, vec![
        Updated { id: 4, blob_id: None, is_active: Some(true) },
        Updated { id: 5, blob_id: None, is_active: None },
    ]);
    assert_eq!(response.get_id(&"x".to_string()), None);
    response.push_not_updated(1, SetError::forbidden());
    assert!(!response.is_clean());
}
