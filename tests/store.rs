use autochroma::id::Id;
use autochroma::modules::{Command, Module};
use autochroma::store::{ModuleStore, StoreError};

fn modules_of(store: &ModuleStore, guild: u64) -> Vec<String> {
    store
        .list_records(Id::new(guild))
        .into_iter()
        .map(|r| r.module)
        .collect()
}

#[test]
fn enable_then_list_shows_the_module_once() {
    let mut store = ModuleStore::new();
    let result = store.enable(Id::new(3), Module::Nom);
    assert_eq!(result.enabled, vec![Module::Nom]);
    assert!(result.commands.contains(&Command::Nom));
    assert_eq!(store.list(Id::new(3)), "nom");
}

#[test]
fn enable_twice_is_idempotent() {
    let mut store = ModuleStore::new();
    let once = store.enable(Id::new(3), Module::Nom);
    let twice = store.enable(Id::new(3), Module::Nom);
    assert_eq!(once.enabled, twice.enabled);
    assert_eq!(once.commands, twice.commands);
    assert_eq!(modules_of(&store, 3), vec![String::from("nom")]);
}

#[test]
fn disable_never_enabled_is_a_no_op() {
    let mut store = ModuleStore::new();
    store.enable(Id::new(4), Module::Nom);
    assert_eq!(store.delete_record(Id::new(5), Module::Nom), Err(StoreError::NotFound));
    let result = store.disable(Id::new(5), Module::Nom);
    assert!(result.enabled.is_empty());
    assert_eq!(modules_of(&store, 4), vec![String::from("nom")]);
}

#[test]
fn reconcile_keeps_one_of_duplicate_rows() {
    let mut store = ModuleStore::new();
    let first = store.import_record(Id::new(9), String::from("nom"));
    store.import_record(Id::new(9), String::from("nom"));
    let result = store.reconcile(Id::new(9));
    assert_eq!(result.enabled, vec![Module::Nom]);
    let rows = store.list_records(Id::new(9));
    assert_eq!(rows.len(), 1);
    assert_eq!(rows[0].id, first);
}

#[test]
fn reconcile_removes_unknown_rows() {
    let mut store = ModuleStore::new();
    store.import_record(Id::new(9), String::from("removed_module"));
    let result = store.reconcile(Id::new(9));
    assert!(result.enabled.is_empty());
    assert_eq!(result.removed.len(), 1);
    assert!(store.list_records(Id::new(9)).is_empty());
}

#[test]
fn enable_list_disable_scenario() {
    let mut store = ModuleStore::new();
    store.enable(Id::new(42), Module::Nom);
    assert_eq!(store.list(Id::new(42)), "nom");
    store.disable(Id::new(42), Module::Nom);
    assert_eq!(store.list(Id::new(42)), "*None*");
    let again = store.disable(Id::new(42), Module::Nom);
    assert!(again.enabled.is_empty());
    assert_eq!(store.list(Id::new(42)), "*None*");
}

#[test]
fn duplicate_and_unknown_rows_scenario() {
    let mut store = ModuleStore::new();
    store.import_record(Id::new(7), String::from("nom"));
    store.import_record(Id::new(7), String::from("nom"));
    store.import_record(Id::new(7), String::from("legacy_unknown"));
    let result = store.reconcile(Id::new(7));
    assert_eq!(result.enabled, vec![Module::Nom]);
    assert_eq!(modules_of(&store, 7), vec![String::from("nom")]);
}

#[test]
fn racing_inserts_leave_one_row() {
    let mut store = ModuleStore::new();
    assert_eq!(store.insert_record(Id::new(1), Module::Nom), Ok(()));
    assert_eq!(store.insert_record(Id::new(1), Module::Nom), Err(StoreError::Conflict));
    assert_eq!(modules_of(&store, 1), vec![String::from("nom")]);
    let result = store.enable(Id::new(1), Module::Nom);
    assert_eq!(result.enabled, vec![Module::Nom]);
}

#[test]
fn other_guilds_are_left_alone() {
    let mut store = ModuleStore::new();
    store.import_record(Id::new(1), String::from("nom"));
    store.import_record(Id::new(1), String::from("nom"));
    store.import_record(Id::new(2), String::from("legacy_unknown"));
    store.reconcile(Id::new(1));
    assert_eq!(modules_of(&store, 1), vec![String::from("nom")]);
    assert_eq!(modules_of(&store, 2), vec![String::from("legacy_unknown")]);
}

#[test]
fn delete_by_id_removes_one_row() {
    let mut store = ModuleStore::new();
    let a = store.import_record(Id::new(1), String::from("nom"));
    let b = store.import_record(Id::new(1), String::from("nom"));
    assert_ne!(a, b);
    store.delete_record_by_id(a);
    let rows = store.list_records(Id::new(1));
    assert_eq!(rows.len(), 1);
    assert_eq!(rows[0].id, b);
    store.delete_record_by_id(a);
    assert_eq!(store.list_records(Id::new(1)).len(), 1);
}

#[test]
fn delete_record_removes_every_matching_row() {
    let mut store = ModuleStore::new();
    store.import_record(Id::new(1), String::from("nom"));
    store.import_record(Id::new(1), String::from("nom"));
    assert_eq!(store.delete_record(Id::new(1), Module::Nom), Ok(()));
    assert!(store.list_records(Id::new(1)).is_empty());
}

#[test]
fn store_has_room_for_new_rows() {
    assert!(ModuleStore::new().has_room());
}
