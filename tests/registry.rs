use autochroma::id::Id;
use autochroma::modules::{get_global_commands, Command, Module, ModuleImpl, Nom, Test};
use autochroma::reconcile::{build_command_set, format_module_list, reconcile_records, ModuleRecord};

fn record(id: i64, guild: u64, module: &str) -> ModuleRecord {
    ModuleRecord::new(id, Id::new(guild), String::from(module))
}

#[test]
fn module_names_round_trip() {
    assert_eq!(Module::Nom.name(), "nom");
    assert_eq!(Module::Nom.to_string(), "nom");
    assert_eq!(Module::from_name("nom"), Some(Module::Nom));
    assert_eq!(Module::from_name("Nom"), None);
    assert_eq!(Module::from_name("legacy_unknown"), None);
    assert_eq!(Module::from_name(""), None);
    assert!(Module::is_known("nom"));
    assert!(!Module::is_known("test"));
}

#[test]
fn module_commands_come_from_the_catalogue() {
    assert_eq!(Module::Nom.commands(), vec![Command::Nom]);
    let mut commands = vec![Command::Uptime];
    Test::append_commands(&mut commands);
    Nom::append_commands(&mut commands);
    assert_eq!(commands, vec![Command::Uptime, Command::Test, Command::Nom]);
    assert_eq!(Nom::name(), "nom");
    assert_eq!(Test::name(), "test");
}

#[test]
fn global_commands_are_fixed() {
    assert_eq!(
        get_global_commands(),
        vec![Command::Module, Command::ServerInfo, Command::Uptime]
    );
}

#[test]
fn command_set_starts_with_global_commands() {
    assert_eq!(build_command_set(&vec![]), get_global_commands());
    assert_eq!(
        build_command_set(&vec![Module::Nom]),
        vec![Command::Module, Command::ServerInfo, Command::Uptime, Command::Nom]
    );
}

#[test]
fn module_list_formatting() {
    assert_eq!(format_module_list(&vec![]), "*None*");
    assert_eq!(format_module_list(&vec![Module::Nom]), "nom");
    assert_eq!(format_module_list(&vec![Module::Nom, Module::Nom]), "nom, nom");
}

#[test]
fn id_database_encoding() {
    assert_eq!(Id::new(42).get(), 42);
    assert_eq!(Id::from_database(-1).get(), u64::MAX);
    assert_eq!(Id::from_database(i64::MIN).get(), 1u64 << 63);
    assert_eq!(Id::from_database(7).get(), 7);
    assert_eq!(Id::new(u64::MAX).to_database(), -1);
    assert_eq!(Id::new(1u64 << 63).to_database(), i64::MIN);
    assert_eq!(Id::new(1234).to_database(), 1234);
    let big = Id::new(18_000_000_000_000_000_000);
    assert_eq!(Id::from_database(big.to_database()), big);
}

#[test]
fn reconcile_records_plans_the_repair() {
    let records = vec![
        record(10, 7, "nom"),
        record(11, 8, "nom"),
        record(12, 7, "nom"),
        record(13, 7, "legacy_unknown"),
        record(14, 8, "legacy_unknown"),
    ];
    let plan = reconcile_records(Id::new(7), &records);
    assert_eq!(plan.enabled, vec![Module::Nom]);
    assert_eq!(plan.removed, vec![12, 13]);
    assert_eq!(plan.keep, vec![true, true, false, false, true]);
    assert_eq!(plan.commands, build_command_set(&vec![Module::Nom]));
}

#[test]
fn reconcile_records_with_nothing_enabled() {
    let plan = reconcile_records(Id::new(5), &vec![record(1, 5, "gone")]);
    assert!(plan.enabled.is_empty());
    assert_eq!(plan.removed, vec![1]);
    assert_eq!(plan.commands, get_global_commands());
    let plan = reconcile_records(Id::new(5), &vec![]);
    assert!(plan.enabled.is_empty());
    assert!(plan.removed.is_empty());
    assert!(plan.keep.is_empty());
}
