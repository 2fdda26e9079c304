//! The repair of a guild's persisted rows and the command set that follows.

use vstd::prelude::*;
use vstd::string::*;

use crate::id::Id;
use crate::modules::{
    get_global_commands, global_commands, module_commands, module_name, module_named, Command,
    Module,
};

verus! {

/// One persisted enablement row: `module` is enabled for `guild`. The module
/// is kept as the stored text, since rows written by removed modules, or
/// otherwise invalid, must be read and repaired rather than rejected.
pub struct ModuleRecord {
    pub id: i64,
    pub guild: Id,
    pub module: String,
}

/// What a row holds, as plain values.
pub struct RecordView {
    pub id: i64,
    pub guild: u64,
    pub module: Seq<char>,
}

impl View for ModuleRecord {
    type V = RecordView;

    open spec fn view(&self) -> RecordView {
        RecordView { id: self.id, guild: self.guild@, module: self.module@ }
    }
}

impl ModuleRecord {
    pub fn new(id: i64, guild: Id, module: String) -> (r: ModuleRecord)
        ensures
            r.id == id,
            r.guild == guild,
            r.module == module,
    {
        ModuleRecord { id, guild, module }
    }

    /// A copy of this row.
    pub fn duplicate(&self) -> (r: ModuleRecord)
        ensures
            r@ == self@,
    {
        ModuleRecord { id: self.id, guild: self.guild, module: self.module.clone() }
    }
}

pub open spec fn record_views(records: Seq<ModuleRecord>) -> Seq<RecordView> {
    records.map_values(|r: ModuleRecord| r@)
}

/// The outcome of walking a guild's rows once, in order.
pub struct Walk {
    /// For each row, whether it survives the repair. Rows of other guilds
    /// always survive.
    pub keep: Seq<bool>,
    /// The guild's valid modules, each once, in order of first occurrence.
    pub enabled: Seq<Module>,
    /// The ids of the guild's rows that the repair deletes: rows naming no
    /// known module, and repeats of a module already seen.
    pub removed: Seq<i64>,
}

/// Walks `rows` from first to last, accepting the first row of each known
/// module of `guild` and rejecting the guild's other rows.
pub open spec fn walk(rows: Seq<RecordView>, guild: u64) -> Walk
    decreases rows.len(),
{
    if rows.len() == 0 {
        Walk { keep: seq![], enabled: seq![], removed: seq![] }
    } else {
        let before = walk(rows.drop_last(), guild);
        let row = rows.last();
        if row.guild != guild {
            Walk { keep: before.keep.push(true), ..before }
        } else if module_named(row.module) is Some && !before.enabled.contains(
            module_named(row.module).unwrap(),
        ) {
            Walk {
                keep: before.keep.push(true),
                enabled: before.enabled.push(module_named(row.module).unwrap()),
                removed: before.removed,
            }
        } else {
            Walk { keep: before.keep.push(false), removed: before.removed.push(row.id), ..before }
        }
    }
}

/// The commands contributed by `modules`, module by module.
pub open spec fn modules_commands(modules: Seq<Module>) -> Seq<Command>
    decreases modules.len(),
{
    if modules.len() == 0 {
        seq![]
    } else {
        modules_commands(modules.drop_last()) + module_commands(modules.last())
    }
}

/// The full command set of a guild with `enabled` modules: the global
/// commands, then each module's commands.
pub open spec fn command_set(enabled: Seq<Module>) -> Seq<Command> {
    global_commands() + modules_commands(enabled)
}

/// Module names separated by a comma and a space.
pub open spec fn joined_names(modules: Seq<Module>) -> Seq<char>
    decreases modules.len(),
{
    if modules.len() <= 1 {
        if modules.len() == 0 {
            seq![]
        } else {
            module_name(modules[0])
        }
    } else {
        joined_names(modules.drop_last()) + ", "@ + module_name(modules.last())
    }
}

/// How a list of enabled modules is shown: the names joined, or a marker
/// when there are none.
pub open spec fn module_list_text(modules: Seq<Module>) -> Seq<char> {
    if modules.len() == 0 {
        "*None*"@
    } else {
        joined_names(modules)
    }
}

/// The result of reconciling one guild's rows.
pub struct Reconciliation {
    pub enabled: Vec<Module>,
    pub removed: Vec<i64>,
    pub keep: Vec<bool>,
    pub commands: Vec<Command>,
}

fn contains_module(modules: &Vec<Module>, m: Module) -> (r: bool)
    ensures
        r == modules@.contains(m),
{
    let mut i: usize = 0;
    while i < modules.len()
        invariant
            i <= modules.len(),
            forall|j: int| 0 <= j < i ==> modules@[j] != m,
        decreases modules.len() - i,
    {
        if modules[i] == m {
            assert(modules@[i as int] == m);
            return true;
        }
        i = i + 1;
    }
    false
}

/// The command set of a guild whose enabled modules are `enabled`.
pub fn build_command_set(enabled: &Vec<Module>) -> (r: Vec<Command>)
    ensures
        r@ == command_set(enabled@),
{
    let mut r = get_global_commands();
    let mut i: usize = 0;
    while i < enabled.len()
        invariant
            i <= enabled.len(),
            r@ == global_commands() + modules_commands(enabled@.take(i as int)),
        decreases enabled.len() - i,
    {
        enabled[i].append_commands(&mut r);
        assert(enabled@.take(i + 1).drop_last() =~= enabled@.take(i as int));
        assert(r@ =~= global_commands() + modules_commands(enabled@.take(i + 1)));
        i = i + 1;
    }
    assert(enabled@.take(enabled.len() as int) =~= enabled@);
    r
}

/// Walks `records` once and decides the repair for `guild`: which rows stay,
/// which row ids are deleted, which modules are enabled and which commands
/// the guild should see. Of several rows for one module the first stays;
/// rows of other guilds are left alone.
pub fn reconcile_records(guild: Id, records: &Vec<ModuleRecord>) -> (r: Reconciliation)
    ensures
        r.keep@ == walk(record_views(records@), guild@).keep,
        r.enabled@ == walk(record_views(records@), guild@).enabled,
        r.removed@ == walk(record_views(records@), guild@).removed,
        r.commands@ == command_set(r.enabled@),
{
    let ghost rows = record_views(records@);
    let mut keep: Vec<bool> = Vec::new();
    let mut enabled: Vec<Module> = Vec::new();
    let mut removed: Vec<i64> = Vec::new();
    let mut i: usize = 0;
    while i < records.len()
        invariant
            i <= records.len(),
            rows == record_views(records@),
            keep@ == walk(rows.take(i as int), guild@).keep,
            enabled@ == walk(rows.take(i as int), guild@).enabled,
            removed@ == walk(rows.take(i as int), guild@).removed,
        decreases records.len() - i,
    {
        let record = &records[i];
        assert(rows.take(i + 1).drop_last() =~= rows.take(i as int));
        assert(rows.take(i + 1).last() == record@);
        if record.guild.get() != guild.get() {
            keep.push(true);
        } else {
            match Module::from_name(record.module.as_str()) {
                Some(m) => {
                    if contains_module(&enabled, m) {
                        keep.push(false);
                        removed.push(record.id);
                    } else {
                        keep.push(true);
                        enabled.push(m);
                    }
                },
                None => {
                    keep.push(false);
                    removed.push(record.id);
                },
            }
        }
        i = i + 1;
    }
    assert(rows.take(records.len() as int) =~= rows);
    let commands = build_command_set(&enabled);
    Reconciliation { enabled, removed, keep, commands }
}

/// Shows `modules` to a user: their names joined by commas, or `*None*`.
pub fn format_module_list(modules: &Vec<Module>) -> (r: String)
    ensures
        r@ == module_list_text(modules@),
{
    if modules.len() == 0 {
        return String::from_str("*None*");
    }
    let mut text = String::new();
    let mut i: usize = 0;
    while i < modules.len()
        invariant
            i <= modules.len(),
            i == 0 ==> text@ == Seq::<char>::empty(),
            i > 0 ==> text@ == joined_names(modules@.take(i as int)),
        decreases modules.len() - i,
    {
        assert(modules@.take(i + 1).drop_last() =~= modules@.take(i as int));
        if i > 0 {
            text.append(", ");
        }
        text.append(modules[i].name());
        proof {
            if i == 0 {
                assert(text@ =~= module_name(modules@[0]));
            } else {
                assert(text@ =~= joined_names(modules@.take(i + 1)));
            }
        }
        i = i + 1;
    }
    assert(modules@.take(modules.len() as int) =~= modules@);
    text
}

} // verus!
