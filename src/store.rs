//! The enablement store: rows of (id, guild, module), an insert guarded by
//! the one-row-per-guild-and-module constraint, deletes, and the repair of a
//! guild's rows, held in memory with the same contract as the database table.

use vstd::prelude::*;

use crate::id::Id;
use crate::modules::{module_name, Module};
use crate::reconcile::{
    command_set, format_module_list, module_list_text, reconcile_records, record_views, walk,
    ModuleRecord, Reconciliation, RecordView,
};

verus! {

/// Why a store operation declined.
#[derive(Clone, Copy, Debug, PartialEq, Eq, Structural)]
pub enum StoreError {
    /// An enabled row for the guild and module already exists.
    Conflict,
    /// No row for the guild and module exists.
    NotFound,
}

/// The rows of a store, in storage order, and the id its next row gets.
pub struct StoreView {
    pub rows: Seq<RecordView>,
    pub next_id: i64,
}

/// Row ids lie in `0..bound` and grow strictly along the rows, so no two
/// rows share an id.
pub open spec fn ids_ordered_below(rows: Seq<RecordView>, bound: int) -> bool {
    &&& forall|i: int| 0 <= i < rows.len() ==> 0 <= #[trigger] rows[i].id < bound
    &&& forall|i: int, j: int| 0 <= i < j < rows.len() ==> rows[i].id < rows[j].id
}

pub open spec fn store_well_formed(s: StoreView) -> bool {
    0 <= s.next_id && ids_ordered_below(s.rows, s.next_id as int)
}

/// How many rows enable the module stored as `name` for `guild`.
pub open spec fn count_rows(rows: Seq<RecordView>, guild: u64, name: Seq<char>) -> nat
    decreases rows.len(),
{
    if rows.len() == 0 {
        0
    } else {
        count_rows(rows.drop_last(), guild, name) + if rows.last().guild == guild
            && rows.last().module == name {
            1nat
        } else {
            0nat
        }
    }
}

/// Whether some row enables the module stored as `name` for `guild`.
pub open spec fn has_row(rows: Seq<RecordView>, guild: u64, name: Seq<char>) -> bool {
    count_rows(rows, guild, name) > 0
}

/// The rows of `guild`, in storage order.
pub open spec fn guild_rows(rows: Seq<RecordView>, guild: u64) -> Seq<RecordView>
    decreases rows.len(),
{
    if rows.len() == 0 {
        seq![]
    } else if rows.last().guild == guild {
        guild_rows(rows.drop_last(), guild).push(rows.last())
    } else {
        guild_rows(rows.drop_last(), guild)
    }
}

/// `rows` without those that enable the module stored as `name` for `guild`.
pub open spec fn without_module(rows: Seq<RecordView>, guild: u64, name: Seq<char>) -> Seq<
    RecordView,
>
    decreases rows.len(),
{
    if rows.len() == 0 {
        seq![]
    } else if rows.last().guild == guild && rows.last().module == name {
        without_module(rows.drop_last(), guild, name)
    } else {
        without_module(rows.drop_last(), guild, name).push(rows.last())
    }
}

/// `rows` without the row whose id is `id`.
pub open spec fn without_id(rows: Seq<RecordView>, id: i64) -> Seq<RecordView>
    decreases rows.len(),
{
    if rows.len() == 0 {
        seq![]
    } else if rows.last().id == id {
        without_id(rows.drop_last(), id)
    } else {
        without_id(rows.drop_last(), id).push(rows.last())
    }
}

/// The rows whose flag in `keep` is set, in order.
pub open spec fn selected(rows: Seq<RecordView>, keep: Seq<bool>) -> Seq<RecordView>
    decreases rows.len(),
{
    if rows.len() == 0 || keep.len() == 0 {
        seq![]
    } else if keep.last() {
        selected(rows.drop_last(), keep.drop_last()).push(rows.last())
    } else {
        selected(rows.drop_last(), keep.drop_last())
    }
}

/// The rows left once the repair of `guild` has deleted invalid and
/// repeated rows.
pub open spec fn repaired(rows: Seq<RecordView>, guild: u64) -> Seq<RecordView> {
    selected(rows, walk(rows, guild).keep)
}

/// The store after an insert of `kind` for `guild`: unchanged where a row
/// for them exists, else with one new row under the next id.
pub open spec fn inserted(s: StoreView, guild: u64, kind: Module) -> StoreView {
    if has_row(s.rows, guild, module_name(kind)) {
        s
    } else {
        StoreView {
            rows: s.rows.push(RecordView { id: s.next_id, guild, module: module_name(kind) }),
            next_id: (s.next_id + 1) as i64,
        }
    }
}

/// What inserting `kind` for `guild` reports.
pub open spec fn insert_outcome(s: StoreView, guild: u64, kind: Module) -> Result<(), StoreError> {
    if has_row(s.rows, guild, module_name(kind)) {
        Err(StoreError::Conflict)
    } else {
        Ok(())
    }
}

/// The store after the repair of `guild`.
pub open spec fn reconciled(s: StoreView, guild: u64) -> StoreView {
    StoreView { rows: repaired(s.rows, guild), next_id: s.next_id }
}

/// The store after `kind` is enabled for `guild` and the guild repaired.
pub open spec fn enabled_state(s: StoreView, guild: u64, kind: Module) -> StoreView {
    reconciled(inserted(s, guild, kind), guild)
}

/// The store after `kind` is disabled for `guild` and the guild repaired.
pub open spec fn disabled_state(s: StoreView, guild: u64, kind: Module) -> StoreView {
    reconciled(
        StoreView { rows: without_module(s.rows, guild, module_name(kind)), next_id: s.next_id },
        guild,
    )
}

/// The modules `guild` has enabled in a store, as the repair finds them.
pub open spec fn enabled_modules(s: StoreView, guild: u64) -> Seq<Module> {
    walk(s.rows, guild).enabled
}

proof fn lemma_push_ordered(rows: Seq<RecordView>, row: RecordView, bound: int)
    requires
        ids_ordered_below(rows, row.id as int),
        0 <= row.id < bound,
    ensures
        ids_ordered_below(rows.push(row), bound),
{
    let pushed = rows.push(row);
    assert forall|i: int| 0 <= i < pushed.len() implies 0 <= #[trigger] pushed[i].id < bound by {
        if i < rows.len() {
            assert(pushed[i] == rows[i]);
        }
    }
    assert forall|i: int, j: int| 0 <= i < j < pushed.len() implies pushed[i].id
        < pushed[j].id by {
        assert(pushed[i] == rows[i]);
        if j < rows.len() {
            assert(pushed[j] == rows[j]);
        }
    }
}

/// The rows before the last all have ids below the last one's.
proof fn lemma_prefix_ordered(rows: Seq<RecordView>, bound: int)
    requires
        ids_ordered_below(rows, bound),
        rows.len() > 0,
    ensures
        ids_ordered_below(rows.drop_last(), rows.last().id as int),
        0 <= rows.last().id < bound,
{
    let prefix = rows.drop_last();
    assert forall|i: int| 0 <= i < prefix.len() implies 0 <= #[trigger] prefix[i].id
        < rows.last().id by {
        assert(prefix[i] == rows[i]);
        assert(rows[i].id < rows[rows.len() - 1].id);
    }
    assert forall|i: int, j: int| 0 <= i < j < prefix.len() implies prefix[i].id
        < prefix[j].id by {
        assert(prefix[i] == rows[i]);
        assert(prefix[j] == rows[j]);
    }
    assert(rows.last() == rows[rows.len() - 1]);
}

proof fn lemma_ordered_weaken(rows: Seq<RecordView>, low: int, high: int)
    requires
        ids_ordered_below(rows, low),
        low <= high,
    ensures
        ids_ordered_below(rows, high),
{
}

proof fn lemma_selected_ordered(rows: Seq<RecordView>, keep: Seq<bool>, bound: int)
    requires
        ids_ordered_below(rows, bound),
    ensures
        ids_ordered_below(selected(rows, keep), bound),
    decreases rows.len(),
{
    if rows.len() > 0 && keep.len() > 0 {
        lemma_prefix_ordered(rows, bound);
        let last = rows.last().id as int;
        lemma_selected_ordered(rows.drop_last(), keep.drop_last(), last);
        if keep.last() {
            lemma_push_ordered(selected(rows.drop_last(), keep.drop_last()), rows.last(), bound);
        } else {
            lemma_ordered_weaken(selected(rows.drop_last(), keep.drop_last()), last, bound);
        }
    }
}

proof fn lemma_without_module_ordered(
    rows: Seq<RecordView>,
    guild: u64,
    name: Seq<char>,
    bound: int,
)
    requires
        ids_ordered_below(rows, bound),
    ensures
        ids_ordered_below(without_module(rows, guild, name), bound),
    decreases rows.len(),
{
    if rows.len() > 0 {
        lemma_prefix_ordered(rows, bound);
        let last = rows.last().id as int;
        let rest = without_module(rows.drop_last(), guild, name);
        lemma_without_module_ordered(rows.drop_last(), guild, name, last);
        if rows.last().guild == guild && rows.last().module == name {
            lemma_ordered_weaken(rest, last, bound);
        } else {
            lemma_push_ordered(rest, rows.last(), bound);
        }
    }
}

proof fn lemma_without_id_ordered(rows: Seq<RecordView>, id: i64, bound: int)
    requires
        ids_ordered_below(rows, bound),
    ensures
        ids_ordered_below(without_id(rows, id), bound),
    decreases rows.len(),
{
    if rows.len() > 0 {
        lemma_prefix_ordered(rows, bound);
        let last = rows.last().id as int;
        let rest = without_id(rows.drop_last(), id);
        lemma_without_id_ordered(rows.drop_last(), id, last);
        if rows.last().id == id {
            lemma_ordered_weaken(rest, last, bound);
        } else {
            lemma_push_ordered(rest, rows.last(), bound);
        }
    }
}

pub proof fn lemma_walk_keep_len(rows: Seq<RecordView>, guild: u64)
    ensures
        walk(rows, guild).keep.len() == rows.len(),
    decreases rows.len(),
{
    if rows.len() > 0 {
        lemma_walk_keep_len(rows.drop_last(), guild);
    }
}

/// After the repair, walking the rows again finds the same modules and
/// nothing more to delete.
pub proof fn lemma_repaired_walk(rows: Seq<RecordView>, guild: u64)
    ensures
        walk(repaired(rows, guild), guild).enabled == walk(rows, guild).enabled,
        walk(repaired(rows, guild), guild).removed.len() == 0,
    decreases rows.len(),
{
    lemma_walk_keep_len(rows, guild);
    if rows.len() > 0 {
        let prefix = rows.drop_last();
        lemma_repaired_walk(prefix, guild);
        lemma_walk_keep_len(prefix, guild);
        assert(walk(rows, guild).keep.drop_last() =~= walk(prefix, guild).keep);
        let sel = repaired(prefix, guild);
        if walk(rows, guild).keep.last() {
            assert(repaired(rows, guild) == sel.push(rows.last()));
            assert(repaired(rows, guild).drop_last() =~= sel);
        } else {
            assert(repaired(rows, guild) == sel);
        }
    }
}

/// A store of module enablement rows held in memory, with the constraint
/// that at most one row per guild and module is inserted.
pub struct ModuleStore {
    records: Vec<ModuleRecord>,
    next_id: i64,
}

impl View for ModuleStore {
    type V = StoreView;

    closed spec fn view(&self) -> StoreView {
        StoreView { rows: record_views(self.records@), next_id: self.next_id }
    }
}

impl ModuleStore {
    pub fn new() -> (r: ModuleStore)
        ensures
            r@.rows == Seq::<RecordView>::empty(),
            r@.next_id == 0,
            store_well_formed(r@),
    {
        let r = ModuleStore { records: Vec::new(), next_id: 0 };
        assert(r@.rows =~= Seq::<RecordView>::empty());
        r
    }

    /// Whether another row can be given a fresh id.
    pub fn has_room(&self) -> (r: bool)
        ensures
            r == (self@.next_id < i64::MAX),
    {
        self.next_id < i64::MAX
    }

    /// Stores a row as it is given, without the uniqueness check, as rows
    /// written by earlier versions or removed modules were. Returns its id.
    pub fn import_record(&mut self, guild: Id, module: String) -> (r: i64)
        requires
            store_well_formed(old(self)@),
            old(self)@.next_id < i64::MAX,
        ensures
            r == old(self)@.next_id,
            final(self)@.rows == old(self)@.rows.push(
                RecordView { id: r, guild: guild@, module: module@ },
            ),
            final(self)@.next_id == old(self)@.next_id + 1,
            store_well_formed(final(self)@),
    {
        let id = self.next_id;
        self.records.push(ModuleRecord::new(id, guild, module));
        self.next_id = id + 1;
        assert(self@.rows =~= old(self)@.rows.push(
            RecordView { id, guild: guild@, module: module@ },
        ));
        proof {
            lemma_ordered_weaken(old(self)@.rows, old(self)@.next_id as int, id as int);
            lemma_push_ordered(
                old(self)@.rows,
                RecordView { id, guild: guild@, module: module@ },
                self.next_id as int,
            );
        }
        id
    }

    /// All rows of `guild`, in storage order.
    pub fn list_records(&self, guild: Id) -> (r: Vec<ModuleRecord>)
        ensures
            record_views(r@) == guild_rows(self@.rows, guild@),
    {
        let ghost rows = self@.rows;
        let mut r: Vec<ModuleRecord> = Vec::new();
        let mut i: usize = 0;
        while i < self.records.len()
            invariant
                i <= self.records.len(),
                rows == record_views(self.records@),
                record_views(r@) == guild_rows(rows.take(i as int), guild@),
            decreases self.records.len() - i,
        {
            let record = &self.records[i];
            assert(rows.take(i + 1).drop_last() =~= rows.take(i as int));
            assert(rows.take(i + 1).last() == record@);
            if record.guild.get() == guild.get() {
                r.push(record.duplicate());
            }
            assert(record_views(r@) =~= guild_rows(rows.take(i + 1), guild@));
            i = i + 1;
        }
        assert(rows.take(self.records.len() as int) =~= rows);
        r
    }

    fn has_module_row(&self, guild: Id, kind: Module) -> (r: bool)
        ensures
            r == has_row(self@.rows, guild@, module_name(kind)),
    {
        let ghost rows = self@.rows;
        let name = kind.to_string();
        let mut found = false;
        let mut i: usize = 0;
        while i < self.records.len()
            invariant
                i <= self.records.len(),
                rows == record_views(self.records@),
                name@ == module_name(kind),
                found == has_row(rows.take(i as int), guild@, module_name(kind)),
            decreases self.records.len() - i,
        {
            let record = &self.records[i];
            assert(rows.take(i + 1).drop_last() =~= rows.take(i as int));
            assert(rows.take(i + 1).last() == record@);
            if record.guild.get() == guild.get() && record.module == name {
                found = true;
            }
            i = i + 1;
        }
        assert(rows.take(self.records.len() as int) =~= rows);
        found
    }

    /// Inserts the row enabling `kind` for `guild`, unless one exists:
    /// then the store is unchanged and the insert reports a conflict.
    pub fn insert_record(&mut self, guild: Id, kind: Module) -> (r: Result<(), StoreError>)
        requires
            store_well_formed(old(self)@),
            old(self)@.next_id < i64::MAX,
        ensures
            final(self)@ == inserted(old(self)@, guild@, kind),
            r == insert_outcome(old(self)@, guild@, kind),
            store_well_formed(final(self)@),
    {
        if self.has_module_row(guild, kind) {
            return Err(StoreError::Conflict);
        }
        self.import_record(guild, kind.to_string());
        Ok(())
    }

    /// Deletes every row enabling `kind` for `guild`; reports that none
    /// existed, if so.
    pub fn delete_record(&mut self, guild: Id, kind: Module) -> (r: Result<(), StoreError>)
        requires
            store_well_formed(old(self)@),
        ensures
            final(self)@.rows == without_module(old(self)@.rows, guild@, module_name(kind)),
            final(self)@.next_id == old(self)@.next_id,
            r == if has_row(old(self)@.rows, guild@, module_name(kind)) {
                Ok::<(), StoreError>(())
            } else {
                Err::<(), StoreError>(StoreError::NotFound)
            },
            store_well_formed(final(self)@),
    {
        let ghost rows = self@.rows;
        let name = kind.to_string();
        let mut kept: Vec<ModuleRecord> = Vec::new();
        let mut found = false;
        let mut i: usize = 0;
        while i < self.records.len()
            invariant
                i <= self.records.len(),
                rows == record_views(self.records@),
                name@ == module_name(kind),
                found == has_row(rows.take(i as int), guild@, module_name(kind)),
                record_views(kept@) == without_module(
                    rows.take(i as int),
                    guild@,
                    module_name(kind),
                ),
            decreases self.records.len() - i,
        {
            let record = &self.records[i];
            assert(rows.take(i + 1).drop_last() =~= rows.take(i as int));
            assert(rows.take(i + 1).last() == record@);
            if record.guild.get() == guild.get() && record.module == name {
                found = true;
            } else {
                kept.push(record.duplicate());
            }
            assert(record_views(kept@) =~= without_module(
                rows.take(i + 1),
                guild@,
                module_name(kind),
            ));
            i = i + 1;
        }
        assert(rows.take(self.records.len() as int) =~= rows);
        self.records = kept;
        proof {
            lemma_without_module_ordered(rows, guild@, module_name(kind), self.next_id as int);
        }
        if found {
            Ok(())
        } else {
            Err(StoreError::NotFound)
        }
    }

    /// Deletes the one row whose id is `id`, if there is one.
    pub fn delete_record_by_id(&mut self, id: i64)
        requires
            store_well_formed(old(self)@),
        ensures
            final(self)@.rows == without_id(old(self)@.rows, id),
            final(self)@.next_id == old(self)@.next_id,
            store_well_formed(final(self)@),
    {
        let ghost rows = self@.rows;
        let mut kept: Vec<ModuleRecord> = Vec::new();
        let mut i: usize = 0;
        while i < self.records.len()
            invariant
                i <= self.records.len(),
                rows == record_views(self.records@),
                record_views(kept@) == without_id(rows.take(i as int), id),
            decreases self.records.len() - i,
        {
            let record = &self.records[i];
            assert(rows.take(i + 1).drop_last() =~= rows.take(i as int));
            assert(rows.take(i + 1).last() == record@);
            if record.id != id {
                kept.push(record.duplicate());
            }
            assert(record_views(kept@) =~= without_id(rows.take(i + 1), id));
            i = i + 1;
        }
        assert(rows.take(self.records.len() as int) =~= rows);
        self.records = kept;
        proof {
            lemma_without_id_ordered(rows, id, self.next_id as int);
        }
    }

    /// Repairs the rows of `guild`: deletes rows naming no known module and
    /// all but the first row of each module, and returns what the guild has
    /// enabled and the commands it should see. Rows of other guilds are left
    /// alone.
    pub fn reconcile(&mut self, guild: Id) -> (r: Reconciliation)
        requires
            store_well_formed(old(self)@),
        ensures
            final(self)@ == reconciled(old(self)@, guild@),
            store_well_formed(final(self)@),
            r.enabled@ == enabled_modules(old(self)@, guild@),
            r.removed@ == walk(old(self)@.rows, guild@).removed,
            r.keep@ == walk(old(self)@.rows, guild@).keep,
            r.commands@ == command_set(r.enabled@),
    {
        let ghost rows = self@.rows;
        let plan = reconcile_records(guild, &self.records);
        proof {
            lemma_walk_keep_len(rows, guild@);
        }
        let mut kept: Vec<ModuleRecord> = Vec::new();
        let mut i: usize = 0;
        while i < self.records.len()
            invariant
                i <= self.records.len(),
                rows == record_views(self.records@),
                plan.keep@ == walk(rows, guild@).keep,
                plan.keep@.len() == rows.len(),
                record_views(kept@) == selected(rows.take(i as int), plan.keep@.take(i as int)),
            decreases self.records.len() - i,
        {
            assert(rows.take(i + 1).drop_last() =~= rows.take(i as int));
            assert(plan.keep@.take(i + 1).drop_last() =~= plan.keep@.take(i as int));
            assert(rows.take(i + 1).last() == self.records@[i as int]@);
            if plan.keep[i] {
                kept.push(self.records[i].duplicate());
            }
            assert(record_views(kept@) =~= selected(
                rows.take(i + 1),
                plan.keep@.take(i + 1),
            ));
            i = i + 1;
        }
        assert(rows.take(self.records.len() as int) =~= rows);
        assert(plan.keep@.take(self.records.len() as int) =~= plan.keep@);
        self.records = kept;
        proof {
            lemma_selected_ordered(rows, plan.keep@, self.next_id as int);
        }
        plan
    }

    /// Enables `kind` for `guild`; an existing row makes this a no-op. Then
    /// repairs the guild and returns its enabled modules and commands.
    pub fn enable(&mut self, guild: Id, kind: Module) -> (r: Reconciliation)
        requires
            store_well_formed(old(self)@),
            old(self)@.next_id < i64::MAX,
        ensures
            final(self)@ == enabled_state(old(self)@, guild@, kind),
            store_well_formed(final(self)@),
            r.enabled@ == enabled_modules(inserted(old(self)@, guild@, kind), guild@),
            r.commands@ == command_set(r.enabled@),
    {
        // A conflict means the module is already enabled.
        let _ = self.insert_record(guild, kind);
        self.reconcile(guild)
    }

    /// Disables `kind` for `guild`; no row to delete makes this a no-op.
    /// Then repairs the guild and returns its enabled modules and commands.
    pub fn disable(&mut self, guild: Id, kind: Module) -> (r: Reconciliation)
        requires
            store_well_formed(old(self)@),
        ensures
            final(self)@ == disabled_state(old(self)@, guild@, kind),
            store_well_formed(final(self)@),
            r.enabled@ == enabled_modules(disabled_state(old(self)@, guild@, kind), guild@),
            r.commands@ == command_set(r.enabled@),
    {
        // Nothing to delete means the module was not enabled.
        let _ = self.delete_record(guild, kind);
        let r = self.reconcile(guild);
        proof {
            lemma_repaired_walk(without_module(old(self)@.rows, guild@, module_name(kind)), guild@);
        }
        r
    }

    /// Repairs `guild` and shows its enabled modules.
    pub fn list(&mut self, guild: Id) -> (r: String)
        requires
            store_well_formed(old(self)@),
        ensures
            final(self)@ == reconciled(old(self)@, guild@),
            store_well_formed(final(self)@),
            r@ == module_list_text(enabled_modules(old(self)@, guild@)),
    {
        let plan = self.reconcile(guild);
        format_module_list(&plan.enabled)
    }
}

} // verus!
