//! Properties of enabling, disabling and repairing that hold of every store.

use vstd::prelude::*;

use crate::modules::{module_name, module_named, Module};
use crate::reconcile::{walk, RecordView};
use crate::store::{
    count_rows, disabled_state, enabled_modules, enabled_state, has_row, insert_outcome,
    inserted, lemma_repaired_walk, reconciled, repaired, store_well_formed, without_module,
    StoreError, StoreView,
};

verus! {

proof fn lemma_named_is_name(name: Seq<char>, m: Module)
    ensures
        module_named(name) == Some(m) <==> name == module_name(m),
{
}

proof fn lemma_count_push(rows: Seq<RecordView>, row: RecordView, guild: u64, name: Seq<char>)
    ensures
        count_rows(rows.push(row), guild, name) == count_rows(rows, guild, name) + if row.guild
            == guild && row.module == name {
            1nat
        } else {
            0nat
        },
{
    assert(rows.push(row).drop_last() =~= rows);
}

/// The repair's walk finds a module enabled exactly when some row of the
/// guild names it.
proof fn lemma_walk_finds_rows(rows: Seq<RecordView>, guild: u64, m: Module)
    ensures
        walk(rows, guild).enabled.contains(m) <==> has_row(rows, guild, module_name(m)),
    decreases rows.len(),
{
    if rows.len() > 0 {
        lemma_walk_finds_rows(rows.drop_last(), guild, m);
        lemma_named_is_name(rows.last().module, m);
        let before = walk(rows.drop_last(), guild).enabled;
        let after = walk(rows, guild).enabled;
        if after != before {
            assert(after == before.push(module_named(rows.last().module).unwrap()));
            assert(after.contains(m) <==> (before.contains(m) || module_named(
                rows.last().module,
            ).unwrap() == m)) by {
                if after.contains(m) {
                    let i = choose|i: int| 0 <= i < after.len() && after[i] == m;
                    if i < before.len() {
                        assert(before[i] == m);
                    }
                }
                if before.contains(m) {
                    let i = choose|i: int| 0 <= i < before.len() && before[i] == m;
                    assert(after[i] == m);
                }
                if module_named(rows.last().module).unwrap() == m {
                    assert(after[after.len() - 1] == m);
                }
            }
        }
    }
}

/// The walk never lists a module twice.
proof fn lemma_walk_distinct(rows: Seq<RecordView>, guild: u64)
    ensures
        walk(rows, guild).enabled.no_duplicates(),
    decreases rows.len(),
{
    if rows.len() > 0 {
        lemma_walk_distinct(rows.drop_last(), guild);
        let before = walk(rows.drop_last(), guild).enabled;
        let after = walk(rows, guild).enabled;
        if after != before {
            let m = module_named(rows.last().module).unwrap();
            assert(after == before.push(m));
            assert forall|i: int, j: int|
                0 <= i < after.len() && 0 <= j < after.len() && i != j implies after[i]
                != after[j] by {
                if i < before.len() && j < before.len() {
                    assert(after[i] == before[i] && after[j] == before[j]);
                } else if i < before.len() {
                    assert(after[i] == before[i]);
                    assert(!before.contains(m));
                } else {
                    assert(after[j] == before[j]);
                    assert(!before.contains(m));
                }
            }
        }
    }
}

/// After the repair a guild holds one row for each module it has enabled,
/// and none naming an unknown module.
proof fn lemma_repaired_count(rows: Seq<RecordView>, guild: u64, name: Seq<char>)
    ensures
        count_rows(repaired(rows, guild), guild, name) == if module_named(name) is Some
            && has_row(rows, guild, name) {
            1nat
        } else {
            0nat
        },
    decreases rows.len(),
{
    crate::store::lemma_walk_keep_len(rows, guild);
    if rows.len() > 0 {
        let prefix = rows.drop_last();
        let row = rows.last();
        lemma_repaired_count(prefix, guild, name);
        crate::store::lemma_walk_keep_len(prefix, guild);
        lemma_count_push(prefix, row, guild, name);
        assert(prefix.push(row) =~= rows);
        assert(walk(rows, guild).keep.drop_last() =~= walk(prefix, guild).keep);
        let sel = repaired(prefix, guild);
        if walk(rows, guild).keep.last() {
            assert(repaired(rows, guild) == sel.push(row));
            lemma_count_push(sel, row, guild, name);
        } else {
            assert(repaired(rows, guild) == sel);
        }
        if module_named(name) is Some {
            lemma_walk_finds_rows(prefix, guild, module_named(name).unwrap());
            lemma_named_is_name(name, module_named(name).unwrap());
        }
    }
}

proof fn lemma_without_absent(rows: Seq<RecordView>, guild: u64, name: Seq<char>)
    requires
        !has_row(rows, guild, name),
    ensures
        without_module(rows, guild, name) == rows,
    decreases rows.len(),
{
    if rows.len() > 0 {
        lemma_without_absent(rows.drop_last(), guild, name);
        assert(rows.drop_last().push(rows.last()) =~= rows);
    }
}

/// Once `kind` is enabled for `guild`, listing the guild shows it exactly
/// once.
pub proof fn law_enable_then_list(s: StoreView, guild: u64, kind: Module)
    requires
        store_well_formed(s),
    ensures
        enabled_modules(enabled_state(s, guild, kind), guild).contains(kind),
        enabled_modules(enabled_state(s, guild, kind), guild).no_duplicates(),
{
    let ins = inserted(s, guild, kind);
    lemma_repaired_walk(ins.rows, guild);
    lemma_walk_distinct(ins.rows, guild);
    lemma_walk_finds_rows(ins.rows, guild, kind);
    if !has_row(s.rows, guild, module_name(kind)) {
        lemma_count_push(
            s.rows,
            RecordView { id: s.next_id, guild, module: module_name(kind) },
            guild,
            module_name(kind),
        );
    }
}

/// Enabling a module twice leaves the same enabled modules as enabling it
/// once, and a single row for it.
pub proof fn law_enable_idempotent(s: StoreView, guild: u64, kind: Module)
    requires
        store_well_formed(s),
    ensures
        enabled_modules(enabled_state(enabled_state(s, guild, kind), guild, kind), guild)
            == enabled_modules(enabled_state(s, guild, kind), guild),
        count_rows(enabled_state(enabled_state(s, guild, kind), guild, kind).rows, guild, module_name(kind)) == 1,
        count_rows(enabled_state(s, guild, kind).rows, guild, module_name(kind)) == 1,
{
    let name = module_name(kind);
    let ins = inserted(s, guild, kind);
    let once = enabled_state(s, guild, kind);
    if !has_row(s.rows, guild, name) {
        lemma_count_push(s.rows, RecordView { id: s.next_id, guild, module: name }, guild, name);
    }
    lemma_named_is_name(name, kind);
    lemma_repaired_count(ins.rows, guild, name);
    assert(inserted(once, guild, kind) == once);
    lemma_repaired_walk(once.rows, guild);
    lemma_repaired_count(once.rows, guild, name);
}

/// Disabling a module that no row enables changes nothing but what the
/// repair of the guild changes anyway.
pub proof fn law_disable_absent(s: StoreView, guild: u64, kind: Module)
    requires
        !has_row(s.rows, guild, module_name(kind)),
    ensures
        disabled_state(s, guild, kind) == reconciled(s, guild),
        enabled_modules(disabled_state(s, guild, kind), guild) == enabled_modules(s, guild),
{
    lemma_without_absent(s.rows, guild, module_name(kind));
    assert(StoreView { rows: without_module(s.rows, guild, module_name(kind)), next_id: s.next_id }
        == s);
    lemma_repaired_walk(s.rows, guild);
}

/// Of several rows enabling one module for a guild, the repair keeps one,
/// and the module is enabled once.
pub proof fn law_reconcile_removes_duplicates(s: StoreView, guild: u64, kind: Module)
    requires
        count_rows(s.rows, guild, module_name(kind)) >= 2,
    ensures
        count_rows(reconciled(s, guild).rows, guild, module_name(kind)) == 1,
        enabled_modules(s, guild).contains(kind),
        enabled_modules(s, guild).no_duplicates(),
        enabled_modules(reconciled(s, guild), guild) == enabled_modules(s, guild),
{
    lemma_named_is_name(module_name(kind), kind);
    lemma_repaired_count(s.rows, guild, module_name(kind));
    lemma_walk_finds_rows(s.rows, guild, kind);
    lemma_walk_distinct(s.rows, guild);
    lemma_repaired_walk(s.rows, guild);
}

/// The repair deletes every row of a guild naming no known module, and no
/// enabled module goes by such a name.
pub proof fn law_reconcile_removes_unknown(s: StoreView, guild: u64, name: Seq<char>)
    requires
        has_row(s.rows, guild, name),
        module_named(name) is None,
    ensures
        count_rows(reconciled(s, guild).rows, guild, name) == 0,
        forall|i: int|
            0 <= i < enabled_modules(s, guild).len() ==> module_name(
                #[trigger] enabled_modules(s, guild)[i],
            ) != name,
{
    lemma_repaired_count(s.rows, guild, name);
    assert forall|i: int|
        0 <= i < enabled_modules(s, guild).len() implies module_name(
        #[trigger] enabled_modules(s, guild)[i],
    ) != name by {
        lemma_named_is_name(name, enabled_modules(s, guild)[i]);
    }
}

/// Of two inserts of one module for a guild that has no row for it, the
/// first adds the row, the second reports a conflict, and one row remains.
pub proof fn law_racing_inserts(s: StoreView, guild: u64, kind: Module)
    requires
        store_well_formed(s),
        !has_row(s.rows, guild, module_name(kind)),
    ensures
        insert_outcome(s, guild, kind) == Ok::<(), StoreError>(()),
        insert_outcome(inserted(s, guild, kind), guild, kind) == Err::<(), StoreError>(
            StoreError::Conflict,
        ),
        inserted(inserted(s, guild, kind), guild, kind) == inserted(s, guild, kind),
        count_rows(inserted(inserted(s, guild, kind), guild, kind).rows, guild, module_name(kind))
            == 1,
{
    lemma_count_push(
        s.rows,
        RecordView { id: s.next_id, guild, module: module_name(kind) },
        guild,
        module_name(kind),
    );
}

} // verus!
