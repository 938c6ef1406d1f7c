//! The conflict policy of a restore, stated on a table as a sequence of rows:
//! a record is inserted where no row of the table has its key, and is
//! otherwise passed over without touching the row that is there. A record
//! that the database refuses for another reason leaves the table alone.

use crate::plan::CellModel;
use crate::types::Restorable;
use vstd::prelude::*;

verus! {

/// The key of a row: its first `width` cells.
pub open spec fn key_of(row: Seq<CellModel>, width: nat) -> Seq<CellModel> {
    row.take(width as int)
}

/// Whether some row of the table has the key `key`.
pub open spec fn holds_key(table: Seq<Seq<CellModel>>, key: Seq<CellModel>, width: nat) -> bool {
    exists|i: int| 0 <= i < table.len() && key_of(#[trigger] table[i], width) == key
}

/// The table after one insert that ignores a conflict.
pub open spec fn insert_or_ignore(table: Seq<Seq<CellModel>>, row: Seq<CellModel>, width: nat) -> Seq<
    Seq<CellModel>,
> {
    if holds_key(table, key_of(row, width), width) {
        table
    } else {
        table.push(row)
    }
}

/// The table after `rows` were attempted one by one, in order, where the
/// database refused the records at the places in `refused`.
pub open spec fn restored_where(
    table: Seq<Seq<CellModel>>,
    rows: Seq<Seq<CellModel>>,
    refused: Set<int>,
    width: nat,
) -> Seq<Seq<CellModel>>
    decreases rows.len(),
{
    if rows.len() == 0 {
        table
    } else {
        let before = restored_where(table, rows.drop_last(), refused, width);
        if refused.contains(rows.len() - 1) {
            before
        } else {
            insert_or_ignore(before, rows.last(), width)
        }
    }
}

/// The table after `rows` were inserted one by one, in order, none of them
/// refused.
pub open spec fn restored(table: Seq<Seq<CellModel>>, rows: Seq<Seq<CellModel>>, width: nat) -> Seq<
    Seq<CellModel>,
> {
    restored_where(table, rows, Set::empty(), width)
}

/// The table after a collection was restored into it.
pub open spec fn restored_by<C: Restorable>(collection: &C, table: Seq<Seq<CellModel>>) -> Seq<
    Seq<CellModel>,
> {
    restored(table, collection.plan_model().rows, collection.conflict_key())
}

/// No two rows of the table have the same key.
pub open spec fn keys_distinct(table: Seq<Seq<CellModel>>, width: nat) -> bool {
    forall|i: int, j: int|
        0 <= i < j < table.len() ==> key_of(#[trigger] table[i], width) != key_of(
            #[trigger] table[j],
            width,
        )
}

/// Restoring never touches a row that is already there: the table as it was
/// is the beginning of the table as it is afterwards.
pub proof fn lemma_restore_keeps_rows(
    table: Seq<Seq<CellModel>>,
    rows: Seq<Seq<CellModel>>,
    refused: Set<int>,
    width: nat,
)
    ensures
        table.len() <= restored_where(table, rows, refused, width).len() <= table.len()
            + rows.len(),
        restored_where(table, rows, refused, width).take(table.len() as int) == table,
    decreases rows.len(),
{
    if rows.len() == 0 {
        assert(table.take(table.len() as int) == table);
    } else {
        lemma_restore_keeps_rows(table, rows.drop_last(), refused, width);
        let before = restored_where(table, rows.drop_last(), refused, width);
        let after = restored_where(table, rows, refused, width);
        assert(after.take(table.len() as int) == before.take(table.len() as int));
    }
}

/// A refused record does not keep the others out: after a restore the table
/// holds the key of every record that the database did not refuse.
pub proof fn lemma_restored_holds_every_key(
    table: Seq<Seq<CellModel>>,
    rows: Seq<Seq<CellModel>>,
    refused: Set<int>,
    width: nat,
    index: int,
)
    requires
        0 <= index < rows.len(),
        !refused.contains(index),
    ensures
        holds_key(restored_where(table, rows, refused, width), key_of(rows[index], width), width),
    decreases rows.len(),
{
    let before = restored_where(table, rows.drop_last(), refused, width);
    let after = restored_where(table, rows, refused, width);
    let key = key_of(rows[index], width);
    if index == rows.len() - 1 {
        if !holds_key(before, key, width) {
            assert(after == before.push(rows.last()));
            assert(key_of(after[before.len() as int], width) == key);
        }
    } else {
        lemma_restored_holds_every_key(table, rows.drop_last(), refused, width, index);
        assert(rows.drop_last()[index] == rows[index]);
        let i = choose|i: int| 0 <= i < before.len() && key_of(#[trigger] before[i], width) == key;
        assert(after[i] == before[i]);
    }
}

/// Records whose keys the table holds already leave it as it is.
pub proof fn lemma_restore_of_held_keys(
    table: Seq<Seq<CellModel>>,
    rows: Seq<Seq<CellModel>>,
    refused: Set<int>,
    width: nat,
)
    requires
        forall|i: int|
            0 <= i < rows.len() ==> holds_key(table, key_of(#[trigger] rows[i], width), width),
    ensures
        restored_where(table, rows, refused, width) == table,
    decreases rows.len(),
{
    if rows.len() > 0 {
        let head = rows.drop_last();
        assert forall|i: int| 0 <= i < head.len() implies holds_key(
            table,
            key_of(#[trigger] head[i], width),
            width,
        ) by {
            assert(head[i] == rows[i]);
        }
        lemma_restore_of_held_keys(table, head, refused, width);
        assert(holds_key(table, key_of(rows[rows.len() - 1], width), width));
    }
}

/// Restoring the same records a second time changes nothing: the table is
/// as it was after the first time.
pub proof fn lemma_restore_twice(
    table: Seq<Seq<CellModel>>,
    rows: Seq<Seq<CellModel>>,
    width: nat,
)
    ensures
        restored(restored(table, rows, width), rows, width) == restored(table, rows, width),
{
    let once = restored(table, rows, width);
    assert forall|i: int| 0 <= i < rows.len() implies holds_key(
        once,
        key_of(#[trigger] rows[i], width),
        width,
    ) by {
        lemma_restored_holds_every_key(table, rows, Set::empty(), width, i);
    }
    lemma_restore_of_held_keys(once, rows, Set::empty(), width);
}

/// A restore never lets two rows with the same key into a table that had
/// none.
pub proof fn lemma_restore_keeps_keys_distinct(
    table: Seq<Seq<CellModel>>,
    rows: Seq<Seq<CellModel>>,
    refused: Set<int>,
    width: nat,
)
    requires
        keys_distinct(table, width),
    ensures
        keys_distinct(restored_where(table, rows, refused, width), width),
    decreases rows.len(),
{
    if rows.len() > 0 {
        lemma_restore_keeps_keys_distinct(table, rows.drop_last(), refused, width);
        let before = restored_where(table, rows.drop_last(), refused, width);
        let after = restored_where(table, rows, refused, width);
        if after != before {
            assert(after == before.push(rows.last()));
            assert forall|i: int, j: int| 0 <= i < j < after.len() implies key_of(
                #[trigger] after[i],
                width,
            ) != key_of(#[trigger] after[j], width) by {
                if j == before.len() {
                    assert(after[i] == before[i]);
                    assert(after[j] == rows.last());
                } else {
                    assert(after[i] == before[i]);
                    assert(after[j] == before[j]);
                }
            }
        }
    }
}

/// Restoring a collection without records attempts none and leaves the
/// table as it is.
pub proof fn lemma_empty_collection_changes_nothing<C: Restorable>(
    collection: &C,
    table: Seq<Seq<CellModel>>,
)
    requires
        collection.plan_model().rows.len() == 0,
    ensures
        collection.plan_model().rows.len() as i32 == 0,
        restored_by(collection, table) == table,
{
}

/// Restoring a collection twice leaves the table as restoring it once does.
pub proof fn lemma_collection_restored_twice<C: Restorable>(
    collection: &C,
    table: Seq<Seq<CellModel>>,
)
    ensures
        restored_by(collection, restored_by(collection, table)) == restored_by(collection, table),
{
    lemma_restore_twice(table, collection.plan_model().rows, collection.conflict_key());
}

} // verus!
