//! The tables of the client: the standings of a list's items beside a match,
//! and the two-column layout of long tables.

use vstd::prelude::*;
use crate::lists::ItemMetadata;
use crate::text::{i64_text, int_text};

verus! {

/// A numbered row of a table.
#[derive(Clone, Debug, PartialEq, Eq)]
pub struct TableRow {
    /// The row's number, counted from 1.
    pub rank: i32,
    pub cells: Vec<String>,
}

/// The cells of an item's row beside a match: its name, `wins-losses`, and its score.
pub open spec fn match_cells(m: ItemMetadata) -> Seq<Seq<char>> {
    seq![m.name@, int_text(m.wins as int) + "-"@ + int_text(m.losses as int), int_text(m.score as int)]
}

/// The table beside a match: one row per entry of the list, numbered from 1;
/// a missing entry has no row but keeps its number.
pub fn match_rows(items: &Vec<Option<ItemMetadata>>) -> (rows: Vec<Option<TableRow>>)
    requires
        items@.len() < i32::MAX,
    ensures
        rows@.len() == items@.len(),
        forall|k: int|
            0 <= k < items@.len() ==> match items@[k] {
                Some(m) => #[trigger] rows@[k] matches Some(r) && r.rank == k + 1 && r.cells@.map_values(
                    |c: String| c@,
                ) == match_cells(m),
                None => rows@[k] is None,
            },
{
    proof {
        reveal_strlit("-");
    }
    let mut rows: Vec<Option<TableRow>> = Vec::new();
    let mut k: usize = 0;
    while k < items.len()
        invariant
            items@.len() < i32::MAX,
            k <= items.len(),
            rows@.len() == k,
            forall|j: int|
                0 <= j < k ==> match items@[j] {
                    Some(m) => #[trigger] rows@[j] matches Some(r) && r.rank == j + 1 && r.cells@.map_values(
                        |c: String| c@,
                    ) == match_cells(m),
                    None => rows@[j] is None,
                },
        decreases items.len() - k,
    {
        match &items[k] {
            Some(m) => {
                let mut cells: Vec<String> = Vec::new();
                cells.push(m.name.clone());
                let mut record = i64_text(m.wins as i64);
                record.append("-");
                let losses = i64_text(m.losses as i64);
                record.append(losses.as_str());
                cells.push(record);
                cells.push(i64_text(m.score as i64));
                assert(cells@.map_values(|c: String| c@) =~= match_cells(*m));
                rows.push(Some(TableRow { rank: (k + 1) as i32, cells }));
            },
            None => {
                rows.push(None);
            },
        }
        k = k + 1;
    }
    rows
}

fn copy_cells(cells: &Vec<String>) -> (r: Vec<String>)
    ensures
        r@ == cells@,
{
    let mut r: Vec<String> = Vec::new();
    let mut i: usize = 0;
    while i < cells.len()
        invariant
            i <= cells.len(),
            r@ == cells@.subrange(0, i as int),
        decreases cells.len() - i,
    {
        r.push(cells[i].clone());
        i = i + 1;
        assert(r@ =~= cells@.subrange(0, i as int));
    }
    r
}

/// Two rows hold the same number and the same cells.
pub open spec fn same_row(a: Option<TableRow>, b: Option<TableRow>) -> bool {
    match a {
        Some(x) => b matches Some(y) && x.rank == y.rank && x.cells@ == y.cells@,
        None => b is None,
    }
}

fn copy_row(row: &Option<TableRow>) -> (r: Option<TableRow>)
    ensures
        same_row(r, *row),
{
    match row {
        Some(t) => Some(TableRow { rank: t.rank, cells: copy_cells(&t.cells) }),
        None => None,
    }
}

/// Splits the rows of a long table over two columns: the first, third, fifth
/// row and so on go left, the others right.
pub fn split_columns(rows: &Vec<Option<TableRow>>) -> (r: (Vec<Option<TableRow>>, Vec<Option<TableRow>>))
    ensures
        r.0@.len() == (rows@.len() + 1) / 2,
        r.1@.len() == rows@.len() / 2,
        forall|i: int| 0 <= i < r.0@.len() ==> same_row(#[trigger] r.0@[i], rows@[2 * i]),
        forall|i: int| 0 <= i < r.1@.len() ==> same_row(#[trigger] r.1@[i], rows@[2 * i + 1]),
{
    let mut left: Vec<Option<TableRow>> = Vec::new();
    let mut right: Vec<Option<TableRow>> = Vec::new();
    let mut k: usize = 0;
    while k < rows.len()
        invariant
            k <= rows.len(),
            left@.len() == (k + 1) / 2,
            right@.len() == k / 2,
            forall|i: int| 0 <= i < left@.len() ==> same_row(#[trigger] left@[i], rows@[2 * i]),
            forall|i: int| 0 <= i < right@.len() ==> same_row(#[trigger] right@[i], rows@[2 * i + 1]),
        decreases rows.len() - k,
    {
        let row = copy_row(&rows[k]);
        if k % 2 == 0 {
            left.push(row);
        } else {
            right.push(row);
        }
        k = k + 1;
    }
    (left, right)
}

/// The cells of a row that a table with `columns` headings shows: the first `columns`.
pub fn shown_cells(cells: &Vec<String>, columns: usize) -> (r: Vec<String>)
    ensures
        r@ == cells@.take(if columns < cells@.len() { columns as int } else { cells@.len() as int }),
{
    let n = if columns < cells.len() { columns } else { cells.len() };
    let mut r: Vec<String> = Vec::new();
    let mut i: usize = 0;
    while i < n
        invariant
            n <= cells.len(),
            i <= n,
            r@ == cells@.take(i as int),
        decreases n - i,
    {
        r.push(cells[i].clone());
        i = i + 1;
        assert(r@ =~= cells@.take(i as int));
    }
    r
}

/// Keeps the rows of a list query whose item is in the list: for each id of
/// the query's answer, whether an item of the list has that id.
pub fn inner_join_mask(ids: &Vec<String>, list_items: &Vec<ItemMetadata>) -> (mask: Vec<bool>)
    ensures
        mask@.len() == ids@.len(),
        forall|i: int|
            0 <= i < ids@.len() ==> #[trigger] mask@[i] == exists|k: int|
                0 <= k < list_items@.len() && #[trigger] list_items@[k].id@ == ids@[i]@,
{
    let mut mask: Vec<bool> = Vec::new();
    let mut i: usize = 0;
    while i < ids.len()
        invariant
            i <= ids.len(),
            mask@.len() == i,
            forall|j: int|
                0 <= j < i ==> #[trigger] mask@[j] == exists|k: int|
                    0 <= k < list_items@.len() && #[trigger] list_items@[k].id@ == ids@[j]@,
        decreases ids.len() - i,
    {
        let mut found = false;
        let mut k: usize = 0;
        while k < list_items.len()
            invariant
                i < ids.len(),
                k <= list_items.len(),
                found == exists|m: int| 0 <= m < k && #[trigger] list_items@[m].id@ == ids@[i as int]@,
            decreases list_items.len() - k,
        {
            if crate::text::str_eq(list_items[k].id.as_str(), ids[i].as_str()) {
                found = true;
            }
            k = k + 1;
        }
        mask.push(found);
        i = i + 1;
    }
    mask
}

} // verus!
