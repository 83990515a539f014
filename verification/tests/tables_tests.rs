use mybops_wasm::lists::ItemMetadata;
use mybops_wasm::tables::{inner_join_mask, match_rows, shown_cells, split_columns, TableRow};

fn meta(id: &str, name: &str, wins: i32, losses: i32, score: i32) -> ItemMetadata {
    ItemMetadata { id: id.to_string(), name: name.to_string(), iframe: None, score, wins, losses }
}

fn cells(v: &[&str]) -> Vec<String> {
    v.iter().map(|s| s.to_string()).collect()
}

#[test]
fn rows_beside_a_match() {
    let items = vec![Some(meta("a", "Song A", 3, 1, 1520)), None, Some(meta("c", "Song C", 0, 2, -15))];
    let rows = match_rows(&items);
    assert_eq!(
        rows,
        vec![
            Some(TableRow { rank: 1, cells: cells(&["Song A", "3-1", "1520"]) }),
            None,
            Some(TableRow { rank: 3, cells: cells(&["Song C", "0-2", "-15"]) }),
        ]
    );
}

#[test]
fn two_columns() {
    let rows: Vec<Option<TableRow>> =
        (1..=5).map(|i| Some(TableRow { rank: i, cells: cells(&[&i.to_string()]) })).collect();
    let (left, right) = split_columns(&rows);
    assert_eq!(left.iter().map(|r| r.as_ref().unwrap().rank).collect::<Vec<_>>(), vec![1, 3, 5]);
    assert_eq!(right.iter().map(|r| r.as_ref().unwrap().rank).collect::<Vec<_>>(), vec![2, 4]);
    let (l, r) = split_columns(&vec![]);
    assert!(l.is_empty() && r.is_empty());
}

#[test]
fn cells_under_headings() {
    assert_eq!(shown_cells(&cells(&["a", "b", "c"]), 2), cells(&["a", "b"]));
    assert_eq!(shown_cells(&cells(&["a"]), 3), cells(&["a"]));
    assert_eq!(shown_cells(&cells(&["a"]), 0), cells(&[]));
}

#[test]
fn list_queries_keep_list_items() {
    let list_items = vec![meta("a", "A", 0, 0, 0), meta("c", "C", 0, 0, 0)];
    assert_eq!(inner_join_mask(&cells(&["a", "b", "c", "a"]), &list_items), vec![true, false, true, true]);
    assert_eq!(inner_join_mask(&cells(&["a"]), &vec![]), vec![false]);
}
