use mybops_wasm::lists::ItemMetadata;
use mybops_wasm::rounds::{next_round_pair, random_match_pair};
use std::collections::HashSet;
use mybops_wasm::rounds::{draw_pair, pair_from_order, round_pair_from_order, Mode};

fn item(n: usize) -> Option<ItemMetadata> {
    Some(ItemMetadata {
        id: format!("id{}", n),
        name: format!("item {}", n),
        iframe: None,
        score: n as i32,
        wins: 0,
        losses: 0,
    })
}

fn id_of(e: &Option<ItemMetadata>) -> String {
    e.as_ref().unwrap().id.clone()
}

#[test]
fn queued_pair_is_drawn_from_the_end() {
    let items: Vec<_> = (0..4).map(item).collect();
    let mut queue = vec![item(10), item(11), item(12)];
    let (left, right) = next_round_pair(&mut queue, &items);
    assert_eq!(id_of(&left), "id12");
    assert_eq!(id_of(&right), "id11");
    assert_eq!(queue, vec![item(10)]);
}

#[test]
fn empty_queue_starts_a_round() {
    let items: Vec<_> = (0..5).map(item).collect();
    let mut queue = Vec::new();
    let (left, right) = next_round_pair(&mut queue, &items);
    assert_eq!(queue.len(), 3);
    let mut all: Vec<String> = queue.iter().map(id_of).collect();
    all.push(id_of(&left));
    all.push(id_of(&right));
    all.sort();
    assert_eq!(all, vec!["id0", "id1", "id2", "id3", "id4"]);
}

#[test]
fn single_queued_item_goes_first() {
    let items: Vec<_> = (0..3).map(item).collect();
    let mut queue = vec![item(2)];
    let (left, right) = next_round_pair(&mut queue, &items);
    assert_eq!(id_of(&left), "id2");
    assert_eq!(queue.len(), 2);
    let mut rest: Vec<String> = queue.iter().map(id_of).collect();
    rest.push(id_of(&right));
    rest.sort();
    assert_eq!(rest, vec!["id0", "id1", "id2"]);
}

#[test]
fn rounds_draw_each_item_once_law() {
    let items: Vec<_> = (0..7).map(item).collect();
    let mut queue = Vec::new();
    let mut drawn: Vec<String> = Vec::new();
    for _ in 0..40 {
        let was = queue.len();
        let (left, right) = next_round_pair(&mut queue, &items);
        if was == 1 {
            drawn.push(id_of(&left));
            assert_eq!(drawn.len(), 7);
            assert_eq!(drawn.iter().collect::<HashSet<_>>().len(), 7);
            drawn = vec![id_of(&right)];
        } else if was == 0 {
            drawn = vec![id_of(&left), id_of(&right)];
        } else {
            drawn.push(id_of(&left));
            drawn.push(id_of(&right));
        }
        let mut all = drawn.clone();
        all.extend(queue.iter().map(id_of));
        all.sort();
        let mut expected: Vec<String> = (0..7).map(|n| format!("id{}", n)).collect();
        expected.sort();
        assert_eq!(all, expected);
    }
}

#[test]
fn random_match_draws_two_positions() {
    let items: Vec<_> = (0..6).map(item).collect();
    let mut pairs = HashSet::new();
    for _ in 0..200 {
        let (left, right) = random_match_pair(&items);
        assert_ne!(id_of(&left), id_of(&right));
        pairs.insert((id_of(&left), id_of(&right)));
    }
    // the draw is shuffled: over many draws more than one pair comes up
    assert!(pairs.len() > 1);
}

#[test]
fn random_match_of_two_items() {
    let items = vec![item(0), None];
    let (left, right) = random_match_pair(&items);
    assert!(left.is_none() != right.is_none());
}

#[test]
fn draw_pair_by_mode() {
    let items: Vec<Option<ItemMetadata>> = (0..4).map(item).collect();
    let mut queue = vec![item(7), item(8), item(9)];
    let (l, r) = draw_pair(Mode::Round, &mut queue, &items);
    assert_eq!(id_of(&l), "id9");
    assert_eq!(id_of(&r), "id8");
    assert_eq!(queue, vec![item(7)]);
    let mut queue = vec![item(7)];
    let (l, r) = draw_pair(Mode::Match, &mut queue, &items);
    assert_eq!(queue, vec![item(7)]);
    assert_ne!(id_of(&l), id_of(&r));
    assert!(items.contains(&l) && items.contains(&r));
}

#[test]
fn pairs_from_a_given_order() {
    let items: Vec<Option<ItemMetadata>> = (0..4).map(item).collect();
    let (l, r) = pair_from_order(&vec![2, 0, 3, 1], &items);
    assert_eq!(id_of(&l), "id1");
    assert_eq!(id_of(&r), "id3");
    let mut queue = vec![item(9)];
    let (l, r) = round_pair_from_order(&mut queue, vec![item(0), item(1), item(2)]);
    assert_eq!((id_of(&l), id_of(&r)), ("id9".to_string(), "id2".to_string()));
    assert_eq!(queue, vec![item(0), item(1)]);
    let mut queue = vec![];
    let (l, r) = round_pair_from_order(&mut queue, vec![item(0), item(1), item(2)]);
    assert_eq!((id_of(&l), id_of(&r)), ("id2".to_string(), "id1".to_string()));
    assert_eq!(queue, vec![item(0)]);
}

#[test]
fn every_item_once_per_round_over_a_run() {
    for n in 2..6 {
        let items: Vec<Option<ItemMetadata>> = (0..n).map(item).collect();
        let mut queue = Vec::new();
        let mut shown = Vec::new();
        for _ in 0..(3 * n) {
            let (l, r) = next_round_pair(&mut queue, &items);
            shown.push(id_of(&l));
            shown.push(id_of(&r));
        }
        for block in shown.chunks(n) {
            // a complete round shows every item, a round under way none twice
            let ids: HashSet<&String> = block.iter().collect();
            assert_eq!(ids.len(), block.len());
        }
    }
}
