use egui_detail_view::sorting::{reorder_rows, sort_by_keys, stable_sort_order};
use egui_detail_view::SortKey;

fn key(s: &str) -> SortKey {
    SortKey::Value(s.as_bytes().to_vec())
}

#[test]
fn order_of_no_rows_is_empty() {
    assert_eq!(stable_sort_order(&[], false), Vec::<usize>::new());
    assert_eq!(stable_sort_order(&[], true), Vec::<usize>::new());
}

#[test]
fn order_of_one_row() {
    assert_eq!(stable_sort_order(&[key("Foo")], false), vec![0]);
    assert_eq!(stable_sort_order(&[SortKey::Absent], true), vec![0]);
}

#[test]
fn ascending_order_keeps_ties_in_place() {
    let keys = [key("Foo"), key("Bar"), key("Foo")];
    assert_eq!(stable_sort_order(&keys, false), vec![1, 0, 2]);
}

#[test]
fn descending_order_keeps_ties_in_place() {
    let keys = [key("Foo"), key("Bar"), key("Foo")];
    assert_eq!(stable_sort_order(&keys, true), vec![0, 2, 1]);
}

#[test]
fn order_of_sorted_rows_is_the_identity() {
    let keys = [key("a"), key("b"), key("c"), key("d")];
    assert_eq!(stable_sort_order(&keys, false), vec![0, 1, 2, 3]);
    assert_eq!(stable_sort_order(&keys, true), vec![3, 2, 1, 0]);
}

#[test]
fn order_of_equal_keys_is_the_identity_in_both_directions() {
    let keys = [key("x"), key("x"), key("x")];
    assert_eq!(stable_sort_order(&keys, false), vec![0, 1, 2]);
    assert_eq!(stable_sort_order(&keys, true), vec![0, 1, 2]);
}

#[test]
fn absent_keys_lead_an_ascending_order() {
    let keys = [key("b"), SortKey::Absent, key("a"), SortKey::Absent];
    assert_eq!(stable_sort_order(&keys, false), vec![1, 3, 2, 0]);
}

#[test]
fn absent_keys_trail_a_descending_order() {
    let keys = [key("b"), SortKey::Absent, key("a"), SortKey::Absent];
    assert_eq!(stable_sort_order(&keys, true), vec![0, 2, 1, 3]);
}

#[test]
fn all_absent_keys_leave_the_rows_in_place() {
    let keys = [SortKey::Absent, SortKey::Absent, SortKey::Absent];
    assert_eq!(stable_sort_order(&keys, false), vec![0, 1, 2]);
    assert_eq!(stable_sort_order(&keys, true), vec![0, 1, 2]);
}

#[test]
fn order_agrees_with_the_stable_sort_of_std() {
    let words = ["pear", "fig", "apple", "fig", "kiwi", "apple", "", "pear", "fig", "z", "a"];
    let keys: Vec<SortKey> = words.iter().map(|w| key(w)).collect();
    let mut ascending: Vec<usize> = (0..words.len()).collect();
    ascending.sort_by_key(|&i| words[i]);
    assert_eq!(stable_sort_order(&keys, false), ascending);
    let mut descending: Vec<usize> = (0..words.len()).collect();
    descending.sort_by_key(|&i| std::cmp::Reverse(words[i]));
    assert_eq!(stable_sort_order(&keys, true), descending);
}

#[test]
fn reorder_moves_each_row_to_its_place() {
    let mut rows = vec!["a", "b", "c", "d"];
    reorder_rows(&mut rows, &[2, 0, 3, 1]);
    assert_eq!(rows, vec!["c", "a", "d", "b"]);
}

#[test]
fn reorder_by_the_identity_changes_nothing() {
    let mut rows = vec![10, 20, 30];
    reorder_rows(&mut rows, &[0, 1, 2]);
    assert_eq!(rows, vec![10, 20, 30]);
    let mut none: Vec<u8> = vec![];
    reorder_rows(&mut none, &[]);
    assert!(none.is_empty());
}

#[test]
fn reorder_handles_a_full_cycle() {
    let mut rows = vec![0, 1, 2, 3, 4];
    reorder_rows(&mut rows, &[1, 2, 3, 4, 0]);
    assert_eq!(rows, vec![1, 2, 3, 4, 0]);
    reorder_rows(&mut rows, &[4, 3, 2, 1, 0]);
    assert_eq!(rows, vec![0, 4, 3, 2, 1]);
}

#[test]
fn reorder_moves_rows_that_cannot_be_copied() {
    let mut rows = vec![String::from("x"), String::from("y"), String::from("z")];
    reorder_rows(&mut rows, &[2, 1, 0]);
    assert_eq!(rows, vec!["z", "y", "x"]);
}

#[test]
fn sort_by_keys_moves_the_rows_with_their_keys() {
    let mut rows = vec![("Foo", 0), ("Bar", 1), ("Foo", 2)];
    let keys = [key("Foo"), key("Bar"), key("Foo")];
    sort_by_keys(&mut rows, &keys, false);
    assert_eq!(rows, vec![("Bar", 1), ("Foo", 0), ("Foo", 2)]);
}

#[test]
fn sort_by_keys_descending() {
    let mut rows = vec![("Foo", 0), ("Bar", 1), ("Foo", 2)];
    let keys = [key("Foo"), key("Bar"), key("Foo")];
    sort_by_keys(&mut rows, &keys, true);
    assert_eq!(rows, vec![("Foo", 0), ("Foo", 2), ("Bar", 1)]);
}

#[test]
fn sort_by_keys_goes_by_the_keys_alone() {
    let mut rows = vec!["zebra", "ant", "mole"];
    let keys = [key("1"), key("3"), key("2")];
    sort_by_keys(&mut rows, &keys, false);
    assert_eq!(rows, vec!["zebra", "mole", "ant"]);
}

#[test]
fn sort_by_keys_keeps_rows_without_key_together() {
    let mut rows = vec!['a', 'b', 'c', 'd', 'e'];
    let keys = [SortKey::Absent, key("y"), SortKey::Absent, key("x"), SortKey::Absent];
    sort_by_keys(&mut rows, &keys, false);
    assert_eq!(rows, vec!['a', 'c', 'e', 'd', 'b']);
    let mut rows = vec!['a', 'b', 'c', 'd', 'e'];
    sort_by_keys(&mut rows, &keys, true);
    assert_eq!(rows, vec!['b', 'd', 'a', 'c', 'e']);
}

fn scrambled(count: usize, kinds: u64) -> Vec<Option<u64>> {
    let mut state: u64 = 0x2545_f491_4f6c_dd1d;
    (0..count)
        .map(|_| {
            state ^= state << 13;
            state ^= state >> 7;
            state ^= state << 17;
            let kind = state % kinds;
            if kind == 0 {
                None
            } else {
                Some(kind)
            }
        })
        .collect()
}

fn as_key(value: &Option<u64>) -> SortKey {
    match value {
        None => SortKey::Absent,
        Some(n) => SortKey::Value(n.to_be_bytes().to_vec()),
    }
}

#[test]
fn order_of_many_rows_agrees_with_the_stable_sort_of_std() {
    for count in [2, 3, 7, 64, 100, 257, 1000] {
        let values = scrambled(count, 17);
        let keys: Vec<SortKey> = values.iter().map(as_key).collect();
        let mut ascending: Vec<usize> = (0..count).collect();
        ascending.sort_by_key(|&i| values[i]);
        assert_eq!(stable_sort_order(&keys, false), ascending);
        let mut descending: Vec<usize> = (0..count).collect();
        descending.sort_by_key(|&i| std::cmp::Reverse(values[i]));
        assert_eq!(stable_sort_order(&keys, true), descending);
    }
}

#[test]
fn sort_by_keys_of_many_rows_agrees_with_the_stable_sort_of_std() {
    let values = scrambled(500, 9);
    let keys: Vec<SortKey> = values.iter().map(as_key).collect();
    let rows: Vec<(Option<u64>, usize)> = values.iter().cloned().zip(0..).collect();
    let mut sorted = rows.clone();
    sort_by_keys(&mut sorted, &keys, false);
    let mut expected = rows.clone();
    expected.sort_by_key(|row| row.0);
    assert_eq!(sorted, expected);
    let mut sorted = rows.clone();
    sort_by_keys(&mut sorted, &keys, true);
    let mut expected = rows;
    expected.sort_by_key(|row| std::cmp::Reverse(row.0));
    assert_eq!(sorted, expected);
}

#[test]
fn reorder_of_many_rows_follows_the_order() {
    let values = scrambled(300, 1000);
    let keys: Vec<SortKey> = values.iter().map(as_key).collect();
    let order = stable_sort_order(&keys, false);
    let mut rows: Vec<usize> = (0..300).collect();
    reorder_rows(&mut rows, &order);
    assert_eq!(rows, order);
}
