use midi_patch_config::config_builder::{reorder_by_names, reorder_plan_of};

fn strings(v: &[&str]) -> Vec<String> {
    v.iter().map(|s| s.to_string()).collect()
}

#[test]
fn listed_names_come_first_in_list_order() {
    let names = strings(&["pad", "bass", "lead", "pluck"]);
    let mut entries = vec![10, 20, 30, 40];
    reorder_by_names(&mut entries, &names, &strings(&["lead", "pad"]));
    assert_eq!(entries, vec![30, 10, 20, 40]);
}

#[test]
fn unlisted_entries_keep_their_relative_order() {
    let names = strings(&["a", "b", "c", "d", "e"]);
    let plan = reorder_plan_of(&names, &strings(&["d"]));
    assert_eq!(plan, vec![3, 0, 1, 2, 4]);
}

#[test]
fn unknown_and_repeated_order_names_are_ignored() {
    let names = strings(&["a", "b", "c"]);
    let plan = reorder_plan_of(&names, &strings(&["zzz", "c", "c", "a", "zzz"]));
    assert_eq!(plan, vec![2, 0, 1]);
}

#[test]
fn reordering_twice_with_duplicates() {
    let names = strings(&["b", "a", "b", "c", "a"]);
    let order = strings(&["a", "b"]);
    let mut entries = names.clone();
    reorder_by_names(&mut entries, &names, &order);
    assert_eq!(entries, strings(&["a", "a", "b", "b", "c"]));
    let names2 = entries.clone();
    reorder_by_names(&mut entries, &names2, &order);
    assert_eq!(entries, strings(&["a", "a", "b", "b", "c"]));
}

#[test]
fn empty_order_keeps_entries() {
    let names = strings(&["x", "y", "z"]);
    let mut entries = vec!["one", "two", "three"];
    reorder_by_names(&mut entries, &names, &Vec::new());
    assert_eq!(entries, vec!["one", "two", "three"]);
}

#[test]
fn duplicate_names_keep_every_entry() {
    let names = strings(&["a", "b", "a", "c"]);
    let mut entries = vec![1, 2, 3, 4];
    reorder_by_names(&mut entries, &names, &strings(&["a"]));
    assert_eq!(entries, vec![1, 3, 2, 4]);
    let mut entries = vec![1, 2, 3, 4];
    reorder_by_names(&mut entries, &names, &Vec::new());
    assert_eq!(entries, vec![1, 2, 3, 4]);
    let mut entries = vec![1, 2, 3, 4];
    reorder_by_names(&mut entries, &names, &strings(&["c", "a", "c"]));
    assert_eq!(entries, vec![4, 1, 3, 2]);
}

#[test]
fn reorder_of_empty_table() {
    let mut entries: Vec<u8> = Vec::new();
    reorder_by_names(&mut entries, &Vec::new(), &strings(&["a"]));
    assert!(entries.is_empty());
}

#[test]
fn reordering_twice_changes_nothing_more() {
    let names = strings(&["a", "b", "c", "d"]);
    let order = strings(&["c", "a"]);
    let mut entries = names.clone();
    reorder_by_names(&mut entries, &names, &order);
    let once = entries.clone();
    let names2 = entries.clone();
    reorder_by_names(&mut entries, &names2, &order);
    assert_eq!(entries, once);
}

#[test]
fn distinct_names_give_a_permutation() {
    let names = strings(&["e", "d", "c", "b", "a"]);
    let mut plan = reorder_plan_of(&names, &strings(&["a", "c", "q"]));
    assert_eq!(plan, vec![4, 2, 0, 1, 3]);
    plan.sort();
    assert_eq!(plan, vec![0, 1, 2, 3, 4]);
}
