use dness::summary::{dedup_names, log_missing_domains, missing_names, Updates};

fn u(updated: i32, current: i32, missing: i32) -> Updates {
    Updates { updated, current, missing }
}

#[test]
fn add_is_pointwise() {
    let a = u(1, 2, 3);
    let b = u(10, 20, 30);
    assert_eq!(a.add(b), u(11, 22, 33));
}

#[test]
fn add_assign_matches_add() {
    let mut a = u(4, 5, 6);
    a.add_assign(u(1, 1, 1));
    assert_eq!(a, u(5, 6, 7));
}

#[test]
fn add_is_associative_on_values() {
    let a = u(1, 2, 3);
    let b = u(4, 5, 6);
    let c = u(7, 8, 9);
    assert_eq!(a.add(b).add(c), a.add(b.add(c)));
}

#[test]
fn add_is_commutative_on_values() {
    let a = u(1, 2, 3);
    let b = u(4, 5, 6);
    assert_eq!(a.add(b), b.add(a));
}

#[test]
fn zero_is_identity() {
    let a = u(3, 1, 4);
    let zero = Updates::default();
    assert_eq!(a.add(zero), a);
    assert_eq!(zero.add(a), a);
}

#[test]
fn diff_reports_the_missing_name() {
    let expected = vec![String::from("@"), String::from("sub")];
    let actual = vec![String::from("@")];
    let missing = missing_names(&expected, &actual);
    assert_eq!(missing, vec![String::from("sub")]);
    assert_eq!(log_missing_domains(&expected, &actual), 1);
}

#[test]
fn diff_of_equal_sets_is_empty() {
    let expected = vec![String::from("@"), String::from("sub")];
    let actual = vec![String::from("sub"), String::from("@")];
    assert_eq!(log_missing_domains(&expected, &actual), 0);
}

#[test]
fn dedup_keeps_first_occurrences() {
    let names = vec![
        String::from("a"),
        String::from("b"),
        String::from("a"),
        String::from("c"),
        String::from("b"),
    ];
    let deduped = dedup_names(&names);
    assert_eq!(
        deduped,
        vec![String::from("a"), String::from("b"), String::from("c")]
    );
}

#[test]
fn summary_message_spells_out_counts() {
    let s = u(1, 2, 3);
    assert_eq!(
        s.summary_message(),
        String::from("updated: 1, already current: 2, missing: 3")
    );
    let zero = Updates::default();
    assert_eq!(
        zero.summary_message(),
        String::from("updated: 0, already current: 0, missing: 0")
    );
}
