use two_entities::Entity;
use two_entities::TupleQueryExt;
use two_entities::TwoEntitiesMutQueryExt;
use two_entities::TwoEntitiesQueryExt;
use two_entities::NoSuchEntity;
use two_entities::Query;
use two_entities::get_both_mut;
use two_entities::pick_either;

#[test]
fn matches_either_in_both_orders() {
    let x = Entity(10);
    let y = Entity(11);
    let z = Entity(12);

    let mut query: Query<u32> = Query::new();
    query.insert(x, 7);

    assert!(query.either(x, y));
    assert!(query.either(y, x));
    assert!(!query.either(y, z));
}

#[test]
fn either_with_other_reports_the_other() {
    let x = Entity(10);
    let y = Entity(11);

    let mut query: Query<u32> = Query::new();
    query.insert(x, 7);

    assert_eq!(query.either_with_other(x, y), Some(y));
    assert_eq!(query.either_with_other(y, x), Some(y));
}

#[test]
fn either_with_other_prefers_the_first_argument() {
    // When both candidates match, only the second argument is reported
    // as "the other": the first argument won the left-to-right probe.
    let x = Entity(10);
    let y = Entity(11);

    let mut query: Query<u32> = Query::new();
    query.insert(x, 7);
    query.insert(y, 8);

    assert_eq!(query.either_with_other(x, y), Some(y));
    assert_eq!(query.either_with_other(y, x), Some(x));
    assert_eq!(query.get_either(x, y).copied(), Some(7));
    assert_eq!(query.get_either(y, x).copied(), Some(8));
}

#[test]
fn get_either_agrees_with_other_form() {
    let x = Entity(10);
    let y = Entity(11);
    let z = Entity(12);

    let mut query: Query<u32> = Query::new();
    query.insert(x, 7);

    assert_eq!(
        query.get_either(x, y).is_some(),
        query.get_either_with_other(x, y).is_some()
    );
    assert_eq!(
        query.get_either(y, x).is_some(),
        query.get_either_with_other(y, x).is_some()
    );
    assert_eq!(
        query.get_either(y, z).is_some(),
        query.get_either_with_other(y, z).is_some()
    );
}

#[test]
fn both_promises_no_pairing() {
    // Both capabilities match only `a`: `both` is satisfied, yet no
    // one-to-one pairing exists and `get_both` finds none.
    let a = Entity(1);
    let b = Entity(2);

    let mut query_a: Query<u32> = Query::new();
    query_a.insert(a, 1);
    let mut query_b: Query<u32> = Query::new();
    query_b.insert(a, 2);

    assert!((&query_a, &query_b).both(a, b));
    assert!((&query_a, &query_b).get_both(a, b).is_none());
    assert!(get_both_mut(&mut query_a, &mut query_b, a, b).is_none());
}

#[test]
fn get_both_pairs_disjoint_populations() {
    let a = Entity(1);
    let b = Entity(2);

    let mut query_a: Query<u32> = Query::new();
    query_a.insert(a, 1);
    let mut query_b: Query<u32> = Query::new();
    query_b.insert(b, 2);

    assert_eq!(
        (&query_a, &query_b).get_both(a, b).map(|(x, y)| (*x, *y)),
        Some((1, 2))
    );
    assert_eq!(
        (&query_a, &query_b).get_both(b, a).map(|(x, y)| (*x, *y)),
        Some((1, 2))
    );
}

#[test]
fn get_missing_reports_no_such_entity() {
    let a = Entity(1);
    let b = Entity(2);

    let mut query: Query<u32> = Query::new();
    query.insert(a, 1);

    assert_eq!(query.get(b).copied(), Err(NoSuchEntity));
    assert!(query.get_mut(b).is_err());
}

#[test]
fn insert_replaces_earlier_item() {
    let a = Entity(1);

    let mut query: Query<u32> = Query::new();
    query.insert(a, 1);
    query.insert(a, 2);

    assert_eq!(query.get(a).copied(), Ok(2));
}

#[test]
fn empty_capability_matches_nothing() {
    let a = Entity(1);
    let b = Entity(2);

    let query: Query<u32> = Query::new();

    assert!(!query.either(a, b));
    assert_eq!(query.either_with_other(a, b), None);
    assert!(query.get_either(a, b).is_none());
    assert!(query.get_either_with_other(a, b).is_none());
}

#[test]
fn same_entity_on_both_sides() {
    let a = Entity(1);

    let mut query_a: Query<u32> = Query::new();
    query_a.insert(a, 1);
    let mut query_b: Query<u32> = Query::new();
    query_b.insert(a, 2);

    assert!((&query_a, &query_b).both(a, a));
    assert_eq!(
        (&query_a, &query_b).get_both(a, a).map(|(x, y)| (*x, *y)),
        Some((1, 2))
    );
}

#[test]
fn mutation_through_either_view_is_visible() {
    let a = Entity(1);
    let b = Entity(2);

    let mut query: Query<u32> = Query::new();
    query.insert(a, 1);

    if let Some(item) = query.get_either_mut(b, a) {
        *item = 9;
    } else {
        panic!("a matching entity was expected");
    }

    assert_eq!(query.get(a).copied(), Ok(9));
}

#[test]
fn pick_either_follows_the_probes() {
    let a = Entity(1);
    let b = Entity(2);

    assert_eq!(pick_either(true, false, a, b), Some((a, b)));
    assert_eq!(pick_either(true, true, a, b), Some((a, b)));
    assert_eq!(pick_either(false, true, a, b), Some((b, a)));
    assert_eq!(pick_either(false, false, a, b), None);
}
