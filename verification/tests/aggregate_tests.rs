use categories::aggregate::{categories_by_user_id, categories_by_username};
use categories::category_store::CategoryStore;
use categories::category_user_store::CategoryUserStore;
use categories::errors::Error;

const BASE: &str = "https://example.com";

#[test]
fn user_with_no_associations_gets_empty_sequence() {
    let mut cats = CategoryStore::new();
    cats.category_new("Travel", BASE);
    let assocs = CategoryUserStore::new();
    let result = categories_by_user_id(&cats, &assocs, 7);
    assert!(result.is_empty());
}

#[test]
fn aggregation_is_exact_across_overlapping_users() {
    let mut cats = CategoryStore::new();
    let travel = cats.category_new("Travel", BASE);
    let music = cats.category_new("Music", BASE);
    let books = cats.category_new("Books", BASE);
    let mut assocs = CategoryUserStore::new();
    assocs.category_user_new(1, travel.id);
    assocs.category_user_new(1, music.id);
    assocs.category_user_new(2, music.id);

    let of_one = categories_by_user_id(&cats, &assocs, 1);
    assert_eq!(of_one.len(), 2);
    assert_eq!(of_one[0].name, "Travel");
    assert_eq!(of_one[1].name, "Music");

    let of_two = categories_by_user_id(&cats, &assocs, 2);
    assert_eq!(of_two.len(), 1);
    assert_eq!(of_two[0].name, "Music");
    assert_eq!(of_two[0].id, music.id);

    // "Books" is reachable from nobody.
    assert!(of_one.iter().all(|c| c.id != books.id));
    assert!(of_two.iter().all(|c| c.id != books.id));
}

#[test]
fn end_to_end_travel_association() {
    let mut cats = CategoryStore::new();
    let travel = cats.category_new("Travel", BASE);
    assert_eq!(travel.slug, "travel");
    assert_eq!(travel.uri, "https://example.com/categories/travel");

    let mut assocs = CategoryUserStore::new();
    assocs.category_user_new(1, travel.id);

    let of_a = categories_by_user_id(&cats, &assocs, 1);
    assert_eq!(of_a.len(), 1);
    assert_eq!(of_a[0].id, travel.id);
    assert_eq!(of_a[0].name, "Travel");
    assert_eq!(of_a[0].slug, "travel");

    let of_b = categories_by_user_id(&cats, &assocs, 2);
    assert!(of_b.is_empty());
}

#[test]
fn username_lookup_failure_propagates_unchanged() {
    let cats = CategoryStore::new();
    let assocs = CategoryUserStore::new();
    let r = categories_by_username(&cats, &assocs, Err(Error::UpstreamNotFound));
    assert_eq!(r.unwrap_err(), Error::UpstreamNotFound);
}

#[test]
fn username_resolved_to_id_is_aggregated() {
    let mut cats = CategoryStore::new();
    let travel = cats.category_new("Travel", BASE);
    let mut assocs = CategoryUserStore::new();
    assocs.category_user_new(9, travel.id);
    let r = categories_by_username(&cats, &assocs, Ok(9)).unwrap();
    assert_eq!(r.len(), 1);
    assert_eq!(r[0].name, "Travel");
}
