use categories::category_store::CategoryStore;
use categories::category_user_store::CategoryUserStore;
use categories::errors::Error;

const BASE: &str = "https://example.com";

#[test]
fn category_get_or_create_is_idempotent() {
    let mut store = CategoryStore::new();
    let first = store.category_new("Travel", BASE);
    let second = store.category_new("Travel", BASE);
    assert_eq!(first.id, second.id);
    assert_eq!(first.slug, second.slug);
    assert_eq!(first.uri, second.uri);
    assert_eq!(first.name, second.name);
    let all = store.categories_list().unwrap();
    assert_eq!(all.len(), 1);
}

#[test]
fn second_call_ignores_other_payload_fields() {
    let mut store = CategoryStore::new();
    let first = store.category_new("Travel", BASE);
    // A different base on the second call changes nothing: the stored
    // record is returned as it stands.
    let second = store.category_new("Travel", "https://other.example");
    assert_eq!(first.uri, second.uri);
}

#[test]
fn created_category_has_derived_slug_and_uri() {
    let mut store = CategoryStore::new();
    let c = store.category_new("Travel", BASE);
    assert_eq!(c.name, "Travel");
    assert_eq!(c.slug, "travel");
    assert_eq!(c.uri, "https://example.com/categories/travel");
}

#[test]
fn try_category_new_rejects_untransliterable_name() {
    let mut store = CategoryStore::new();
    assert!(store.try_category_new("Café", BASE).is_none());
    // The store is left unchanged: listing still reports the empty
    // collection.
    assert_eq!(store.categories_list().unwrap_err(), Error::EmptyCollection);
}

#[test]
fn list_all_on_empty_store_is_an_error() {
    let store = CategoryStore::new();
    assert_eq!(store.categories_list().unwrap_err(), Error::EmptyCollection);
}

#[test]
fn list_all_returns_every_category() {
    let mut store = CategoryStore::new();
    store.category_new("Travel", BASE);
    store.category_new("Music", BASE);
    let all = store.categories_list().unwrap();
    assert_eq!(all.len(), 2);
    assert_eq!(all[0].name, "Travel");
    assert_eq!(all[1].name, "Music");
}

#[test]
fn category_by_id_finds_and_fails() {
    let mut store = CategoryStore::new();
    let c = store.category_new("Travel", BASE);
    let found = store.category_by_id(c.id).unwrap();
    assert_eq!(found.name, "Travel");
    assert_eq!(store.category_by_id(c.id + 1).unwrap_err(), Error::NotFound);
}

#[test]
fn category_by_slug_finds_and_fails() {
    let mut store = CategoryStore::new();
    store.category_new("Travel", BASE);
    let found = store.category_by_slug("travel").unwrap();
    assert_eq!(found.name, "Travel");
    assert_eq!(store.category_by_slug("music").unwrap_err(), Error::NotFound);
}

#[test]
fn association_get_or_create_is_idempotent() {
    let mut assocs = CategoryUserStore::new();
    let first = assocs.category_user_new(7, 42);
    let second = assocs.category_user_new(7, 42);
    assert_eq!(first.id, second.id);
    assert_eq!(first, second);
    assert_eq!(assocs.categories_users_by_user_id(7).len(), 1);
}

#[test]
fn distinct_pairs_get_distinct_records() {
    let mut assocs = CategoryUserStore::new();
    let a = assocs.category_user_new(7, 42);
    let b = assocs.category_user_new(7, 43);
    let c = assocs.category_user_new(8, 42);
    assert_ne!(a.id, b.id);
    assert_ne!(a.id, c.id);
    assert_eq!(assocs.categories_users_by_user_id(7), vec![a, b]);
    assert_eq!(assocs.categories_users_by_user_id(8), vec![c]);
}

#[test]
fn list_by_user_with_no_rows_is_empty_not_an_error() {
    let assocs = CategoryUserStore::new();
    assert_eq!(assocs.categories_users_by_user_id(7), vec![]);
}
