use qquotes::error::StoreError;
use qquotes::quote::Quote;
use qquotes::repository::Repository;
use qquotes::store::Store;

fn quote(author: &str, text: &str) -> Quote {
    Quote { author: author.to_string(), quote: text.to_string() }
}

#[test]
fn empty_store_lists_nothing() {
    let repo = Repository::new();
    let quotes = repo.get_quotes();
    assert!(quotes.is_empty());
}

#[test]
fn round_trip_single_save() {
    let mut repo = Repository::new();
    let saved = repo.save_quote(quote("Twain", "Lies, damned lies, and statistics.")).unwrap();
    assert_eq!(saved.quote.author, "Twain");
    assert_eq!(saved.quote.quote, "Lies, damned lies, and statistics.");
    let quotes = repo.get_quotes();
    assert_eq!(quotes.len(), 1);
    assert_eq!(quotes[0].id, saved.id);
    assert_eq!(quotes[0].quote.author, "Twain");
    assert_eq!(quotes[0].quote.quote, "Lies, damned lies, and statistics.");
}

#[test]
fn round_trip_unicode_and_whitespace() {
    let mut repo = Repository::new();
    let saved = repo.save_quote(quote("Åsa Müller", "  två\träder\n kvar  ")).unwrap();
    let quotes = repo.get_quotes();
    assert_eq!(quotes.len(), 1);
    assert_eq!(quotes[0].quote.author, "Åsa Müller");
    assert_eq!(quotes[0].quote.quote, "  två\träder\n kvar  ");
    assert_eq!(saved.quote.quote, "  två\träder\n kvar  ");
}

#[test]
fn saved_ids_are_distinct() {
    let mut repo = Repository::new();
    let first = repo.save_quote(quote("A", "same text")).unwrap();
    let second = repo.save_quote(quote("A", "same text")).unwrap();
    assert_ne!(first.id, second.id);
    assert_eq!(repo.get_quotes().len(), 2);
}

#[test]
fn saved_id_is_generated() {
    let mut repo = Repository::new();
    let saved = repo.save_quote(quote("A", "b")).unwrap();
    assert_eq!(saved.id.len(), 36);
}

#[test]
fn delete_removes_only_target() {
    let mut repo = Repository::new();
    let first = repo.save_quote(quote("One", "first text")).unwrap();
    let second = repo.save_quote(quote("Two", "second text")).unwrap();
    repo.delete_quote(&first.id).unwrap();
    let quotes = repo.get_quotes();
    assert_eq!(quotes.len(), 1);
    assert_eq!(quotes[0].id, second.id);
    assert_eq!(quotes[0].quote.author, "Two");
    assert_eq!(quotes[0].quote.quote, "second text");
}

#[test]
fn delete_missing_id_fails_and_changes_nothing() {
    let mut repo = Repository::new();
    let saved = repo.save_quote(quote("Kept", "still here")).unwrap();
    let missing = "no-such-id".to_string();
    match repo.delete_quote(&missing) {
        Err(StoreError::NotFound { id }) => assert_eq!(id, "no-such-id"),
        other => panic!("expected NotFound, got {:?}", other),
    }
    let quotes = repo.get_quotes();
    assert_eq!(quotes.len(), 1);
    assert_eq!(quotes[0].id, saved.id);
    assert_eq!(quotes[0].quote.author, "Kept");
}

#[test]
fn insert_rejects_empty_id() {
    let mut store = Store::new();
    match store.insert(String::new(), quote("A", "b")) {
        Err(StoreError::EmptyId) => {}
        other => panic!("expected EmptyId, got {:?}", other),
    }
    assert_eq!(store.len(), 0);
}

#[test]
fn insert_rejects_duplicate_id() {
    let mut store = Store::new();
    store.insert("some-id".to_string(), quote("A", "b")).unwrap();
    match store.insert("some-id".to_string(), quote("C", "d")) {
        Err(StoreError::DuplicateId { id }) => assert_eq!(id, "some-id"),
        other => panic!("expected DuplicateId, got {:?}", other),
    }
    assert_eq!(store.len(), 1);
    let all = store.all();
    assert_eq!(all[0].quote.author, "A");
}

#[test]
fn listing_is_sorted_by_id() {
    let mut store = Store::new();
    store.insert("beta".to_string(), quote("B", "b")).unwrap();
    store.insert("alpha".to_string(), quote("A", "a")).unwrap();
    store.insert("gamma".to_string(), quote("C", "c")).unwrap();
    let ids: Vec<String> = store.all().into_iter().map(|r| r.id).collect();
    assert_eq!(ids, vec!["alpha".to_string(), "beta".to_string(), "gamma".to_string()]);
}

#[test]
fn get_finds_present_and_misses_absent() {
    let mut store = Store::new();
    store.insert("k".to_string(), quote("A", "text")).unwrap();
    let hit = store.get(&"k".to_string());
    assert!(hit.is_some());
    assert_eq!(hit.unwrap().quote, "text");
    assert!(store.get(&"missing".to_string()).is_none());
}

#[test]
fn empty_fields_round_trip() {
    let mut repo = Repository::new();
    let saved = repo.save_quote(quote("", "")).unwrap();
    let quotes = repo.get_quotes();
    assert_eq!(quotes.len(), 1);
    assert_eq!(quotes[0].id, saved.id);
    assert_eq!(quotes[0].quote.author, "");
    assert_eq!(quotes[0].quote.quote, "");
}
