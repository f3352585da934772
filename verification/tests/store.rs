use authenticator::app_state::{AppState, StoreError};
use authenticator::entry::{all_entries_valid, TOTPEntry};

fn entry(name: &str, secret: &str) -> TOTPEntry {
    TOTPEntry::new(name.to_string(), secret.to_string())
}

fn store_of(pairs: &[(&str, &str)]) -> AppState {
    let mut store = AppState::new();
    for (name, secret) in pairs {
        assert_eq!(store.add(name.to_string(), secret.to_string()), Ok(()));
    }
    store
}

fn listing(store: &AppState) -> Vec<(String, String)> {
    store
        .snapshot()
        .into_iter()
        .map(|e| (e.name, e.secret))
        .collect()
}

fn pairs(items: &[(&str, &str)]) -> Vec<(String, String)> {
    items
        .iter()
        .map(|(n, s)| (n.to_string(), s.to_string()))
        .collect()
}

#[test]
fn new_store_is_empty() {
    let store = AppState::new();
    assert!(store.is_empty());
    assert_eq!(store.len(), 0);
    assert!(store.snapshot().is_empty());
    assert!(!store.contains("a"));
    assert_eq!(store.secret_of("a"), None);
}

#[test]
fn add_inserts_at_the_end() {
    let mut store = AppState::new();
    assert_eq!(store.add("mail".to_string(), "JBSWY3DPEHPK3PXP".to_string()), Ok(()));
    assert_eq!(store.add("bank".to_string(), "GEZDGNBV".to_string()), Ok(()));
    assert_eq!(store.len(), 2);
    assert!(!store.is_empty());
    assert!(store.contains("mail"));
    assert!(store.contains("bank"));
    assert_eq!(store.secret_of("mail"), Some("JBSWY3DPEHPK3PXP".to_string()));
    assert_eq!(
        listing(&store),
        pairs(&[("mail", "JBSWY3DPEHPK3PXP"), ("bank", "GEZDGNBV")])
    );
}

#[test]
fn second_add_under_a_name_is_rejected_and_keeps_the_first_secret() {
    let mut store = AppState::new();
    assert_eq!(store.add("x".to_string(), "first".to_string()), Ok(()));
    assert_eq!(
        store.add("x".to_string(), "second".to_string()),
        Err(StoreError::DuplicateName)
    );
    assert_eq!(store.secret_of("x"), Some("first".to_string()));
    assert_eq!(store.len(), 1);
}

#[test]
fn add_rejects_empty_name_and_empty_secret() {
    let mut store = store_of(&[("a", "1")]);
    assert_eq!(store.add(String::new(), "s".to_string()), Err(StoreError::InvalidEntry));
    assert_eq!(store.add("b".to_string(), String::new()), Err(StoreError::InvalidEntry));
    assert_eq!(store.add("a".to_string(), String::new()), Err(StoreError::InvalidEntry));
    assert_eq!(listing(&store), pairs(&[("a", "1")]));
}

#[test]
fn remove_takes_the_entry_out_and_is_a_no_op_when_absent() {
    let mut store = store_of(&[("a", "1"), ("b", "2"), ("c", "3")]);
    assert!(store.remove("b"));
    assert_eq!(listing(&store), pairs(&[("a", "1"), ("c", "3")]));
    assert!(!store.remove("b"));
    assert!(!store.remove("zzz"));
    assert_eq!(listing(&store), pairs(&[("a", "1"), ("c", "3")]));
    assert!(store.remove("a"));
    assert!(store.remove("c"));
    assert!(store.is_empty());
}

#[test]
fn rename_keeps_secret_and_place() {
    let mut store = store_of(&[("a", "1"), ("b", "2"), ("c", "3")]);
    assert_eq!(store.rename("b", "beta".to_string()), Ok(()));
    assert_eq!(listing(&store), pairs(&[("a", "1"), ("beta", "2"), ("c", "3")]));
    assert!(!store.contains("b"));
    assert_eq!(store.secret_of("beta"), Some("2".to_string()));
}

#[test]
fn rename_to_the_same_name_changes_nothing() {
    let mut store = store_of(&[("a", "1")]);
    assert_eq!(store.rename("a", "a".to_string()), Ok(()));
    assert_eq!(store.rename("ghost", "ghost".to_string()), Ok(()));
    assert_eq!(listing(&store), pairs(&[("a", "1")]));
}

#[test]
fn rename_to_a_taken_name_is_rejected() {
    let mut store = store_of(&[("a", "1"), ("b", "2")]);
    assert_eq!(store.rename("a", "b".to_string()), Err(StoreError::DuplicateName));
    assert_eq!(store.rename("ghost", "b".to_string()), Err(StoreError::DuplicateName));
    assert_eq!(listing(&store), pairs(&[("a", "1"), ("b", "2")]));
}

#[test]
fn rename_of_a_missing_entry_is_rejected() {
    let mut store = store_of(&[("a", "1")]);
    assert_eq!(store.rename("ghost", "b".to_string()), Err(StoreError::NotFound));
    assert_eq!(listing(&store), pairs(&[("a", "1")]));
}

#[test]
fn rename_to_an_empty_name_is_rejected() {
    let mut store = store_of(&[("a", "1")]);
    assert_eq!(store.rename("a", String::new()), Err(StoreError::InvalidEntry));
    assert_eq!(listing(&store), pairs(&[("a", "1")]));
}

#[test]
fn rename_there_and_back_restores_the_store() {
    let mut store = store_of(&[("a", "1"), ("c", "3")]);
    let before = listing(&store);
    assert_eq!(store.rename("a", "b".to_string()), Ok(()));
    assert_ne!(listing(&store), before);
    assert_eq!(store.rename("b", "a".to_string()), Ok(()));
    assert_eq!(listing(&store), before);
}

#[test]
fn rename_there_and_back_when_both_names_are_taken() {
    let mut store = store_of(&[("a", "1"), ("b", "2")]);
    let before = listing(&store);
    assert_eq!(store.rename("a", "b".to_string()), Err(StoreError::DuplicateName));
    assert_eq!(store.rename("b", "a".to_string()), Err(StoreError::DuplicateName));
    assert_eq!(listing(&store), before);
}

#[test]
fn rename_back_moves_an_entry_when_only_the_second_name_was_taken() {
    let mut store = store_of(&[("b", "2")]);
    assert_eq!(store.rename("a", "b".to_string()), Err(StoreError::DuplicateName));
    assert_eq!(store.rename("b", "a".to_string()), Ok(()));
    assert_eq!(listing(&store), pairs(&[("a", "2")]));
}

#[test]
fn update_secret_replaces_in_place() {
    let mut store = store_of(&[("a", "1"), ("b", "2")]);
    assert_eq!(store.update_secret("a", "one".to_string()), Ok(()));
    assert_eq!(listing(&store), pairs(&[("a", "one"), ("b", "2")]));
}

#[test]
fn update_secret_of_a_missing_entry_is_rejected() {
    let mut store = store_of(&[("a", "1")]);
    assert_eq!(store.update_secret("ghost", "x".to_string()), Err(StoreError::NotFound));
    assert_eq!(listing(&store), pairs(&[("a", "1")]));
}

#[test]
fn update_secret_rejects_an_empty_secret() {
    let mut store = store_of(&[("a", "1")]);
    assert_eq!(store.update_secret("a", String::new()), Err(StoreError::InvalidEntry));
    assert_eq!(store.update_secret("ghost", String::new()), Err(StoreError::InvalidEntry));
    assert_eq!(listing(&store), pairs(&[("a", "1")]));
}

#[test]
fn import_overrides_the_kept_secret() {
    let mut store = store_of(&[("x", "secret2")]);
    assert_eq!(store.merge(&vec![entry("x", "secret1")]), Ok(()));
    assert_eq!(store.secret_of("x"), Some("secret1".to_string()));
    assert_eq!(listing(&store), pairs(&[("x", "secret1")]));
    assert_eq!(store.snapshot(), vec![entry("x", "secret1")]);
}

#[test]
fn merge_appends_new_names_and_the_last_of_a_name_wins() {
    let mut store = store_of(&[("a", "1"), ("b", "2")]);
    let batch = vec![entry("c", "3"), entry("a", "one"), entry("c", "three"), entry("d", "4")];
    assert_eq!(store.merge(&batch), Ok(()));
    assert_eq!(
        listing(&store),
        pairs(&[("a", "one"), ("b", "2"), ("c", "three"), ("d", "4")])
    );
}

#[test]
fn merge_of_nothing_changes_nothing() {
    let mut store = store_of(&[("a", "1")]);
    assert_eq!(store.merge(&vec![]), Ok(()));
    assert_eq!(listing(&store), pairs(&[("a", "1")]));
}

#[test]
fn merge_rejects_a_batch_with_an_empty_field_as_a_whole() {
    let mut store = store_of(&[("a", "1")]);
    let batch = vec![entry("b", "2"), entry("", "3")];
    assert_eq!(store.merge(&batch), Err(StoreError::InvalidEntry));
    assert_eq!(listing(&store), pairs(&[("a", "1")]));
    let batch = vec![entry("a", ""), entry("b", "2")];
    assert_eq!(store.merge(&batch), Err(StoreError::InvalidEntry));
    assert_eq!(listing(&store), pairs(&[("a", "1")]));
}

#[test]
fn from_entries_builds_the_store_of_a_loaded_list() {
    let loaded = vec![entry("a", "1"), entry("b", "2"), entry("a", "one")];
    let store = AppState::from_entries(&loaded).unwrap();
    assert_eq!(listing(&store), pairs(&[("a", "one"), ("b", "2")]));
    assert!(AppState::from_entries(&vec![]).unwrap().is_empty());
    assert_eq!(
        AppState::from_entries(&vec![entry("a", "")]).err(),
        Some(StoreError::InvalidEntry)
    );
}

#[test]
fn snapshot_is_a_copy() {
    let mut store = store_of(&[("a", "1")]);
    let copy = store.snapshot();
    assert!(store.remove("a"));
    assert_eq!(copy, vec![entry("a", "1")]);
    assert!(store.snapshot().is_empty());
}

#[test]
fn names_are_told_apart_by_every_character() {
    let mut store = store_of(&[("a", "1")]);
    assert_eq!(store.add("A".to_string(), "2".to_string()), Ok(()));
    assert_eq!(store.add("a ".to_string(), "3".to_string()), Ok(()));
    assert_eq!(store.add("\u{00e4}".to_string(), "4".to_string()), Ok(()));
    assert_eq!(store.len(), 4);
    assert_eq!(store.secret_of("\u{00e4}"), Some("4".to_string()));
    assert_eq!(store.secret_of("a"), Some("1".to_string()));
}

#[test]
fn entry_validity() {
    assert!(entry("a", "1").is_valid());
    assert!(!entry("", "1").is_valid());
    assert!(!entry("a", "").is_valid());
    assert!(!entry("", "").is_valid());
    assert!(all_entries_valid(&vec![]));
    assert!(all_entries_valid(&vec![entry("a", "1"), entry("b", "2")]));
    assert!(!all_entries_valid(&vec![entry("a", "1"), entry("b", "")]));
    let e = entry("a", "1");
    assert_eq!(e.clone(), e);
}

#[test]
fn store_built_from_its_snapshot_is_the_same() {
    let store = store_of(&[("b", "2"), ("a", "1"), ("c", "3")]);
    let restored = AppState::from_entries(&store.snapshot()).unwrap();
    assert_eq!(listing(&restored), listing(&store));
    assert_eq!(restored.snapshot(), store.snapshot());
}
