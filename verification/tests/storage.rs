use mpw_vault::json::Field;
use mpw_vault::sites::Site;
use mpw_vault::storage::{blobs_from_object, EncryptedSites, EncryptedStorage, VaultError};

/// A vault with one blob, kept as text, that holds the ciphertext which the
/// `magic-crypt` documentation gives for "http://magiclen.org" under
/// "magickey".
fn documented_vault() -> EncryptedStorage {
    let kept = "{\"reader\":\"DS/2U8royDnJDiNY2ps3f6ZoTbpZo8ZtUGYLGEjwLDQ=\"}".to_string();
    let (storage, cleared) = EncryptedStorage::from_local_storage(Some(kept), None);
    assert!(!cleared);
    storage
}

fn kept_mapping(storage: &EncryptedStorage) -> String {
    storage.to_local_storage().0
}

#[test]
fn blob_gives_its_records_back() {
    let sites = vec![Site::new("github.com", 1, "Maximum"), Site::new("example.com", 3, "PIN")];
    let blob = EncryptedSites::from_sites(&sites, "secret");
    assert_eq!(blob.decrypt("secret"), Ok(sites));
}

#[test]
fn blob_is_ciphertext_fixed_by_list_and_secret() {
    let sites = vec![Site::new("github.com", 1, "Maximum")];
    let blob = EncryptedSites::from_sites(&sites, "secret");
    let again = EncryptedSites::from_sites(&sites, "secret");
    let other = EncryptedSites::from_sites(&sites, "Secret");
    assert_eq!(blob.as_str(), again.as_str());
    assert_ne!(blob.as_str(), other.as_str());
    assert!(!blob.as_str().contains("github.com"));
    // 66 bytes of JSON make five blocks of 16 bytes, and those 108 characters
    assert_eq!(blob.as_str().len(), 108);
}

#[test]
fn empty_list_has_a_blob() {
    let blob = EncryptedSites::from_sites(&[], "magickey");
    assert_eq!(blob.as_str().len(), 24);
    assert_eq!(blob.decrypt("magickey"), Ok(Vec::new()));
}

#[test]
fn blob_does_not_open_under_another_secret() {
    let blob = EncryptedSites::from_sites(&[Site::new("github.com", 1, "Maximum")], "secret");
    assert_eq!(blob.decrypt("secre"), Err(VaultError::DecryptionFailed));
    assert_eq!(blob.decrypt(""), Err(VaultError::DecryptionFailed));
}

#[test]
fn a_blob_can_open_under_a_secret_that_did_not_make_it() {
    // Under this secret the one block of the blob decrypts to bytes that end
    // in a valid padding and are UTF-8: the blob opens, and what it holds is
    // no list of records.
    let blob = EncryptedSites::from_sites(&[], "secret");
    assert_eq!(blob.decrypt("guess319463"), Ok(Vec::new()));
    assert_eq!(blob.decrypt("guess319462"), Err(VaultError::DecryptionFailed));
    let mut storage = EncryptedStorage::new();
    storage.add_site("alice", "secret", "github.com", 1, "Maximum").unwrap();
    storage.delete_site("alice", "secret", "github.com").unwrap();
    assert_eq!(storage.decrypt_sites("alice", "guess319463"), Ok(Vec::new()));
}

#[test]
fn documented_ciphertext_opens_and_holds_no_records() {
    let storage = documented_vault();
    assert_eq!(storage.decrypt_sites("reader", "magickey"), Ok(Vec::new()));
    assert_eq!(storage.decrypt_sites("reader", "magickez"), Err(VaultError::DecryptionFailed));
}

#[test]
fn damaged_blob_does_not_open() {
    let kept = "{\"a\":\"not base64!\",\"b\":\"\",\"c\":\"AAAA\"}".to_string();
    let (storage, cleared) = EncryptedStorage::from_local_storage(Some(kept), None);
    assert!(!cleared);
    assert_eq!(storage.decrypt_sites("a", "magickey"), Err(VaultError::DecryptionFailed));
    assert_eq!(storage.decrypt_sites("b", "magickey"), Err(VaultError::DecryptionFailed));
    assert_eq!(storage.decrypt_sites("c", "magickey"), Err(VaultError::DecryptionFailed));
}

#[test]
fn unknown_user_has_no_records() {
    let storage = EncryptedStorage::new();
    assert_eq!(storage.decrypt_sites("nobody", "whatever"), Ok(Vec::new()));
    assert_eq!(storage.known_user_names(), Vec::<String>::new());
    assert_eq!(storage.last_user(), "");
}

#[test]
fn add_then_list() {
    let mut storage = EncryptedStorage::new();
    assert_eq!(storage.add_site("alice", "s3cret", "github.com", 1, "Maximum"), Ok(()));
    let sites = storage.decrypt_sites("alice", "s3cret").unwrap();
    assert_eq!(sites, vec![Site::new("github.com", 1, "Maximum")]);
    assert_eq!(storage.known_user_names(), vec!["alice".to_string()]);
}

#[test]
fn add_twice_keeps_one_record() {
    let mut storage = EncryptedStorage::new();
    storage.add_site("alice", "s3cret", "github.com", 1, "Maximum").unwrap();
    let kept = kept_mapping(&storage);
    assert_eq!(storage.add_site("alice", "s3cret", "github.com", 2, "Long"), Ok(()));
    assert_eq!(kept_mapping(&storage), kept);
    assert_eq!(
        storage.decrypt_sites("alice", "s3cret"),
        Ok(vec![Site::new("github.com", 1, "Maximum")])
    );
}

#[test]
fn records_are_listed_by_name() {
    let mut storage = EncryptedStorage::new();
    for name in ["pear", "Apple", "fig", "apple"] {
        storage.add_site("alice", "s3cret", name, 1, "Maximum").unwrap();
    }
    let listed: Vec<String> = storage
        .decrypt_sites("alice", "s3cret")
        .unwrap()
        .into_iter()
        .map(|site| site.site_name)
        .collect();
    assert_eq!(listed, vec!["Apple", "apple", "fig", "pear"]);
}

#[test]
fn users_have_their_own_lists() {
    let mut storage = EncryptedStorage::new();
    storage.add_site("alice", "one", "a.com", 1, "Maximum").unwrap();
    storage.add_site("bob", "two", "b.com", 2, "PIN").unwrap();
    storage.add_site("alice", "one", "c.com", 3, "Long").unwrap();
    assert_eq!(storage.known_user_names(), vec!["alice".to_string(), "bob".to_string()]);
    assert_eq!(
        storage.decrypt_sites("alice", "one"),
        Ok(vec![Site::new("a.com", 1, "Maximum"), Site::new("c.com", 3, "Long")])
    );
    assert_eq!(storage.decrypt_sites("bob", "two"), Ok(vec![Site::new("b.com", 2, "PIN")]));
    assert_eq!(storage.decrypt_sites("bob", "one"), Err(VaultError::DecryptionFailed));
}

#[test]
fn update_changes_counter_and_type() {
    let mut storage = EncryptedStorage::new();
    storage.add_site("alice", "s3cret", "a.com", 1, "Maximum").unwrap();
    storage.add_site("alice", "s3cret", "b.com", 1, "Maximum").unwrap();
    assert_eq!(storage.update_site("alice", "s3cret", "a.com", 9, "PIN"), Ok(()));
    assert_eq!(
        storage.decrypt_sites("alice", "s3cret"),
        Ok(vec![Site::new("a.com", 9, "PIN"), Site::new("b.com", 1, "Maximum")])
    );
}

#[test]
fn update_without_a_record_changes_nothing() {
    let mut storage = EncryptedStorage::new();
    assert_eq!(storage.update_site("alice", "s3cret", "a.com", 9, "PIN"), Ok(()));
    assert_eq!(storage.known_user_names(), Vec::<String>::new());
    storage.add_site("alice", "s3cret", "a.com", 1, "Maximum").unwrap();
    let kept = kept_mapping(&storage);
    assert_eq!(storage.update_site("alice", "s3cret", "b.com", 9, "PIN"), Ok(()));
    assert_eq!(kept_mapping(&storage), kept);
}

#[test]
fn delete_then_list() {
    let mut storage = EncryptedStorage::new();
    storage.add_site("alice", "s3cret", "github.com", 1, "Maximum").unwrap();
    storage.add_site("alice", "s3cret", "example.com", 1, "Maximum").unwrap();
    assert_eq!(storage.delete_site("alice", "s3cret", "github.com"), Ok(()));
    assert_eq!(
        storage.decrypt_sites("alice", "s3cret"),
        Ok(vec![Site::new("example.com", 1, "Maximum")])
    );
}

#[test]
fn delete_of_an_absent_record_changes_nothing() {
    let mut storage = EncryptedStorage::new();
    storage.add_site("alice", "s3cret", "example.com", 1, "Maximum").unwrap();
    let kept = kept_mapping(&storage);
    assert_eq!(storage.delete_site("alice", "s3cret", "github.com"), Ok(()));
    assert_eq!(kept_mapping(&storage), kept);
    assert_eq!(
        storage.decrypt_sites("alice", "s3cret"),
        Ok(vec![Site::new("example.com", 1, "Maximum")])
    );
}

#[test]
fn delete_of_the_last_record_keeps_the_user() {
    let mut storage = EncryptedStorage::new();
    storage.add_site("alice", "s3cret", "github.com", 1, "Maximum").unwrap();
    assert_eq!(storage.delete_site("alice", "s3cret", "github.com"), Ok(()));
    assert_eq!(storage.known_user_names(), vec!["alice".to_string()]);
    assert_eq!(storage.decrypt_sites("alice", "s3cret"), Ok(Vec::new()));
    assert_eq!(storage.decrypt_sites("alice", "other"), Err(VaultError::DecryptionFailed));
}

#[test]
fn delete_for_an_unknown_user_makes_no_blob() {
    let mut storage = EncryptedStorage::new();
    assert_eq!(storage.delete_site("alice", "s3cret", "github.com"), Ok(()));
    assert_eq!(storage.known_user_names(), Vec::<String>::new());
}

#[test]
fn a_blob_that_does_not_open_is_left_alone() {
    let mut storage = EncryptedStorage::new();
    storage.add_site("alice", "s3cret", "github.com", 1, "Maximum").unwrap();
    let kept = kept_mapping(&storage);
    assert_eq!(
        storage.add_site("alice", "wrong", "example.com", 1, "Maximum"),
        Err(VaultError::DecryptionFailed)
    );
    assert_eq!(
        storage.update_site("alice", "wrong", "github.com", 2, "PIN"),
        Err(VaultError::DecryptionFailed)
    );
    assert_eq!(
        storage.delete_site("alice", "wrong", "github.com"),
        Err(VaultError::DecryptionFailed)
    );
    assert_eq!(
        storage.save_site("alice", "wrong", "github.com", 2, "PIN", false),
        Err(VaultError::DecryptionFailed)
    );
    assert_eq!(kept_mapping(&storage), kept);
}

#[test]
fn a_blob_that_holds_no_list_is_written_over() {
    let mut storage = documented_vault();
    assert_eq!(storage.add_site("reader", "magickey", "a.com", 1, "PIN"), Ok(()));
    assert_eq!(storage.decrypt_sites("reader", "magickey"), Ok(vec![Site::new("a.com", 1, "PIN")]));
}

#[test]
fn save_adds_a_new_record_and_updates_an_old_one() {
    let mut storage = EncryptedStorage::new();
    assert_eq!(storage.save_site("alice", "s3cret", "a.com", 1, "Maximum", true), Ok(()));
    assert_eq!(storage.save_site("alice", "s3cret", "a.com", 2, "PIN", true), Ok(()));
    assert_eq!(storage.decrypt_sites("alice", "s3cret"), Ok(vec![Site::new("a.com", 1, "Maximum")]));
    assert_eq!(storage.save_site("alice", "s3cret", "a.com", 2, "PIN", false), Ok(()));
    assert_eq!(storage.decrypt_sites("alice", "s3cret"), Ok(vec![Site::new("a.com", 2, "PIN")]));
    assert_eq!(storage.save_site("alice", "s3cret", "b.com", 2, "PIN", false), Ok(()));
    assert_eq!(storage.decrypt_sites("alice", "s3cret"), Ok(vec![Site::new("a.com", 2, "PIN")]));
}

#[test]
fn save_adds_no_record_without_a_name() {
    let mut storage = EncryptedStorage::new();
    assert_eq!(storage.save_site("alice", "s3cret", "", 1, "Maximum", true), Ok(()));
    assert_eq!(storage.known_user_names(), Vec::<String>::new());
    // add_site itself takes the empty name
    assert_eq!(storage.add_site("alice", "s3cret", "", 1, "Maximum"), Ok(()));
    assert_eq!(storage.decrypt_sites("alice", "s3cret"), Ok(vec![Site::new("", 1, "Maximum")]));
}

#[test]
fn last_user_is_noted() {
    let mut storage = EncryptedStorage::new();
    storage.set_last_user("alice");
    assert_eq!(storage.last_user(), "alice");
    storage.add_site("bob", "s3cret", "a.com", 1, "Maximum").unwrap();
    assert_eq!(storage.last_user(), "alice");
    assert_eq!(storage.to_local_storage().1, "alice");
}

#[test]
fn empty_vault_is_kept_as_an_empty_object() {
    let storage = EncryptedStorage::new();
    assert_eq!(storage.to_local_storage(), ("{}".to_string(), String::new()));
}

#[test]
fn kept_vault_is_loaded_again() {
    let mut storage = EncryptedStorage::new();
    storage.add_site("bob", "two", "b.com", 2, "PIN").unwrap();
    storage.add_site("alice", "one", "a.com", 1, "Maximum").unwrap();
    storage.set_last_user("bob");
    let (mapping, last_user) = storage.to_local_storage();
    assert!(mapping.starts_with("{\"bob\":\""));
    let (loaded, cleared) =
        EncryptedStorage::from_local_storage(Some(mapping.clone()), Some(last_user));
    assert!(!cleared);
    assert_eq!(loaded.to_local_storage(), (mapping, "bob".to_string()));
    assert_eq!(loaded.known_user_names(), vec!["bob".to_string(), "alice".to_string()]);
    assert_eq!(loaded.decrypt_sites("alice", "one"), Ok(vec![Site::new("a.com", 1, "Maximum")]));
    assert_eq!(loaded.decrypt_sites("bob", "two"), Ok(vec![Site::new("b.com", 2, "PIN")]));
}

#[test]
fn kept_text_is_exact() {
    let storage = documented_vault();
    assert_eq!(
        storage.to_local_storage().0,
        "{\"reader\":\"DS/2U8royDnJDiNY2ps3f6ZoTbpZo8ZtUGYLGEjwLDQ=\"}"
    );
}

#[test]
fn a_mapping_that_does_not_parse_gives_an_empty_vault() {
    for kept in ["", "not json", "[]", "null", "{\"alice\":1}", "{\"alice\":\"x\",\"bob\":null}"] {
        let (storage, cleared) =
            EncryptedStorage::from_local_storage(Some(kept.to_string()), Some("alice".to_string()));
        assert!(cleared, "{}", kept);
        assert_eq!(storage.known_user_names(), Vec::<String>::new());
        assert_eq!(storage.last_user(), "alice");
        assert_eq!(storage.to_local_storage().0, "{}");
    }
}

#[test]
fn an_absent_mapping_stands_for_a_text_that_does_not_parse() {
    let (storage, cleared) = EncryptedStorage::from_local_storage(None, None);
    assert!(cleared);
    assert_eq!(storage.known_user_names(), Vec::<String>::new());
    assert_eq!(storage.last_user(), "");
}

#[test]
fn a_name_given_twice_keeps_its_last_blob() {
    let kept = "{\"a\":\"one\",\"b\":\"two\",\"a\":\"three\"}".to_string();
    let (storage, cleared) = EncryptedStorage::from_local_storage(Some(kept), None);
    assert!(!cleared);
    assert_eq!(storage.known_user_names(), vec!["a".to_string(), "b".to_string()]);
    assert_eq!(storage.to_local_storage().0, "{\"a\":\"three\",\"b\":\"two\"}");
}

#[test]
fn blobs_are_read_from_members_that_are_texts() {
    let members = vec![
        ("alice".to_string(), Field::Text("one".to_string())),
        ("bob".to_string(), Field::Text("two".to_string())),
    ];
    let blobs = blobs_from_object(members).unwrap();
    assert_eq!(blobs.len(), 2);
    assert_eq!(blobs[0].0, "alice");
    assert_eq!(blobs[1].1.as_str(), "two");
    let spoiled = vec![
        ("alice".to_string(), Field::Text("one".to_string())),
        ("bob".to_string(), Field::Int(2)),
    ];
    assert!(blobs_from_object(spoiled).is_none());
}

#[test]
fn error_has_a_message() {
    assert_eq!(VaultError::DecryptionFailed.message(), "Decryption error");
}

#[test]
fn vault_and_blob_can_be_copied() {
    let mut storage = EncryptedStorage::new();
    storage.add_site("alice", "s3cret", "a.com", 1, "Maximum").unwrap();
    storage.set_last_user("alice");
    let copy = storage.clone();
    storage.add_site("bob", "s3cret", "b.com", 1, "Maximum").unwrap();
    assert_eq!(copy.known_user_names(), vec!["alice".to_string()]);
    assert_eq!(copy.last_user(), "alice");
    assert_eq!(copy.decrypt_sites("alice", "s3cret"), Ok(vec![Site::new("a.com", 1, "Maximum")]));
    let blob = EncryptedSites::from_sites(&[], "s3cret");
    assert_eq!(blob.clone().as_str(), blob.as_str());
}
