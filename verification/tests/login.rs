use mpw_vault::login::try_login;
use mpw_vault::sites::Site;
use mpw_vault::storage::{EncryptedStorage, VaultError};

/// The storage secret of the user "alice" with the master password
/// "correct-horse".
const ALICE_SECRET: &str = "J5.A3h!kuDNI7RFERVi0";

#[test]
fn pins_of_john_doe() {
    let storage = EncryptedStorage::new();
    let mut login = try_login("John Doe", "password", &storage).ok().unwrap();
    assert_eq!(login.name(), "John Doe");
    assert_eq!(login.site_password("tomato", "PIN", 1), Some("5914".to_string()));
    assert_eq!(login.site_password("potato", "PIN", 1), Some("7329".to_string()));
    assert_eq!(login.site_password("carrot", "PIN", 1), Some("0762".to_string()));
    assert_eq!(login.site_password("tomato", "PIN", 2), Some("2525".to_string()));
    assert_eq!(login.site_password("potato", "PIN", 2), Some("9390".to_string()));
    assert_eq!(login.site_password("carrot", "PIN", 2), Some("2750".to_string()));
}

#[test]
fn passwords_of_every_type() {
    let storage = EncryptedStorage::new();
    let mut login =
        try_login("Robert Lee Mitchell", "banana colored duckling", &storage).ok().unwrap();
    let site = "masterpasswordapp.com";
    assert_eq!(login.site_password(site, "Maximum", 1), Some("W6@692^B1#&@gVdSdLZ@".to_string()));
    assert_eq!(login.site_password(site, "Long", 1), Some("Jejr5[RepuSosp".to_string()));
    assert_eq!(login.site_password(site, "Medium", 1), Some("Jej2$Quv".to_string()));
    assert_eq!(login.site_password(site, "Basic", 1), Some("WAo2xIg6".to_string()));
    assert_eq!(login.site_password(site, "Short", 1), Some("Jej2".to_string()));
    assert_eq!(login.site_password(site, "PIN", 1), Some("7662".to_string()));
    assert_eq!(login.site_password(site, "Name", 1), Some("jejraquvo".to_string()));
    assert_eq!(login.site_password(site, "Phrase", 1), Some("jejr quv cabsibu tam".to_string()));
}

#[test]
fn alice_scenario() {
    let mut storage = EncryptedStorage::new();
    let mut login = try_login("alice", "correct-horse", &storage).ok().unwrap();
    assert_eq!(login.name(), "alice");
    assert_eq!(login.storage_password(), ALICE_SECRET);
    let secret = login.storage_password().to_string();
    storage.add_site("alice", &secret, "example.com", 1, "Maximum").unwrap();
    let sites = storage.decrypt_sites("alice", &secret).unwrap();
    assert_eq!(sites, vec![Site::new("example.com", 1, "Maximum")]);
    let site = &sites[0];
    let password = login.site_password(&site.site_name, &site.password_type, site.counter);
    assert_eq!(password, Some("t3@hJ6GGXSRR2((NKazB".to_string()));
    let again = login.site_password(&site.site_name, &site.password_type, site.counter);
    assert_eq!(again, password);
    assert_eq!(login.storage_password(), ALICE_SECRET);
    // another counter, another type, another site: another password
    assert_eq!(
        login.site_password("example.com", "Maximum", 2),
        Some("moDkNRKUDlXcGOU(D66:".to_string())
    );
    assert_eq!(login.site_password("github.com", "Long", 1), Some("Kune3[CacuMobl".to_string()));
}

#[test]
fn login_is_the_same_each_time() {
    let mut storage = EncryptedStorage::new();
    storage.add_site("alice", ALICE_SECRET, "example.com", 1, "Maximum").unwrap();
    let mut login = try_login("alice", "correct-horse", &storage).ok().unwrap();
    assert_eq!(login.storage_password(), ALICE_SECRET);
    assert_eq!(
        login.site_password("example.com", "Maximum", 1),
        Some("t3@hJ6GGXSRR2((NKazB".to_string())
    );
    assert_eq!(
        storage.decrypt_sites(login.name(), login.storage_password()),
        Ok(vec![Site::new("example.com", 1, "Maximum")])
    );
}

#[test]
fn wrong_password_is_refused() {
    let mut storage = EncryptedStorage::new();
    storage.add_site("alice", ALICE_SECRET, "example.com", 1, "Maximum").unwrap();
    let kept = storage.to_local_storage();
    assert!(matches!(
        try_login("alice", "wrong-horse", &storage),
        Err(VaultError::DecryptionFailed)
    ));
    assert_eq!(storage.to_local_storage(), kept);
}

#[test]
fn right_password_under_another_name_does_not_open_the_blob() {
    let kept = {
        let mut storage = EncryptedStorage::new();
        storage.add_site("bob", ALICE_SECRET, "example.com", 1, "Maximum").unwrap();
        storage.to_local_storage().0
    };
    let (storage, _) = EncryptedStorage::from_local_storage(Some(kept), None);
    assert!(matches!(
        try_login("bob", "correct-horse", &storage),
        Err(VaultError::DecryptionFailed)
    ));
}

#[test]
fn new_user_logs_in_and_has_no_records() {
    let mut storage = EncryptedStorage::new();
    storage.add_site("alice", ALICE_SECRET, "example.com", 1, "Maximum").unwrap();
    let kept = storage.to_local_storage();
    let login = try_login("carol", "anything", &storage).ok().unwrap();
    assert_eq!(login.name(), "carol");
    assert_eq!(storage.decrypt_sites("carol", login.storage_password()), Ok(Vec::new()));
    assert_eq!(storage.to_local_storage(), kept);
    assert_eq!(storage.known_user_names(), vec!["alice".to_string()]);
}

#[test]
fn no_password_without_name_type_or_counter() {
    let storage = EncryptedStorage::new();
    let mut login = try_login("", "", &storage).ok().unwrap();
    assert_eq!(login.name(), "");
    assert_eq!(login.site_password("", "Maximum", 1), None);
    assert_eq!(login.site_password("example.com", "maximum", 1), None);
    assert_eq!(login.site_password("example.com", "", 1), None);
    assert_eq!(login.site_password("example.com", "Maximum", 0), None);
    assert_eq!(login.site_password("example.com", "Maximum", -1), None);
    assert_eq!(login.site_password("example.com", "Maximum", i32::MIN), None);
    assert!(login.site_password("example.com", "Maximum", i32::MAX).is_some());
    assert_eq!(login.site_password("x", "PIN", 1).map(|pin| pin.len()), Some(4));
}
