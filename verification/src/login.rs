//! Logging in: the secrets of a session are derived from the user's name and
//! master password, and the login stands where the user's blob opens under
//! the derived storage secret. Nothing of the password is kept.

use crate::derive::{
    derive_password, derived_password, generator_key, master_key, new_generator, type_named,
    PasswordType,
};
use crate::sites::{sorted_by_name, SiteView};
use crate::storage::{
    blob_of, has_user, opened, stored_sites, Blobs, EncryptedStorage, VaultError,
};
use vstd::prelude::*;

verus! {

/// The reserved site name under which the storage secret is derived.
pub const STORAGE_PASSWORD_SITE: &'static str = "__storage__";

/// The counter with which the storage secret is derived.
pub const STORAGE_PASSWORD_COUNTER: u32 = 1;

/// The secrets of a user who has logged in.
pub struct LoginData {
    name: String,
    masterkey: mpw::SeedGenerator,
    storage_password: String,
}

/// A session as a mathematical value.
pub ghost struct LoginView {
    pub name: Seq<char>,
    pub key: Seq<u8>,
    pub storage_password: Seq<char>,
}

/// The secret under which the blob of the owner of a key is kept.
pub open spec fn storage_secret(key: Seq<u8>) -> Seq<char> {
    derived_password(key, STORAGE_PASSWORD_SITE@, PasswordType::Maximum, STORAGE_PASSWORD_COUNTER)
}

/// The session of a user with that name and master password.
pub open spec fn login_of(name: Seq<char>, password: Seq<char>) -> LoginView {
    LoginView {
        name,
        key: master_key(name, password),
        storage_password: storage_secret(master_key(name, password)),
    }
}

/// The password of a site record under a key: none where the site has no
/// name, the password type is not the name of one, or the counter is below 1.
pub open spec fn site_password_of(
    key: Seq<u8>,
    site_name: Seq<char>,
    pw_type: Seq<char>,
    counter: i32,
) -> Option<Seq<char>> {
    match type_named(pw_type) {
        Some(kind) => if site_name.len() > 0 && counter >= 1 {
            Some(derived_password(key, site_name, kind, counter as u32))
        } else {
            None
        },
        None => None,
    }
}

impl View for LoginData {
    type V = LoginView;

    closed spec fn view(&self) -> LoginView {
        LoginView {
            name: self.name@,
            key: generator_key(self.masterkey),
            storage_password: self.storage_password@,
        }
    }
}

impl LoginData {
    /// The user's name.
    pub fn name(&self) -> (name: &str)
        ensures
            name@ == self@.name,
    {
        self.name.as_str()
    }

    /// The secret under which the user's blob is kept.
    pub fn storage_password(&self) -> (secret: &str)
        ensures
            secret@ == self@.storage_password,
    {
        self.storage_password.as_str()
    }

    /// Derives the password of a site record. The session stays as it is.
    pub fn site_password(&mut self, site_name: &str, pw_type: &str, counter: i32) -> (password:
        Option<String>)
        ensures
            final(self)@ == old(self)@,
            match site_password_of(old(self)@.key, site_name@, pw_type@, counter) {
                Some(text) => password is Some && password.unwrap()@ == text,
                None => password is None,
            },
    {
        match PasswordType::from_name(pw_type) {
            Some(kind) => {
                if site_name.unicode_len() > 0 && counter >= 1 {
                    Some(derive_password(&mut self.masterkey, site_name, kind, counter as u32))
                } else {
                    None
                }
            },
            None => None,
        }
    }
}

/// Logs a user in. The secrets are derived from the name and the master
/// password; the login stands where the user has no blob yet or the blob opens
/// under the derived storage secret, and is refused where the blob does not
/// open.
pub fn try_login(name: &str, password: &str, storage: &EncryptedStorage) -> (login: Result<
    LoginData,
    VaultError,
>)
    ensures
        match stored_sites(storage@.blobs, name@, login_of(name@, password@).storage_password) {
            Ok(_) => login is Ok && login.unwrap()@ == login_of(name@, password@),
            Err(_) => login matches Err(VaultError::DecryptionFailed),
        },
        !has_user(storage@.blobs, name@) ==> login is Ok,
{
    let mut masterkey = new_generator(name, password);
    let storage_password = derive_password(
        &mut masterkey,
        STORAGE_PASSWORD_SITE,
        PasswordType::Maximum,
        STORAGE_PASSWORD_COUNTER,
    );
    match storage.decrypt_sites(name, storage_password.as_str()) {
        Ok(_) => Ok(LoginData { name: name.to_owned(), masterkey, storage_password }),
        Err(error) => Err(error),
    }
}

/// The secrets of a session depend on the name and the master password
/// alone: two sessions of one name and password hold the same key and the same
/// storage secret, and derive the same password for every site record.
pub proof fn lemma_login_is_determined(
    name: Seq<char>,
    password: Seq<char>,
    one: LoginView,
    other: LoginView,
)
    requires
        one == login_of(name, password),
        other == login_of(name, password),
    ensures
        one.key == other.key,
        one.storage_password == other.storage_password,
        forall|site_name: Seq<char>, pw_type: Seq<char>, counter: i32|
            #[trigger] site_password_of(one.key, site_name, pw_type, counter) == site_password_of(
                other.key,
                site_name,
                pw_type,
                counter,
            ),
{
}

/// A login with a name that has no blob stands: the user has no records
/// yet, and none are listed.
pub proof fn lemma_new_user_logs_in(blobs: Blobs, name: Seq<char>, password: Seq<char>)
    requires
        !has_user(blobs, name),
    ensures
        stored_sites(blobs, name, login_of(name, password).storage_password) == Ok::<
            Seq<SiteView>,
            VaultError,
        >(Seq::empty()),
        sorted_by_name(Seq::<SiteView>::empty()) == Seq::<SiteView>::empty(),
{
}

/// A login is refused where the user's blob does not open under the storage
/// secret derived from the password given: nothing is read from the blob.
pub proof fn lemma_shut_blob_refuses_login(blobs: Blobs, name: Seq<char>, password: Seq<char>)
    requires
        blob_of(blobs, name) matches Some(blob) && opened(
            blob,
            login_of(name, password).storage_password,
        ) is None,
    ensures
        stored_sites(blobs, name, login_of(name, password).storage_password) == Err::<
            Seq<SiteView>,
            VaultError,
        >(VaultError::DecryptionFailed),
{
}

} // verus!
