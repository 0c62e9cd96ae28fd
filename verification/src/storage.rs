//! The vault: for each user one encrypted blob that holds the user's site
//! records, and the name of the user who logged in last.
//!
//! Every change reads the whole list of a user, changes it and writes the
//! whole list back under the same secret; a blob that cannot be opened is
//! never replaced.

use crate::cipher::{decrypt, decrypted, encrypt, encrypted};
use crate::codec::{decode_sites, encode_sites, sites_of_text, sites_text};
use crate::json::{
    members_plain, names_distinct, object_parsed, object_text, object_view, parse_object,
    render_object, Field, FieldView, ObjectView,
};
use crate::sites::{
    has_site, holds_once, insert_site, lemma_add_twice_adds_once, lemma_added_site_stands_once,
    lemma_deleted_site_is_gone, lemma_sorted_keeps_names, names_unique, remove_site, replace_site,
    sort_sites, sorted_by_name, views, with_site, with_update, without_site, Site, SiteView,
};
use crate::text::same_text;
use vstd::prelude::*;

verus! {

/// Why an operation on the vault failed.
#[derive(Debug, Clone, Copy, PartialEq, Eq, Structural)]
pub enum VaultError {
    /// The blob could not be opened with the secret: the secret is wrong or
    /// the blob is damaged.
    DecryptionFailed,
}

impl VaultError {
    /// What to tell the user.
    pub fn message(&self) -> (text: &'static str)
        ensures
            text@ == "Decryption error"@,
    {
        match self {
            VaultError::DecryptionFailed => "Decryption error",
        }
    }
}

/// The text that stands for an absent mapping when the vault is loaded.
pub const ABSENT_MAPPING: &'static str = "[]";

/// The encrypted list of site records of one user.
#[derive(Debug)]
pub struct EncryptedSites(String);

/// The blobs of a vault as mathematical values: for each user, in the order
/// in which they came, the name and the blob.
pub type Blobs = Seq<(Seq<char>, Seq<char>)>;

/// A vault as a mathematical value.
pub ghost struct StorageView {
    pub blobs: Blobs,
    pub last_user: Seq<char>,
}

/// The vault of all users.
#[derive(Debug)]
pub struct EncryptedStorage {
    db: Vec<(String, EncryptedSites)>,
    last_user: String,
}

/// The records that a blob gives under a secret, where it opens: those that
/// its text holds.
pub open spec fn opened(blob: Seq<char>, secret: Seq<char>) -> Option<Seq<SiteView>> {
    match decrypted(secret, blob) {
        Some(text) => Some(sites_of_text(text)),
        None => None,
    }
}

/// The blob made of a list of records under a secret.
pub open spec fn sealed(sites: Seq<SiteView>, secret: Seq<char>) -> Seq<char> {
    encrypted(secret, sites_text(sites))
}

/// Whether the vault holds a blob of that user.
pub open spec fn has_user(blobs: Blobs, user: Seq<char>) -> bool {
    exists|i: int| 0 <= i < blobs.len() && (#[trigger] blobs[i]).0 == user
}

/// Whether no two blobs belong to one user.
pub open spec fn users_distinct(blobs: Blobs) -> bool {
    forall|i: int, j: int|
        0 <= i < j < blobs.len() ==> (#[trigger] blobs[i]).0 != (#[trigger] blobs[j]).0
}

/// The place of the blob of that user, where there is one.
pub open spec fn place_of(blobs: Blobs, user: Seq<char>) -> int {
    choose|at: int| 0 <= at < blobs.len() && blobs[at].0 == user
}

/// The blob of that user.
pub open spec fn blob_of(blobs: Blobs, user: Seq<char>) -> Option<Seq<char>> {
    if has_user(blobs, user) {
        Some(blobs[place_of(blobs, user)].1)
    } else {
        None
    }
}

/// The blobs after `blob` became that of `user`: in place of the user's
/// earlier blob, or behind the others.
pub open spec fn with_blob(blobs: Blobs, user: Seq<char>, blob: Seq<char>) -> Blobs {
    if has_user(blobs, user) {
        blobs.update(place_of(blobs, user), (user, blob))
    } else {
        blobs.push((user, blob))
    }
}

/// The records of a user as the vault holds them: none where the user has no
/// blob, else what the blob gives under the secret.
pub open spec fn stored_sites(blobs: Blobs, user: Seq<char>, secret: Seq<char>) -> Result<
    Seq<SiteView>,
    VaultError,
> {
    match blob_of(blobs, user) {
        None => Ok(Seq::empty()),
        Some(blob) => match opened(blob, secret) {
            Some(sites) => Ok(sites),
            None => Err(VaultError::DecryptionFailed),
        },
    }
}

/// The blobs after a record was added for a user: the list with the record
/// at its end is written back, unless the list holds a record of that name
/// or the user's blob does not open.
pub open spec fn after_add(blobs: Blobs, user: Seq<char>, secret: Seq<char>, site: SiteView) -> Blobs {
    match stored_sites(blobs, user, secret) {
        Ok(list) => if has_site(list, site.site_name) {
            blobs
        } else {
            with_blob(blobs, user, sealed(list.push(site), secret))
        },
        Err(_) => blobs,
    }
}

/// The blobs after a record was updated for a user: the list with the record
/// in place of the first of its name is written back, unless the list holds
/// no record of that name or the user's blob does not open.
pub open spec fn after_update(
    blobs: Blobs,
    user: Seq<char>,
    secret: Seq<char>,
    site: SiteView,
) -> Blobs {
    match stored_sites(blobs, user, secret) {
        Ok(list) => if has_site(list, site.site_name) {
            with_blob(blobs, user, sealed(with_update(list, site), secret))
        } else {
            blobs
        },
        Err(_) => blobs,
    }
}

/// The blobs after the records of a name were deleted for a user: the list
/// without them is written back, unless the user has no blob or the blob does
/// not open.
pub open spec fn after_delete(
    blobs: Blobs,
    user: Seq<char>,
    secret: Seq<char>,
    site_name: Seq<char>,
) -> Blobs {
    match stored_sites(blobs, user, secret) {
        Ok(list) => if has_user(blobs, user) {
            with_blob(blobs, user, sealed(without_site(list, site_name), secret))
        } else {
            blobs
        },
        Err(_) => blobs,
    }
}

/// What a change reports: the error where the user's blob does not open.
pub open spec fn change_outcome(blobs: Blobs, user: Seq<char>, secret: Seq<char>) -> Result<
    (),
    VaultError,
> {
    match stored_sites(blobs, user, secret) {
        Ok(_) => Ok(()),
        Err(error) => Err(error),
    }
}

/// The JSON object written for the blobs.
pub open spec fn object_of_blobs(blobs: Blobs) -> ObjectView {
    Seq::new(blobs.len(), |i: int| (blobs[i].0, FieldView::Text(blobs[i].1)))
}

/// The blobs read from a JSON object, where each of its members is a text.
pub open spec fn blobs_of_object(object: ObjectView) -> Option<Blobs> {
    if forall|i: int| 0 <= i < object.len() ==> (#[trigger] object[i]).1 is Text {
        Some(Seq::new(object.len(), |i: int| (object[i].0, object[i].1->Text_0)))
    } else {
        None
    }
}

/// The text written for the blobs.
pub open spec fn blobs_text(blobs: Blobs) -> Seq<char> {
    object_text(object_of_blobs(blobs))
}

/// The blobs read from a text, where the text is a mapping from names to
/// texts.
pub open spec fn blobs_of_text(text: Seq<char>) -> Option<Blobs> {
    match object_parsed(text) {
        Some(object) => blobs_of_object(object),
        None => None,
    }
}

/// Where the users are distinct, a user's blob stands at one place only.
pub proof fn lemma_place_unique(blobs: Blobs, user: Seq<char>, at: int)
    requires
        users_distinct(blobs),
        0 <= at < blobs.len(),
        blobs[at].0 == user,
    ensures
        has_user(blobs, user),
        place_of(blobs, user) == at,
        blob_of(blobs, user) == Some(blobs[at].1),
{
    let chosen = place_of(blobs, user);
    assert(0 <= chosen < blobs.len() && blobs[chosen].0 == user);
    if chosen < at {
        assert(blobs[chosen].0 != blobs[at].0);
    } else if at < chosen {
        assert(blobs[at].0 != blobs[chosen].0);
    }
}

/// After a blob became that of a user it is the user's blob, every other
/// user has the blob that they had, and the users stay distinct.
pub proof fn lemma_with_blob(blobs: Blobs, user: Seq<char>, blob: Seq<char>)
    requires
        users_distinct(blobs),
    ensures
        users_distinct(with_blob(blobs, user, blob)),
        blob_of(with_blob(blobs, user, blob), user) == Some(blob),
        forall|other: Seq<char>|
            other != user ==> #[trigger] blob_of(with_blob(blobs, user, blob), other) == blob_of(
                blobs,
                other,
            ),
{
    let after = with_blob(blobs, user, blob);
    let at = if has_user(blobs, user) {
        place_of(blobs, user)
    } else {
        blobs.len() as int
    };
    assert(after[at] == (user, blob));
    assert forall|i: int| 0 <= i < after.len() && i != at implies #[trigger] after[i]
        == blobs[i] && after[i].0 != user by {
        if has_user(blobs, user) {
            if i < at {
                assert(blobs[i].0 != blobs[at].0);
            } else {
                assert(blobs[at].0 != blobs[i].0);
            }
        }
    }
    assert forall|i: int, j: int| 0 <= i < j < after.len() implies (#[trigger] after[i]).0 != (
    #[trigger] after[j]).0 by {
        if i != at && j != at {
            assert(blobs[i].0 != blobs[j].0);
        }
    }
    lemma_place_unique(after, user, at);
    assert forall|other: Seq<char>| other != user implies #[trigger] blob_of(after, other)
        == blob_of(blobs, other) by {
        if has_user(blobs, other) {
            let p = place_of(blobs, other);
            assert(after[p] == blobs[p]);
            lemma_place_unique(blobs, other, p);
            lemma_place_unique(after, other, p);
        } else if has_user(after, other) {
            let p = place_of(after, other);
            assert(after[p] == blobs[p]);
        }
    }
}

/// Reading the object written for the blobs gives the blobs; each member of
/// the object holds a text, and the members' names are distinct where the
/// users are.
pub proof fn lemma_blobs_object_round_trip(blobs: Blobs)
    ensures
        blobs_of_object(object_of_blobs(blobs)) == Some(blobs),
        members_plain(object_of_blobs(blobs)),
        users_distinct(blobs) ==> names_distinct(object_of_blobs(blobs)),
{
    let object = object_of_blobs(blobs);
    assert(blobs_of_object(object).unwrap() =~= blobs);
    if users_distinct(blobs) {
        assert forall|i: int, j: int| 0 <= i < j < object.len() implies (#[trigger] object[i]).0
            != (#[trigger] object[j]).0 by {
            assert(blobs[i].0 != blobs[j].0);
        }
    }
}

/// Whether a list comes back from the blob made of it under the secret. It
/// does for every blob that `EncryptedSites::from_sites` has made.
pub open spec fn seals_well(sites: Seq<SiteView>, secret: Seq<char>) -> bool {
    opened(sealed(sites, secret), secret) == Some(sites)
}

/// A record that was added is listed, and listed once: after `add_site` the
/// user's list is the earlier list with the record, and what `decrypt_sites`
/// then gives holds the record's name exactly once.
pub proof fn lemma_add_then_list(blobs: Blobs, user: Seq<char>, secret: Seq<char>, site: SiteView)
    requires
        users_distinct(blobs),
        stored_sites(blobs, user, secret) matches Ok(list) && names_unique(list) && seals_well(
            list.push(site),
            secret,
        ),
    ensures
        stored_sites(blobs, user, secret) matches Ok(list) && stored_sites(
            after_add(blobs, user, secret, site),
            user,
            secret,
        ) == Ok::<Seq<SiteView>, VaultError>(with_site(list, site)),
        stored_sites(after_add(blobs, user, secret, site), user, secret) matches Ok(listed)
            && names_unique(listed) && holds_once(sorted_by_name(listed), site.site_name),
{
    let list = stored_sites(blobs, user, secret)->Ok_0;
    lemma_added_site_stands_once(list, site);
    lemma_sorted_keeps_names(with_site(list, site), site.site_name);
    if !has_site(list, site.site_name) {
        lemma_with_blob(blobs, user, sealed(list.push(site), secret));
    }
}

/// Adding a record twice under one name adds it once: the second `add_site`
/// leaves the vault as the first made it.
pub proof fn lemma_add_twice(
    blobs: Blobs,
    user: Seq<char>,
    secret: Seq<char>,
    first: SiteView,
    second: SiteView,
)
    requires
        users_distinct(blobs),
        first.site_name == second.site_name,
        stored_sites(blobs, user, secret) matches Ok(list) && names_unique(list) && seals_well(
            list.push(first),
            secret,
        ),
    ensures
        after_add(after_add(blobs, user, secret, first), user, secret, second) == after_add(
            blobs,
            user,
            secret,
            first,
        ),
        stored_sites(after_add(blobs, user, secret, first), user, secret) matches Ok(listed)
            && holds_once(listed, first.site_name),
{
    let list = stored_sites(blobs, user, secret)->Ok_0;
    lemma_add_then_list(blobs, user, secret, first);
    lemma_added_site_stands_once(list, first);
    lemma_add_twice_adds_once(list, first, second);
}

/// A record that was deleted is no longer listed: after `delete_site` the
/// user's list is the earlier list without the records of that name, and
/// what `decrypt_sites` then gives holds none of that name. Where the list
/// held none, what is listed is what was listed before.
pub proof fn lemma_delete_then_list(
    blobs: Blobs,
    user: Seq<char>,
    secret: Seq<char>,
    site_name: Seq<char>,
)
    requires
        users_distinct(blobs),
        stored_sites(blobs, user, secret) matches Ok(list) && seals_well(
            without_site(list, site_name),
            secret,
        ),
    ensures
        stored_sites(blobs, user, secret) matches Ok(list) && stored_sites(
            after_delete(blobs, user, secret, site_name),
            user,
            secret,
        ) == Ok::<Seq<SiteView>, VaultError>(without_site(list, site_name)),
        stored_sites(after_delete(blobs, user, secret, site_name), user, secret) matches Ok(
            listed,
        ) && !has_site(sorted_by_name(listed), site_name),
        stored_sites(blobs, user, secret) matches Ok(list) && (!has_site(list, site_name)
            ==> stored_sites(after_delete(blobs, user, secret, site_name), user, secret) == Ok::<
            Seq<SiteView>,
            VaultError,
        >(list)),
{
    let list = stored_sites(blobs, user, secret)->Ok_0;
    let rest = without_site(list, site_name);
    lemma_deleted_site_is_gone(list, site_name);
    lemma_sorted_keeps_names(rest, site_name);
    if has_user(blobs, user) {
        lemma_with_blob(blobs, user, sealed(rest, secret));
    }
}

impl View for EncryptedSites {
    type V = Seq<char>;

    closed spec fn view(&self) -> Seq<char> {
        self.0@
    }
}

impl Clone for EncryptedSites {
    fn clone(&self) -> (copy: Self)
        ensures
            copy@ == self@,
    {
        EncryptedSites(self.0.clone())
    }
}

impl EncryptedSites {
    /// Opens the blob with the secret and reads the records that it holds.
    /// Fails where the blob does not open; a blob that opens and holds no
    /// list of records gives the empty list.
    pub fn decrypt(&self, password: &str) -> (sites: Result<Vec<Site>, VaultError>)
        ensures
            match opened(self@, password@) {
                Some(list) => sites is Ok && views(sites.unwrap()@) == list,
                None => sites matches Err(VaultError::DecryptionFailed),
            },
    {
        match decrypt(password, self.0.as_str()) {
            Ok(text) => Ok(decode_sites(text.as_str())),
            Err(_) => Err(VaultError::DecryptionFailed),
        }
    }

    /// Makes the blob of a list of records under the secret. The blob opens
    /// under the same secret and gives the list back.
    pub fn from_sites(sites: &[Site], password: &str) -> (blob: EncryptedSites)
        ensures
            blob@ == sealed(views(sites@), password@),
            opened(blob@, password@) == Some(views(sites@)),
    {
        let text = encode_sites(sites);
        EncryptedSites(encrypt(password, text.as_str()))
    }

    /// The blob as the base64 text that is kept.
    pub fn as_str(&self) -> (text: &str)
        ensures
            text@ == self@,
    {
        self.0.as_str()
    }
}

/// The blobs of a vector as mathematical values.
pub open spec fn blobs_view(db: Seq<(String, EncryptedSites)>) -> Blobs {
    Seq::new(db.len(), |i: int| (db[i].0@, db[i].1@))
}

/// Looks for the blob of that user.
fn find_user(db: &Vec<(String, EncryptedSites)>, user: &str) -> (found: Option<usize>)
    ensures
        match found {
            Some(at) => at < db.len() && blobs_view(db@)[at as int].0 == user@,
            None => !has_user(blobs_view(db@), user@),
        },
{
    let mut i: usize = 0;
    while i < db.len()
        invariant
            0 <= i <= db.len(),
            forall|j: int| 0 <= j < i ==> (#[trigger] blobs_view(db@)[j]).0 != user@,
        decreases db.len() - i,
    {
        if same_text(db[i].0.as_str(), user) {
            return Some(i);
        }
        i += 1;
    }
    None
}

impl View for EncryptedStorage {
    type V = StorageView;

    closed spec fn view(&self) -> StorageView {
        StorageView { blobs: blobs_view(self.db@), last_user: self.last_user@ }
    }
}

impl Clone for EncryptedStorage {
    fn clone(&self) -> (copy: Self)
        ensures
            copy@ == self@,
    {
        proof {
            use_type_invariant(self);
        }
        let mut db: Vec<(String, EncryptedSites)> = Vec::new();
        let mut i: usize = 0;
        while i < self.db.len()
            invariant
                0 <= i <= self.db.len(),
                db@.len() == i,
                blobs_view(db@) == blobs_view(self.db@).take(i as int),
            decreases self.db.len() - i,
        {
            let ghost before = db@;
            let user = self.db[i].0.clone();
            let blob = self.db[i].1.clone();
            db.push((user, blob));
            proof {
                assert(db@ == before.push((user, blob)));
                assert forall|j: int| 0 <= j <= i implies #[trigger] blobs_view(db@)[j]
                    == blobs_view(self.db@)[j] by {
                    if j < i {
                        assert(blobs_view(db@)[j] == blobs_view(before)[j]);
                        assert(blobs_view(before)[j] == blobs_view(self.db@).take(i as int)[j]);
                    }
                }
                assert(blobs_view(db@) =~= blobs_view(self.db@).take(i + 1));
            }
            i += 1;
        }
        assert(blobs_view(db@) =~= blobs_view(self.db@));
        EncryptedStorage { db, last_user: self.last_user.clone() }
    }
}

impl EncryptedStorage {
    #[verifier::type_invariant]
    spec fn users_are_distinct(self) -> bool {
        users_distinct(blobs_view(self.db@))
    }

    /// A vault without blobs and without a last user.
    pub fn new() -> (storage: Self)
        ensures
            storage@.blobs.len() == 0,
            storage@.last_user.len() == 0,
    {
        EncryptedStorage { db: Vec::new(), last_user: String::new() }
    }

    /// The blob of that user, where the vault holds one.
    fn blob(&self, user: &str) -> (blob: Option<&EncryptedSites>)
        ensures
            match blob {
                Some(b) => blob_of(self@.blobs, user@) == Some(b@),
                None => blob_of(self@.blobs, user@) is None,
            },
    {
        proof {
            use_type_invariant(self);
        }
        match find_user(&self.db, user) {
            Some(at) => {
                proof {
                    lemma_place_unique(blobs_view(self.db@), user@, at as int);
                }
                Some(&self.db[at].1)
            },
            None => None,
        }
    }

    /// Makes `blob` the blob of that user.
    fn put_blob(&mut self, user: &str, blob: EncryptedSites)
        ensures
            final(self)@ == (StorageView {
                blobs: with_blob(old(self)@.blobs, user@, blob@),
                last_user: old(self)@.last_user,
            }),
    {
        proof {
            use_type_invariant(&*self);
        }
        let mut taken = EncryptedStorage::new();
        core::mem::swap(self, &mut taken);
        let EncryptedStorage { mut db, last_user } = taken;
        let ghost before = blobs_view(db@);
        match find_user(&db, user) {
            Some(at) => {
                proof {
                    lemma_place_unique(before, user@, at as int);
                }
                db[at] = (user.to_owned(), blob);
                assert(blobs_view(db@) =~= with_blob(before, user@, blob@));
            },
            None => {
                db.push((user.to_owned(), blob));
                assert(blobs_view(db@) =~= with_blob(before, user@, blob@));
            },
        }
        proof {
            lemma_with_blob(before, user@, blob@);
        }
        *self = EncryptedStorage { db, last_user };
    }

    /// The records of a user in the order of their names. A user without a
    /// blob has none; a blob that does not open under the secret is an error.
    pub fn decrypt_sites(&self, name: &str, password: &str) -> (sites: Result<
        Vec<Site>,
        VaultError,
    >)
        ensures
            match stored_sites(self@.blobs, name@, password@) {
                Ok(list) => sites is Ok && views(sites.unwrap()@) == sorted_by_name(list),
                Err(_) => sites matches Err(VaultError::DecryptionFailed),
            },
    {
        match self.blob(name) {
            Some(blob) => {
                let mut sites = blob.decrypt(password)?;
                sort_sites(&mut sites);
                Ok(sites)
            },
            None => {
                let sites: Vec<Site> = Vec::new();
                assert(views(sites@) =~= sorted_by_name(Seq::<SiteView>::empty()));
                Ok(sites)
            },
        }
    }

    /// Adds a record to the user's list and writes the list back, unless the
    /// list holds a record of that name already: then nothing changes. Where
    /// the user's blob does not open under the secret, nothing changes and
    /// the error is returned.
    pub fn add_site(
        &mut self,
        login_name: &str,
        storage_password: &str,
        site_name: &str,
        counter: i32,
        pw_type: &str,
    ) -> (done: Result<(), VaultError>)
        ensures
            ({
                let site = SiteView { site_name: site_name@, counter, password_type: pw_type@ };
                let before = stored_sites(old(self)@.blobs, login_name@, storage_password@);
                &&& done == change_outcome(old(self)@.blobs, login_name@, storage_password@)
                &&& final(self)@.last_user == old(self)@.last_user
                &&& final(self)@.blobs == after_add(
                    old(self)@.blobs,
                    login_name@,
                    storage_password@,
                    site,
                )
                &&& before matches Ok(list) ==> stored_sites(
                    final(self)@.blobs,
                    login_name@,
                    storage_password@,
                ) == Ok::<Seq<SiteView>, VaultError>(with_site(list, site))
            }),
    {
        proof {
            use_type_invariant(&*self);
        }
        let new_site = Site::new(site_name, counter, pw_type);
        let mut user_sites = match self.blob(login_name) {
            Some(blob) => blob.decrypt(storage_password)?,
            None => {
                let none: Vec<Site> = Vec::new();
                assert(views(none@) =~= Seq::<SiteView>::empty());
                none
            },
        };
        if insert_site(&mut user_sites, new_site) {
            let blob = EncryptedSites::from_sites(user_sites.as_slice(), storage_password);
            proof {
                lemma_with_blob(old(self)@.blobs, login_name@, blob@);
            }
            self.put_blob(login_name, blob);
        }
        Ok(())
    }

    /// Puts the counter and the password type into the user's first record of
    /// that name and writes the list back. Nothing changes where the user has
    /// no blob or no such record. Where the user's blob does not open under
    /// the secret, nothing changes and the error is returned.
    pub fn update_site(
        &mut self,
        login_name: &str,
        storage_password: &str,
        site_name: &str,
        counter: i32,
        pw_type: &str,
    ) -> (done: Result<(), VaultError>)
        ensures
            ({
                let site = SiteView { site_name: site_name@, counter, password_type: pw_type@ };
                let before = stored_sites(old(self)@.blobs, login_name@, storage_password@);
                &&& done == change_outcome(old(self)@.blobs, login_name@, storage_password@)
                &&& final(self)@.last_user == old(self)@.last_user
                &&& final(self)@.blobs == after_update(
                    old(self)@.blobs,
                    login_name@,
                    storage_password@,
                    site,
                )
                &&& before matches Ok(list) ==> stored_sites(
                    final(self)@.blobs,
                    login_name@,
                    storage_password@,
                ) == Ok::<Seq<SiteView>, VaultError>(with_update(list, site))
            }),
    {
        proof {
            use_type_invariant(&*self);
        }
        let new_site = Site::new(site_name, counter, pw_type);
        let mut user_sites = match self.blob(login_name) {
            Some(blob) => blob.decrypt(storage_password)?,
            None => {
                assert(!has_site(Seq::<SiteView>::empty(), site_name@));
                return Ok(());
            },
        };
        if replace_site(&mut user_sites, new_site) {
            let blob = EncryptedSites::from_sites(user_sites.as_slice(), storage_password);
            proof {
                lemma_with_blob(old(self)@.blobs, login_name@, blob@);
            }
            self.put_blob(login_name, blob);
        }
        Ok(())
    }

    /// Takes the records of that name out of the user's list and writes the
    /// list back, also where it held none of that name or is left empty: the
    /// user keeps a blob. Nothing changes where the user has no blob. Where
    /// the user's blob does not open under the secret, nothing changes and
    /// the error is returned.
    pub fn delete_site(&mut self, login_name: &str, storage_password: &str, site_name: &str) -> (done:
        Result<(), VaultError>)
        ensures
            ({
                let before = stored_sites(old(self)@.blobs, login_name@, storage_password@);
                &&& done == change_outcome(old(self)@.blobs, login_name@, storage_password@)
                &&& final(self)@.last_user == old(self)@.last_user
                &&& final(self)@.blobs == after_delete(
                    old(self)@.blobs,
                    login_name@,
                    storage_password@,
                    site_name@,
                )
                &&& before matches Ok(list) ==> stored_sites(
                    final(self)@.blobs,
                    login_name@,
                    storage_password@,
                ) == Ok::<Seq<SiteView>, VaultError>(without_site(list, site_name@))
            }),
    {
        proof {
            use_type_invariant(&*self);
        }
        let mut user_sites = match self.blob(login_name) {
            Some(blob) => blob.decrypt(storage_password)?,
            None => {
                proof {
                    reveal(Seq::filter);
                    assert(without_site(Seq::<SiteView>::empty(), site_name@) =~= Seq::<
                        SiteView,
                    >::empty());
                }
                return Ok(());
            },
        };
        remove_site(&mut user_sites, site_name);
        let blob = EncryptedSites::from_sites(user_sites.as_slice(), storage_password);
        proof {
            lemma_with_blob(old(self)@.blobs, login_name@, blob@);
        }
        self.put_blob(login_name, blob);
        Ok(())
    }

    /// Saves what a form holds: a new record is added, unless it has no
    /// name, and a record that was there before is updated.
    pub fn save_site(
        &mut self,
        login_name: &str,
        storage_password: &str,
        site_name: &str,
        counter: i32,
        pw_type: &str,
        is_new: bool,
    ) -> (done: Result<(), VaultError>)
        ensures
            ({
                let site = SiteView { site_name: site_name@, counter, password_type: pw_type@ };
                let blobs = old(self)@.blobs;
                &&& final(self)@.last_user == old(self)@.last_user
                &&& if is_new && site_name@.len() == 0 {
                    done is Ok && final(self)@.blobs == blobs
                } else {
                    &&& done == change_outcome(blobs, login_name@, storage_password@)
                    &&& final(self)@.blobs == if is_new {
                        after_add(blobs, login_name@, storage_password@, site)
                    } else {
                        after_update(blobs, login_name@, storage_password@, site)
                    }
                }
            }),
    {
        if is_new {
            if site_name.unicode_len() > 0 {
                self.add_site(login_name, storage_password, site_name, counter, pw_type)
            } else {
                Ok(())
            }
        } else {
            self.update_site(login_name, storage_password, site_name, counter, pw_type)
        }
    }

    /// The names of the users who have a blob, each once, in the order in
    /// which their blobs came.
    pub fn known_user_names(&self) -> (names: Vec<String>)
        ensures
            names@.len() == self@.blobs.len(),
            forall|i: int| 0 <= i < names@.len() ==> (#[trigger] names@[i])@ == self@.blobs[i].0,
            users_distinct(self@.blobs),
    {
        proof {
            use_type_invariant(self);
        }
        let mut names: Vec<String> = Vec::new();
        let mut i: usize = 0;
        while i < self.db.len()
            invariant
                0 <= i <= self.db.len(),
                names@.len() == i,
                forall|j: int|
                    0 <= j < i ==> (#[trigger] names@[j])@ == blobs_view(self.db@)[j].0,
            decreases self.db.len() - i,
        {
            names.push(self.db[i].0.clone());
            i += 1;
        }
        names
    }

    /// The name of the user who logged in last.
    pub fn last_user(&self) -> (name: &str)
        ensures
            name@ == self@.last_user,
    {
        self.last_user.as_str()
    }

    /// Notes the user who logged in last.
    pub fn set_last_user(&mut self, name: &str)
        ensures
            final(self)@ == (StorageView { blobs: old(self)@.blobs, last_user: name@ }),
    {
        proof {
            use_type_invariant(&*self);
        }
        self.last_user = name.to_owned();
    }

    /// Makes the vault from the two texts that were kept: the mapping from
    /// users to blobs, and the last user. An absent mapping stands for the
    /// text `[]`, an absent last user for the empty name. Where the text is
    /// no mapping from names to texts the vault has no blobs, and `cleared`
    /// says so: what was kept is lost and is to be cleared.
    pub fn from_local_storage(db: Option<String>, last_user: Option<String>) -> (loaded: (
        Self,
        bool,
    ))
        ensures
            ({
                let (storage, cleared) = loaded;
                let text = match db {
                    Some(kept) => kept@,
                    None => ABSENT_MAPPING@,
                };
                &&& storage@.last_user == match last_user {
                    Some(name) => name@,
                    None => Seq::<char>::empty(),
                }
                &&& match blobs_of_text(text) {
                    Some(blobs) => storage@.blobs == blobs && !cleared,
                    None => storage@.blobs.len() == 0 && cleared,
                }
            }),
    {
        let last_user = match last_user {
            Some(name) => name,
            None => String::new(),
        };
        let parsed = match &db {
            Some(kept) => parse_object(kept.as_str()),
            None => parse_object(ABSENT_MAPPING),
        };
        let found = match parsed {
            Some(members) => blobs_from_object(members),
            None => None,
        };
        match found {
            Some(db) => (EncryptedStorage { db, last_user }, false),
            None => (EncryptedStorage { db: Vec::new(), last_user }, true),
        }
    }

    /// The two texts to keep: the mapping from users to blobs as JSON, and
    /// the last user. The vault made from them again is this one.
    pub fn to_local_storage(&self) -> (kept: (String, String))
        ensures
            kept.0@ == blobs_text(self@.blobs),
            kept.1@ == self@.last_user,
            blobs_of_text(kept.0@) == Some(self@.blobs),
    {
        proof {
            use_type_invariant(self);
        }
        let mut members: Vec<(String, Field)> = Vec::new();
        let mut i: usize = 0;
        while i < self.db.len()
            invariant
                0 <= i <= self.db.len(),
                members@.len() == i,
                forall|j: int|
                    0 <= j < i ==> #[trigger] object_view(members@)[j] == object_of_blobs(
                        blobs_view(self.db@),
                    )[j],
            decreases self.db.len() - i,
        {
            let ghost before = members@;
            let name = self.db[i].0.clone();
            let blob = self.db[i].1.0.clone();
            members.push((name, Field::Text(blob)));
            proof {
                assert(members@ == before.push((name, Field::Text(blob))));
                assert forall|j: int| 0 <= j <= i implies #[trigger] object_view(members@)[j]
                    == object_of_blobs(blobs_view(self.db@))[j] by {
                    if j < i {
                        assert(object_view(members@)[j] == object_view(before)[j]);
                    }
                }
            }
            i += 1;
        }
        proof {
            assert(object_view(members@) =~= object_of_blobs(blobs_view(self.db@)));
            lemma_blobs_object_round_trip(blobs_view(self.db@));
        }
        (render_object(&members), self.last_user.clone())
    }
}

/// Reads the blobs from the members of a JSON object, where each member is a
/// text.
pub fn blobs_from_object(members: Vec<(String, Field)>) -> (db: Option<
    Vec<(String, EncryptedSites)>,
>)
    ensures
        match db {
            Some(entries) => blobs_of_object(object_view(members@)) == Some(blobs_view(entries@)),
            None => blobs_of_object(object_view(members@)) is None,
        },
{
    let mut db: Vec<(String, EncryptedSites)> = Vec::new();
    let mut i: usize = 0;
    while i < members.len()
        invariant
            0 <= i <= members.len(),
            db@.len() == i,
            forall|j: int|
                0 <= j < i ==> (#[trigger] object_view(members@)[j]).1 is Text && blobs_view(
                    db@,
                )[j] == (object_view(members@)[j].0, object_view(members@)[j].1->Text_0),
        decreases members.len() - i,
    {
        match &members[i].1 {
            Field::Text(blob) => {
                db.push((members[i].0.clone(), EncryptedSites(blob.clone())));
            },
            _ => {
                assert(!(object_view(members@)[i as int].1 is Text));
                return None;
            },
        }
        i += 1;
    }
    assert(blobs_of_object(object_view(members@)).unwrap() =~= blobs_view(db@));
    Some(db)
}

} // verus!
