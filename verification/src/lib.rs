//! An encrypted, per-user vault of site records whose key is derived from the
//! user's name and master password and never stored.
//!
//! The vault keeps one encrypted blob for each user ([`storage`]); the blob
//! holds the user's site records ([`sites`]) as JSON ([`codec`], [`json`]),
//! encrypted under a secret ([`cipher`]) that is derived, like every site's
//! password, from the name and the master password ([`derive`]). A login
//! stands where the blob opens under the derived secret ([`login`]).

pub mod cipher;
pub mod codec;
pub mod derive;
pub mod json;
pub mod login;
pub mod sites;
pub mod storage;
pub mod text;

pub use login::LoginData;
