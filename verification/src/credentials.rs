//! Where the Nexus API key is kept.
//!
//! The key grants access to the user's Nexus account, so it does not go into
//! the database next to the mod list. It goes to the operating system's
//! credential store, and the database only records whether one has been set.

use vstd::prelude::*;

use crate::model::opt_view;

verus! {

/// The service and account names the key is filed under.
pub const SERVICE: &'static str = "sb-mod-manager";
pub const ACCOUNT: &'static str = "nexus-api-key";

#[derive(Debug)]
pub enum KeyStoreError {
    /// The system credential store could not be reached; the message says why.
    Unavailable(String),
}

/// Somewhere to keep a secret.
///
/// A trait so tests never touch the real credential store, and so the failure
/// mode on a machine without one is explicit rather than a silent downgrade to
/// storing the key in plain text.
pub trait KeyStore {
    fn get(&self) -> Result<Option<String>, KeyStoreError>;
    fn set(&mut self, secret: &str) -> Result<(), KeyStoreError>;
    fn clear(&mut self) -> Result<(), KeyStoreError>;
}

/// The operating system's credential store. The store itself is reached by
/// whoever runs the application; this names it.
#[derive(Debug, Default, Clone, Copy)]
pub struct OsKeyStore;

/// An in-process store, for tests and for development on a machine with no
/// credential store of its own.
#[derive(Debug, Default)]
pub struct MemoryKeyStore {
    secret: Option<String>,
}

impl MemoryKeyStore {
    pub fn new() -> (r: MemoryKeyStore)
        ensures
            r.held() is None,
    {
        MemoryKeyStore { secret: None }
    }

    /// The secret held, if any.
    pub closed spec fn held(&self) -> Option<Seq<char>> {
        opt_view(self.secret)
    }
}

impl KeyStore for MemoryKeyStore {
    fn get(&self) -> (r: Result<Option<String>, KeyStoreError>)
        ensures
            r matches Ok(s) && opt_view(s) == self.held(),
    {
        Ok(crate::model::copy_opt(&self.secret))
    }

    fn set(&mut self, secret: &str) -> (r: Result<(), KeyStoreError>)
        ensures
            r is Ok,
            final(self).held() == Some(secret@),
    {
        self.secret = Some(crate::text::owned(secret));
        Ok(())
    }

    fn clear(&mut self) -> (r: Result<(), KeyStoreError>)
        ensures
            r is Ok,
            final(self).held() is None,
    {
        self.secret = None;
        Ok(())
    }
}

} // verus!
