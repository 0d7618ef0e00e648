//! The checksum-guarded local store contract.
//!
//! The backing store itself (a browser's local storage, a file) lives
//! outside the library; the caller passes in what it read and performs the
//! writes. This type remembers a digest of what was last loaded or saved
//! and decides whether a save may go ahead: if the backing store changed
//! underneath, the save is rejected whole and the caller must reload.

use vstd::prelude::*;
use vstd::string::StringExecFns;

use sha2::Digest;

verus! {

/// The hex digest that SHA-256 assigns to a text: a function of the
/// characters alone.
pub uninterp spec fn sha256_hex(s: Seq<char>) -> Seq<char>;

/// Relies on sha2's `Sha256` (through `Digest::digest`) and lowercase-hex
/// formatting of the digest; the result depends on the text alone.
#[verifier::external_body]
fn sha256_hex_of(value: &str) -> (r: String)
    ensures
        r@ == sha256_hex(value@),
{
    let digest = sha2::Sha256::digest(value.as_bytes());
    format!("{:x}", digest)
}

/// A snapshot of one key's value, guarded by the digest taken when it was
/// loaded.
pub struct LocalStore {
    checksum: String,
    key: String,
    value: String,
}

impl LocalStore {
    /// The key this snapshot belongs to.
    pub closed spec fn spec_key(&self) -> Seq<char> {
        self.key@
    }

    /// The value as last loaded or saved.
    pub closed spec fn spec_value(&self) -> Seq<char> {
        self.value@
    }

    /// The digest the next save is checked against.
    pub closed spec fn spec_checksum(&self) -> Seq<char> {
        self.checksum@
    }

    /// The checksum always matches the held value.
    pub closed spec fn wf(&self) -> bool {
        self.checksum@ == sha256_hex(self.value@)
    }

    /// Builds the snapshot from what the backing store returned for `key`
    /// (`None` when it holds nothing): the stored value, or the default in
    /// its place. The second result says whether the caller must persist
    /// the default.
    pub fn new(key: &str, stored: Option<&str>, default_data: &str) -> (r: (LocalStore, bool))
        ensures
            r.0.wf(),
            r.0.spec_key() == key@,
            r.0.spec_value() == match stored {
                Some(s) => s@,
                None => default_data@,
            },
            r.1 == (stored is None),
    {
        match stored {
            Some(s) => {
                let checksum = sha256_hex_of(s);
                (
                    LocalStore {
                        checksum,
                        key: String::from_str(key),
                        value: String::from_str(s),
                    },
                    false,
                )
            },
            None => {
                let checksum = sha256_hex_of(default_data);
                (
                    LocalStore {
                        checksum,
                        key: String::from_str(key),
                        value: String::from_str(default_data),
                    },
                    true,
                )
            },
        }
    }

    /// The value as last loaded or saved.
    pub fn value(&self) -> (v: String)
        ensures
            v@ == self.spec_value(),
    {
        self.value.clone()
    }

    /// Accepts `value` as the new content exactly when `stored_now` — what
    /// the backing store holds at this moment — still digests to the
    /// checksum taken last time; otherwise the store changed underneath and
    /// the save is rejected with nothing modified. On acceptance the caller
    /// performs the actual write, all or nothing.
    pub fn save(&mut self, stored_now: &str, value: &str) -> (r: Result<(), ConflictError>)
        ensures
            r is Ok <==> sha256_hex(stored_now@) == old(self).spec_checksum(),
            r is Ok ==> final(self).wf() && final(self).spec_value() == value@,
            r is Ok ==> final(self).spec_checksum() == sha256_hex(value@),
            r is Ok ==> final(self).spec_key() == old(self).spec_key(),
            r is Err ==> *final(self) == *old(self),
    {
        let stored_checksum = sha256_hex_of(stored_now);
        if stored_checksum == self.checksum {
            self.value = String::from_str(value);
            self.checksum = sha256_hex_of(value);
            Ok(())
        } else {
            let message = String::from_str(
                "the backing store has changed since it was last loaded; reload before saving",
            );
            Err(ConflictError { message })
        }
    }
}

/// The backing store changed underneath a save; the write was rejected and
/// nothing was overwritten.
#[derive(Debug)]
pub struct ConflictError {
    pub message: String,
}

} // verus!
