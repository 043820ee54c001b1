//! The key secret that unlocks the account's keys: the mailbox password
//! salted with the salt of the first active user key that has one.
use proton_crypto_account::salts::KeySalt;
use vstd::prelude::*;

use crate::text::{chars_equal, chars_of};

verus! {

/// A user key as the key secret is chosen by it: its ID and whether it is
/// active.
#[derive(Debug, Clone)]
pub struct UserKeyRecord {
    pub id: String,
    pub active: bool,
}

/// One entry of the account's key salts: the key ID and its base64 salt, if
/// it has one.
#[derive(Debug, Clone)]
pub struct KeySaltRecord {
    pub id: String,
    pub salt: Option<String>,
}

/// The key secret that `proton-crypto-account` derives from a base64 key salt
/// and a password (bcrypt of the password with the salt, prefix and salt
/// removed), or `None` when the salt does not decode or hashing fails.
pub uninterp spec fn salted_key_secret(salt: Seq<char>, password: Seq<u8>) -> Option<Seq<u8>>;

/// `KeySalt::salted_key_passphrase` with the provider of
/// `proton_crypto::new_srp_provider`: decodes the salt and hashes the
/// password with it. The result is named by [`salted_key_secret`].
#[verifier::external_body]
fn salted_key_passphrase(salt: &str, password: &[u8]) -> (r: Option<Vec<u8>>)
    ensures
        match r {
            Some(s) => salted_key_secret(salt@, password@) == Some(s@),
            None => salted_key_secret(salt@, password@) is None,
        },
{
    match KeySalt(salt.to_string()).salted_key_passphrase(
        &proton_crypto::new_srp_provider(),
        password,
    ) {
        Ok(secret) => Some(secret.as_bytes().to_vec()),
        Err(_) => None,
    }
}

/// The salt of the first entry for the key `id`; `None` when there is no such
/// entry or it has no salt.
pub open spec fn salt_text_of(salts: Seq<KeySaltRecord>, id: Seq<char>) -> Option<Seq<char>>
    decreases salts.len(),
{
    if salts.len() == 0 {
        None
    } else if salts[0].id@ == id {
        match salts[0].salt {
            Some(t) => Some(t@),
            None => None,
        }
    } else {
        salt_text_of(salts.skip(1), id)
    }
}

/// The secret a key yields: for an active key with a salt, the password
/// salted with it; nothing otherwise.
pub open spec fn key_secret_of(key: UserKeyRecord, salts: Seq<KeySaltRecord>, password: Seq<u8>) -> Option<
    Seq<u8>,
> {
    if !key.active {
        None
    } else {
        match salt_text_of(salts, key.id@) {
            Some(t) => salted_key_secret(t, password),
            None => None,
        }
    }
}

/// The secret of the first key that yields one.
pub open spec fn first_key_secret_of(
    keys: Seq<UserKeyRecord>,
    salts: Seq<KeySaltRecord>,
    password: Seq<u8>,
) -> Option<Seq<u8>>
    decreases keys.len(),
{
    if keys.len() == 0 {
        None
    } else {
        match key_secret_of(keys[0], salts, password) {
            Some(s) => Some(s),
            None => first_key_secret_of(keys.skip(1), salts, password),
        }
    }
}

/// The salt of the key `id` (see [`salt_text_of`]).
fn salt_text(salts: &Vec<KeySaltRecord>, id: &str) -> (r: Option<String>)
    ensures
        match r {
            Some(t) => salt_text_of(salts@, id@) == Some(t@),
            None => salt_text_of(salts@, id@) is None,
        },
{
    let key = chars_of(id);
    let mut j: usize = 0;
    assert(salts@.skip(0) =~= salts@);
    while j < salts.len()
        invariant
            j <= salts.len(),
            key@ == id@,
            salt_text_of(salts@, id@) == salt_text_of(salts@.skip(j as int), id@),
        decreases salts.len() - j,
    {
        let ghost rest = salts@.skip(j as int);
        assert(rest[0] == salts@[j as int]);
        assert(rest.skip(1) =~= salts@.skip(j + 1));
        let other = chars_of(salts[j].id.as_str());
        if chars_equal(&other, &key) {
            return match &salts[j].salt {
                Some(t) => Some(t.clone()),
                None => None,
            };
        }
        j = j + 1;
    }
    assert(salts@.skip(salts.len() as int) =~= Seq::<KeySaltRecord>::empty());
    None
}

/// The key secret of an account: the mailbox password salted with the salt
/// of the first active user key whose salt yields a secret (see
/// [`first_key_secret_of`]); `None` when no key does.
pub fn first_key_secret(keys: &Vec<UserKeyRecord>, salts: &Vec<KeySaltRecord>, password: &[u8]) -> (r:
    Option<Vec<u8>>)
    ensures
        match r {
            Some(s) => first_key_secret_of(keys@, salts@, password@) == Some(s@),
            None => first_key_secret_of(keys@, salts@, password@) is None,
        },
{
    let mut i: usize = 0;
    assert(keys@.skip(0) =~= keys@);
    while i < keys.len()
        invariant
            i <= keys.len(),
            first_key_secret_of(keys@, salts@, password@) == first_key_secret_of(
                keys@.skip(i as int),
                salts@,
                password@,
            ),
        decreases keys.len() - i,
    {
        let ghost rest = keys@.skip(i as int);
        assert(rest[0] == keys@[i as int]);
        assert(rest.skip(1) =~= keys@.skip(i + 1));
        if keys[i].active {
            match salt_text(salts, keys[i].id.as_str()) {
                Some(t) => {
                    match salted_key_passphrase(t.as_str(), password) {
                        Some(secret) => {
                            return Some(secret);
                        },
                        None => {},
                    }
                },
                None => {},
            }
        }
        i = i + 1;
    }
    assert(keys@.skip(keys.len() as int) =~= Seq::<UserKeyRecord>::empty());
    None
}

/// Why the account's keys could not be unlocked.
#[derive(Debug, Clone, Copy, PartialEq, Eq, Structural)]
pub enum UnlockError {
    /// No user key unlocked with the key secret.
    NoUserKey,
    /// No address has a key that unlocked.
    NoAddressKey,
}

impl UnlockError {
    /// The message the failure is reported with.
    pub fn message(&self) -> (r: &'static str)
        ensures
            *self is NoUserKey ==> r@ == "Failed to unlock Proton user keys; reconnect the account"@,
            *self is NoAddressKey ==> r@
                == "Failed to unlock any Proton address keys; reconnect the account"@,
    {
        match self {
            UnlockError::NoUserKey => "Failed to unlock Proton user keys; reconnect the account",
            UnlockError::NoAddressKey => "Failed to unlock any Proton address keys; reconnect the account",
        }
    }
}

/// The user keys must unlock: at least one of them did.
pub fn check_user_keys(unlocked: usize) -> (r: Result<(), UnlockError>)
    ensures
        r is Ok <==> unlocked > 0,
        r matches Err(e) ==> e is NoUserKey,
{
    if unlocked == 0 {
        Err(UnlockError::NoUserKey)
    } else {
        Ok(())
    }
}

/// Which addresses the account keeps, by how many of their keys unlocked:
/// those with at least one; refused when no address has one.
pub fn addresses_to_keep(unlocked_counts: &Vec<usize>) -> (r: Result<Vec<bool>, UnlockError>)
    ensures
        r is Ok <==> exists|i: int| 0 <= i < unlocked_counts@.len() && unlocked_counts@[i] > 0,
        r matches Err(e) ==> e is NoAddressKey,
        r matches Ok(keep) ==> keep@.len() == unlocked_counts@.len() && forall|i: int|
            0 <= i < keep@.len() ==> keep@[i] == (unlocked_counts@[i] > 0),
{
    let mut keep: Vec<bool> = Vec::new();
    let mut any = false;
    let mut i: usize = 0;
    while i < unlocked_counts.len()
        invariant
            i <= unlocked_counts.len(),
            keep@.len() == i,
            forall|j: int| 0 <= j < i ==> keep@[j] == (unlocked_counts@[j] > 0),
            any <==> exists|j: int| 0 <= j < i && unlocked_counts@[j] > 0,
        decreases unlocked_counts.len() - i,
    {
        let kept = unlocked_counts[i] > 0;
        keep.push(kept);
        if kept {
            any = true;
        }
        i = i + 1;
    }
    if !any {
        return Err(UnlockError::NoAddressKey);
    }
    Ok(keep)
}

} // verus!
