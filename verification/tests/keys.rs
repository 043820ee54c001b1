use caldir_provider_proton::keys::{
    addresses_to_keep, check_user_keys, first_key_secret, KeySaltRecord, UnlockError,
    UserKeyRecord,
};

fn key(id: &str, active: bool) -> UserKeyRecord {
    UserKeyRecord { id: id.to_string(), active }
}

fn salt(id: &str, salt: Option<&str>) -> KeySaltRecord {
    KeySaltRecord { id: id.to_string(), salt: salt.map(str::to_string) }
}

#[test]
fn the_first_active_key_with_a_salt_gives_the_secret() {
    let salts = vec![
        salt("inactive", Some("AAAAAAAAAAAAAAAAAAAAAA==")),
        salt("unsalted", None),
        salt("salted", Some("AQIDBAUGBwgJCgsMDQ4PEA==")),
    ];
    let keys = vec![key("inactive", false), key("unsalted", true), key("missing", true), key("salted", true)];
    let secret = first_key_secret(&keys, &salts, b"mailbox").unwrap();
    assert!(!secret.is_empty());
    assert_ne!(secret, b"mailbox".to_vec());
    let same = first_key_secret(&vec![key("salted", true)], &salts, b"mailbox").unwrap();
    assert_eq!(secret, same);
    let other = first_key_secret(&vec![key("salted", true)], &salts, b"another").unwrap();
    assert_ne!(secret, other);
}

#[test]
fn no_key_gives_no_secret() {
    let salts = vec![salt("a", None), salt("b", Some("not base64!"))];
    assert_eq!(first_key_secret(&vec![key("a", true), key("b", true)], &salts, b"pw"), None);
    assert_eq!(first_key_secret(&Vec::new(), &salts, b"pw"), None);
}

#[test]
fn unlocking_needs_a_user_key_and_an_address_key() {
    assert!(check_user_keys(2).is_ok());
    let error = check_user_keys(0).unwrap_err();
    assert_eq!(error, UnlockError::NoUserKey);
    assert_eq!(error.message(), "Failed to unlock Proton user keys; reconnect the account");
    assert_eq!(addresses_to_keep(&vec![0, 2, 1]).unwrap(), vec![false, true, true]);
    let error = addresses_to_keep(&vec![0, 0]).unwrap_err();
    assert_eq!(error.message(), "Failed to unlock any Proton address keys; reconnect the account");
    assert!(addresses_to_keep(&Vec::new()).is_err());
}
