use web_access::access_store::PersistedAccess;
use web_access::auth::AuthState;
use web_access::devices::DeviceEntry;
use web_access::passwords::{
    accepted, hash_password, hash_password_with_salt, report, verify_phc,
};

/// A data directory in memory: what was written last is what the next start reads.
struct Disk {
    stored: Option<PersistedAccess>,
}

impl Disk {
    fn new() -> Disk {
        Disk { stored: None }
    }

    fn write_through(&mut self, auth: &mut AuthState) {
        if let Some(access) = auth.persist() {
            self.stored = Some(access);
        }
    }

    fn read(&self) -> Option<PersistedAccess> {
        self.stored.as_ref().map(|p| PersistedAccess {
            pairing_token: p.pairing_token.clone(),
            blocked_devices: p.blocked_devices.clone(),
            devices: p.devices.clone(),
        })
    }

    fn start(&mut self, phc: &str) -> AuthState {
        let mut auth = AuthState::load_or_create(phc, self.read());
        self.write_through(&mut auth);
        auth
    }
}

fn new_auth(password: &str) -> AuthState {
    AuthState::load_or_create(&hash_password(password).unwrap(), None)
}

#[test]
fn password_verify_and_token_lifecycle() {
    let mut auth = new_auth("s3cret");
    assert!(auth.verify("s3cret"));
    assert!(!auth.verify("wrong"));
    assert!(!auth.verify(""));

    let token = auth.mint();
    assert!(auth.check(&token));
    assert!(!auth.check("not-a-token"));
    auth.revoke(&token);
    assert!(!auth.check(&token));
}

#[test]
fn pairing_token_rotate_and_device_registry() {
    let mut auth = new_auth("pw");
    let tok = auth.pairing_token();
    assert!(auth.validate_pairing_token(&tok));
    assert!(!auth.validate_pairing_token("nope"));

    auth.register_device(Some("dev-a"), Some("Mac"));
    auth.register_device(Some("dev-b"), Some("Phone"));
    assert_eq!(auth.list_devices().len(), 2);
    auth.register_device(Some("dev-a"), Some("Mac mini"));
    assert_eq!(auth.list_devices().len(), 2);

    let tok2 = auth.rotate_pairing_token();
    assert_ne!(tok, tok2);
    assert!(!auth.validate_pairing_token(&tok));
    assert!(auth.validate_pairing_token(&tok2));
    assert_eq!(auth.list_devices().len(), 0);
}

#[test]
fn block_device_blocks_and_rotate_clears() {
    let mut auth = new_auth("pw");
    auth.register_device(Some("dev-a"), Some("Mac"));
    auth.register_device(Some("dev-b"), Some("Phone"));

    assert!(!auth.is_blocked("dev-a"));
    assert!(!auth.is_blocked("dev-b"));

    assert!(auth.block_device("dev-a"));
    assert!(auth.is_blocked("dev-a"));
    assert!(!auth.is_blocked("dev-b"));
    assert_eq!(auth.list_devices().len(), 1);
    assert_eq!(auth.list_devices()[0].device_id, "dev-b");

    assert!(!auth.block_device("dev-x"));
    assert!(auth.is_blocked("dev-x"));

    auth.rotate_pairing_token();
    assert!(!auth.is_blocked("dev-a"));
    assert!(!auth.is_blocked("dev-x"));
}

#[test]
fn pairing_state_persists_across_instances() {
    let mut disk = Disk::new();
    let phc = hash_password("pw").unwrap();

    let mut a = disk.start(&phc);
    let token = a.pairing_token();
    a.register_device(Some("dev-a"), Some("Phone"));
    disk.write_through(&mut a);
    a.register_device(Some("dev-b"), Some("Tablet"));
    disk.write_through(&mut a);
    assert!(a.block_device("dev-b"));
    disk.write_through(&mut a);

    let b = disk.start(&phc);
    assert_eq!(b.pairing_token(), token);
    assert!(b.validate_pairing_token(&token));
    assert_eq!(b.list_devices().len(), 1);
    assert_eq!(b.list_devices()[0].device_id, "dev-a");
    assert!(b.is_blocked("dev-b"));
    assert!(!b.is_blocked("dev-a"));
}

#[test]
fn rotate_persists_new_token_and_clears_state() {
    let mut disk = Disk::new();
    let phc = hash_password("pw").unwrap();

    let mut a = disk.start(&phc);
    let old = a.pairing_token();
    a.register_device(Some("dev-a"), Some("Phone"));
    disk.write_through(&mut a);
    a.block_device("dev-x");
    disk.write_through(&mut a);
    let rotated = a.rotate_pairing_token();
    disk.write_through(&mut a);
    assert_ne!(old, rotated);

    let b = disk.start(&phc);
    assert_eq!(b.pairing_token(), rotated);
    assert!(!b.validate_pairing_token(&old));
    assert!(b.list_devices().is_empty());
    assert!(!b.is_blocked("dev-x"));
}

#[test]
fn hash_password_roundtrip() {
    let phc = hash_password("correct horse").unwrap();
    assert!(phc.starts_with("$argon2id$"), "expected Argon2id PHC, got: {phc}");
    let auth = AuthState::load_or_create(&phc, None);
    assert!(auth.verify_password("correct horse"));
    assert!(!auth.verify_password("battery staple"));
}

#[test]
fn hashing_depends_on_the_salt_alone() {
    let a = hash_password_with_salt("pw", &[7; 16]).unwrap();
    let b = hash_password_with_salt("pw", &[7; 16]).unwrap();
    let c = hash_password_with_salt("pw", &[8; 16]).unwrap();
    assert_eq!(a, b);
    assert_ne!(a, c);
    assert!(a.starts_with("$argon2id$v=19$m=19456,t=2,p=1$"));
    assert!(verify_phc(&a, "pw"));
    assert!(verify_phc(&c, "pw"));
    assert!(!verify_phc(&a, "pW"));
    // Two hashes of one password get salts of their own.
    assert_ne!(hash_password("pw").unwrap(), hash_password("pw").unwrap());
}

#[test]
fn malformed_verifier_accepts_nothing() {
    for phc in [
        "",
        "not a phc string",
        "$argon2id$",
        "$argon2id$v=19$m=19456,t=2,p=1$c2FsdHNhbHRzYWx0",
        "$argon2id$v=19$m=19456,t=2,p=4294967295$c2FsdHNhbHRzYWx0$AAAAAAAAAAAAAAAAAAAAAA",
        "$argon2id$v=19$m=19456,t=2,p=536870912$c2FsdHNhbHRzYWx0$AAAAAAAAAAAAAAAAAAAAAA",
        "$argon2id$v=19$m=19456,t=2,p=99999999$c2FsdHNhbHRzYWx0$AAAAAAAAAAAAAAAAAAAAAA",
        "p=123456789",
        "p=",
        "p",
    ] {
        assert!(!verify_phc(phc, "pw"), "{phc}");
    }
}

#[test]
fn the_last_degree_of_parallelism_counts() {
    let phc = hash_password_with_salt("pw", &[1; 16]).unwrap();
    let doubled = phc.replace(",p=1$", ",p=999999999,p=1$");
    assert_ne!(phc, doubled);
    assert!(verify_phc(&doubled, "pw"));
    assert!(!verify_phc(&doubled, "other"));
}

#[test]
fn verification_and_hashing_outcomes_are_mapped() {
    assert!(accepted(Some(true)));
    assert!(!accepted(Some(false)));
    assert!(!accepted(None));
    assert_eq!(report(Ok("$argon2id$x".to_string())), Ok("$argon2id$x".to_string()));
    assert_eq!(
        report(Err("invalid password".to_string())),
        Err("Failed to hash password: invalid password".to_string())
    );
}

#[test]
fn devices_take_placeholders_and_trimmed_fields() {
    let mut auth = AuthState::load_or_create("", None);
    auth.register_device_at(None, None, 10);
    auth.register_device_at(Some("  \t"), Some(""), 20);
    auth.register_device_at(Some(" dev-a\n"), Some("\u{3000}Mac\u{a0}"), 30);
    let devices = auth.list_devices();
    assert_eq!(devices.len(), 2);
    assert_eq!(devices[0].device_id, "(unknown)");
    assert_eq!(devices[0].name, "Browser");
    assert_eq!(devices[0].first_seen_at, 10);
    assert_eq!(devices[0].last_seen_at, 20);
    assert_eq!(devices[1].device_id, "dev-a");
    assert_eq!(devices[1].name, "Mac");
    assert_eq!(devices[1].first_seen_at, 30);
    assert_eq!(devices[1].last_seen_at, 30);
}

#[test]
fn registering_again_keeps_the_place_and_the_first_time() {
    let mut auth = AuthState::load_or_create("", None);
    auth.register_device_at(Some("a"), Some("one"), 1);
    auth.register_device_at(Some("b"), Some("two"), 2);
    auth.register_device_at(Some("a"), Some("uno"), 3);
    let devices = auth.list_devices();
    assert_eq!(devices.len(), 2);
    assert_eq!(devices[0].device_id, "a");
    assert_eq!(devices[0].name, "uno");
    assert_eq!(devices[0].first_seen_at, 1);
    assert_eq!(devices[0].last_seen_at, 3);
    assert_eq!(devices[1].name, "two");
}

#[test]
fn registering_reads_the_clock() {
    let mut auth = AuthState::load_or_create("", None);
    auth.register_device(Some("a"), None);
    // Some time after the start of 2020.
    assert!(auth.list_devices()[0].first_seen_at > 1_577_836_800);
}

#[test]
fn repeated_identifiers_in_stored_state_are_kept_once_or_removed_together() {
    let entry = |id: &str, name: &str| DeviceEntry {
        device_id: id.to_string(),
        name: name.to_string(),
        first_seen_at: 1,
        last_seen_at: 1,
    };
    let stored = PersistedAccess {
        pairing_token: " t ".to_string(),
        blocked_devices: vec!["x".to_string(), "y".to_string(), "x".to_string()],
        devices: vec![entry("a", "1"), entry("b", "2"), entry("a", "3")],
    };
    let mut auth = AuthState::load_or_create("", Some(stored));
    assert_eq!(auth.pairing_token(), " t ");
    assert!(auth.persist().is_none());
    auth.register_device_at(Some("a"), Some("new"), 5);
    let names: Vec<String> = auth.list_devices().into_iter().map(|d| d.name).collect();
    assert_eq!(names, vec!["new", "2", "3"]);
    assert!(auth.block_device("a"));
    assert_eq!(auth.list_devices().len(), 1);
    let mut blocked = auth.persist().unwrap().blocked_devices;
    blocked.sort();
    assert_eq!(blocked, vec!["a", "x", "y"]);
    assert!(auth.persist().is_none());
}

#[test]
fn only_changes_of_pairing_state_are_stored() {
    let mut auth = AuthState::load_or_create("", None);
    assert!(auth.persist().is_some());
    let token = auth.mint();
    auth.revoke(&token);
    assert!(auth.persist().is_none());
    auth.register_device_at(Some("a"), None, 1);
    assert!(auth.persist().is_some());
    auth.block_device("a");
    assert!(auth.persist().is_some());
    auth.rotate_pairing_token();
    let access = auth.persist().unwrap();
    assert_eq!(access.pairing_token, auth.pairing_token());
    assert!(access.devices.is_empty());
    assert!(access.blocked_devices.is_empty());
}

#[test]
fn sessions_survive_rotation_but_not_a_restart() {
    let mut disk = Disk::new();
    let mut a = disk.start("");
    let token = a.mint();
    a.rotate_pairing_token();
    disk.write_through(&mut a);
    assert!(a.token_valid(&token));
    let b = disk.start("");
    assert!(!b.token_valid(&token));
    assert_eq!(b.pairing_token(), a.pairing_token());
}

#[test]
fn reported_identifiers_name_one_device_with_or_without_white_space() {
    let mut auth = AuthState::load_or_create("", None);
    auth.register_device_at(Some(" dev "), Some(" n "), 1);
    auth.register_device_at(Some("dev"), Some("n"), 2);
    auth.register_device_at(None, None, 3);
    auth.register_device_at(Some("(unknown)"), Some("Browser"), 4);
    let devices = auth.list_devices();
    assert_eq!(devices.len(), 2);
    assert_eq!(devices[0].last_seen_at, 2);
    assert_eq!(devices[1].last_seen_at, 4);
}

#[test]
fn token_and_blocklist_last_through_restarts_until_rotation() {
    let mut disk = Disk::new();
    let mut auth = disk.start("");
    let token = auth.pairing_token();
    auth.block_device("bad");
    disk.write_through(&mut auth);
    for i in 0..3u64 {
        auth = disk.start("");
        auth.register_device_at(Some("bad"), None, i);
        auth.mint();
        disk.write_through(&mut auth);
        assert_eq!(auth.pairing_token(), token);
        assert!(auth.is_blocked("bad"));
        assert_eq!(auth.list_devices().len(), 1);
    }
    auth.rotate_pairing_token();
    disk.write_through(&mut auth);
    auth = disk.start("");
    assert_ne!(auth.pairing_token(), token);
    assert!(!auth.is_blocked("bad"));
}

#[test]
fn stored_state_depends_on_pairing_state_alone() {
    let stored = || PersistedAccess {
        pairing_token: "t".to_string(),
        blocked_devices: vec!["x".to_string()],
        devices: Vec::new(),
    };
    let mut a = AuthState::load_or_create("one", Some(stored()));
    let mut b = AuthState::load_or_create("two", Some(stored()));
    b.mint();
    for auth in [&mut a, &mut b] {
        auth.register_device_at(Some("d"), None, 1);
    }
    let (p, q) = (a.persist().unwrap(), b.persist().unwrap());
    assert_eq!(p.pairing_token, q.pairing_token);
    assert_eq!(p.blocked_devices, q.blocked_devices);
    assert_eq!(p.devices.len(), q.devices.len());
    assert_eq!(p.devices[0].device_id, q.devices[0].device_id);
}

#[test]
fn given_tokens_are_taken_as_they_are() {
    let mut auth = AuthState::create_with("phc", "first".to_string());
    assert_eq!(auth.pairing_token(), "first");
    assert_eq!(auth.verifier_phc(), "phc");
    assert_eq!(auth.persist().unwrap().pairing_token, "first");
    auth.register_device_at(Some("a"), None, 1);
    auth.block_device("b");
    auth.admit_session("session".to_string());
    auth.rotate_to("second".to_string());
    assert!(auth.validate_pairing_token("second"));
    assert!(!auth.validate_pairing_token("first"));
    assert!(auth.list_devices().is_empty());
    assert!(!auth.is_blocked("b"));
    assert!(auth.check("session"));
}

#[test]
fn the_string_carries_its_salt() {
    let zeros = hash_password_with_salt("pw", &[0; 16]).unwrap();
    assert!(zeros.starts_with("$argon2id$v=19$m=19456,t=2,p=1$AAAAAAAAAAAAAAAAAAAAAA$"));
    let mut salt = [0u8; 16];
    for i in 0..16u8 {
        salt[i as usize] = i * 16 + i;
    }
    let counted = hash_password_with_salt("pw", &salt).unwrap();
    assert!(counted.starts_with("$argon2id$v=19$m=19456,t=2,p=1$ABEiM0RVZneImaq7zN3u/w$"));
    assert_eq!(counted.len(), 31 + 22 + 1 + 43);
    assert!(verify_phc(&zeros, "pw") && verify_phc(&counted, "pw"));
}

#[test]
fn a_session_is_valid_when_issued_and_not_revoked_since() {
    let mut auth = AuthState::load_or_create("", None);
    assert!(!auth.check("s"));
    auth.admit_session("s".to_string());
    auth.revoke("other");
    auth.block_device("s");
    assert!(auth.check("s"));
    auth.revoke("s");
    auth.admit_session("other".to_string());
    assert!(!auth.check("s"));
    auth.admit_session("s".to_string());
    assert!(auth.check("s"));
}

#[test]
fn a_device_is_blocked_when_blocked_since_the_last_rotation() {
    let mut auth = AuthState::load_or_create("", None);
    auth.block_device("a");
    auth.rotate_to("t1".to_string());
    auth.block_device("b");
    auth.register_device_at(Some("b"), None, 1);
    assert!(!auth.is_blocked("a"));
    assert!(auth.is_blocked("b"));
    auth.rotate_to("t2".to_string());
    assert!(!auth.is_blocked("b"));
    assert_eq!(auth.pairing_token(), "t2");
}
