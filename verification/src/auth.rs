//! Authentication state: password verifier, session tokens, the persistent pairing token, and the
//! devices that were seen or blocked.

use crate::access_store::{Access, PersistedAccess};
use crate::devices::{Device, DeviceEntry};
use crate::{access_store, clock, devices, passwords, text, tokens};
use std::time::SystemTime;
use vstd::hash_set::StringHashSet;
use vstd::prelude::*;

verus! {

/// Authentication state of the service.
pub struct AuthState {
    /// Argon2id PHC verifier string; the salt is embedded, no plaintext password is held.
    verifier_phc: String,
    /// Session tokens of password logins. Never stored: password-login windows log in again after
    /// a restart, only pairing survives.
    tokens: StringHashSet,
    /// Shared admission token embedded in pairing links, replaced by rotation alone.
    pairing_token: String,
    /// Display registry of the devices that clients reported.
    devices: Vec<DeviceEntry>,
    /// Blocked device identifiers, each of them once.
    blocked: Vec<String>,
    /// The pairing state has changed since it was last handed out to be stored.
    unsaved: bool,
}

/// Authentication state by its texts.
#[verifier::ext_equal]
pub struct Auth {
    pub verifier_phc: Seq<char>,
    pub tokens: Set<Seq<char>>,
    pub pairing_token: Seq<char>,
    pub devices: Seq<Device>,
    pub blocked: Set<Seq<char>>,
    pub unsaved: bool,
}

impl View for AuthState {
    type V = Auth;

    closed spec fn view(&self) -> Auth {
        Auth {
            verifier_phc: self.verifier_phc@,
            tokens: self.tokens@,
            pairing_token: self.pairing_token@,
            devices: devices::devices_view(self.devices@),
            blocked: access_store::texts_view(self.blocked@).to_set(),
            unsaved: self.unsaved,
        }
    }
}

/// `access` stores the pairing state of `auth`: its token, its registry, and each blocked
/// identifier once.
pub open spec fn stores(access: Access, auth: Auth) -> bool {
    &&& access.pairing_token == auth.pairing_token
    &&& access.devices == auth.devices
    &&& access.blocked_devices.no_duplicates()
    &&& access.blocked_devices.to_set() == auth.blocked
}

/// The state of a service that starts from stored pairing state.
pub open spec fn restored(verifier_phc: Seq<char>, access: Access) -> Auth {
    Auth {
        verifier_phc,
        tokens: Set::empty(),
        pairing_token: access.pairing_token,
        devices: access.devices,
        blocked: access.blocked_devices.to_set(),
        unsaved: false,
    }
}

/// The state of a service that starts with a fresh pairing token.
pub open spec fn created(verifier_phc: Seq<char>, pairing_token: Seq<char>) -> Auth {
    Auth {
        verifier_phc,
        tokens: Set::empty(),
        pairing_token,
        devices: Seq::empty(),
        blocked: Set::empty(),
        unsaved: true,
    }
}

/// The state after the pairing token was replaced.
pub open spec fn rotated(auth: Auth, pairing_token: Seq<char>) -> Auth {
    Auth { pairing_token, devices: Seq::empty(), blocked: Set::empty(), unsaved: true, ..auth }
}

/// The state after a device was seen.
pub open spec fn device_seen(
    auth: Auth,
    device_id: Option<Seq<char>>,
    name: Option<Seq<char>>,
    now: u64,
) -> Auth {
    Auth {
        devices: devices::seen(
            auth.devices,
            devices::effective_id(device_id),
            devices::effective_name(name),
            now,
        ),
        unsaved: true,
        ..auth
    }
}

/// The state after a device was blocked.
pub open spec fn device_blocked(auth: Auth, device_id: Seq<char>) -> Auth {
    Auth {
        devices: devices::without(auth.devices, device_id),
        blocked: auth.blocked.insert(device_id),
        unsaved: true,
        ..auth
    }
}

/// The state after a session token was issued.
pub open spec fn issued(auth: Auth, token: Seq<char>) -> Auth {
    Auth { tokens: auth.tokens.insert(token), ..auth }
}

/// The state after a session token was revoked.
pub open spec fn revoked(auth: Auth, token: Seq<char>) -> Auth {
    Auth { tokens: auth.tokens.remove(token), ..auth }
}

/// Whether a list holds a text.
fn lists(texts: &Vec<String>, s: &str) -> (r: bool)
    ensures
        r == access_store::texts_view(texts@).contains(s@),
{
    let wanted = s.to_owned();
    let mut i: usize = 0;
    while i < texts.len()
        invariant
            i <= texts@.len(),
            wanted@ == s@,
            forall|j: int| 0 <= j < i ==> (#[trigger] texts@[j])@ != s@,
        decreases texts@.len() - i,
    {
        if texts[i] == wanted {
            assert(access_store::texts_view(texts@)[i as int] == s@);
            return true;
        }
        i = i + 1;
    }
    assert forall|j: int| 0 <= j < texts@.len() implies access_store::texts_view(texts@)[j]
        != s@ by {
        assert(texts@[j]@ != s@);
    }
    false
}

/// Add a text to a list that does not hold it yet.
fn add_once(texts: &mut Vec<String>, s: String)
    ensures
        access_store::texts_view(final(texts)@).to_set() == access_store::texts_view(
            old(texts)@,
        ).to_set().insert(s@),
        access_store::texts_view(old(texts)@).no_duplicates() ==> access_store::texts_view(
            final(texts)@,
        ).no_duplicates(),
{
    let ghost before = access_store::texts_view(texts@);
    if lists(texts, s.as_str()) {
        assert(before.to_set().insert(s@) == before.to_set());
    } else {
        texts.push(s);
        proof {
            let after = access_store::texts_view(texts@);
            assert(after == before.push(s@));
            assert forall|t: Seq<char>| #[trigger] after.to_set().contains(t) <==> before.to_set()
                .insert(s@).contains(t) by {
                vstd::seq_lib::lemma_seq_contains_after_push(before, s@, t);
            }
            assert(after.to_set() == before.to_set().insert(s@));
        }
    }
}

/// The texts of a list, each of them once, in the order of their first occurrence.
fn without_repeats(texts: &Vec<String>) -> (r: Vec<String>)
    ensures
        access_store::texts_view(r@).no_duplicates(),
        access_store::texts_view(r@).to_set() == access_store::texts_view(texts@).to_set(),
{
    let ghost all = access_store::texts_view(texts@);
    let mut once: Vec<String> = Vec::new();
    let mut i: usize = 0;
    assert(access_store::texts_view(once@).to_set() == all.take(0).to_set());
    while i < texts.len()
        invariant
            all == access_store::texts_view(texts@),
            i <= texts@.len(),
            access_store::texts_view(once@).no_duplicates(),
            access_store::texts_view(once@).to_set() == all.take(i as int).to_set(),
        decreases texts@.len() - i,
    {
        proof {
            let done = all.take(i as int);
            assert(all.take(i + 1) == done.push(all[i as int]));
            assert forall|t: Seq<char>| #[trigger] all.take(i + 1).to_set().contains(t)
                <==> done.to_set().insert(all[i as int]).contains(t) by {
                vstd::seq_lib::lemma_seq_contains_after_push(done, all[i as int], t);
            }
            assert(all.take(i + 1).to_set() == done.to_set().insert(all[i as int]));
        }
        add_once(&mut once, texts[i].clone());
        i = i + 1;
    }
    assert(all.take(i as int) == all);
    once
}

impl AuthState {
    /// The blocklist names no device twice, the pairing token is not blank, and there are finitely
    /// many sessions.
    pub closed spec fn wf(&self) -> bool {
        &&& self.tokens@.finite()
        &&& access_store::texts_view(self.blocked@).no_duplicates()
        &&& !text::blank(self.pairing_token@)
    }

    /// The pairing token of a well-formed state is not blank.
    pub proof fn lemma_token_not_blank(&self)
        requires
            self.wf(),
        ensures
            !text::blank(self@.pairing_token),
    {
    }

    /// Start with this pairing token, no devices and an empty blocklist.
    pub fn create_with(verifier_phc: &str, token: String) -> (r: Self)
        requires
            !text::blank(token@),
        ensures
            r.wf(),
            r@ == created(verifier_phc@, token@),
            r@.verifier_phc == verifier_phc@,
            r@.pairing_token == token@,
    {
        let r = AuthState {
            verifier_phc: verifier_phc.to_owned(),
            tokens: StringHashSet::new(),
            pairing_token: token,
            devices: Vec::new(),
            blocked: Vec::new(),
            unsaved: true,
        };
        assert(r@ == created(verifier_phc@, token@));
        r
    }

    /// Start from stored pairing state, or with a fresh pairing token when there is none or its
    /// token is blank. The verifier string comes from the caller; it is never part of the stored
    /// state.
    pub fn load_or_create(verifier_phc: &str, stored: Option<PersistedAccess>) -> (r: Self)
        ensures
            r.wf(),
            match stored {
                Some(access) if !text::blank(access.pairing_token@) => r@ == restored(
                    verifier_phc@,
                    access@,
                ),
                _ => {
                    &&& tokens::is_pairing_token(r@.pairing_token)
                    &&& tokens::drawn_pairing_token(r@.pairing_token)
                    &&& r@ == created(verifier_phc@, r@.pairing_token)
                },
            },
            r@.verifier_phc == verifier_phc@,
            forall|token: Seq<char>| !(#[trigger] r@.tokens.contains(token)),
            stored matches Some(access) ==> !text::blank(access.pairing_token@) ==> {
                &&& r@.pairing_token == access.pairing_token@
                &&& r@.devices == access@.devices
                &&& forall|id: Seq<char>| #[trigger]
                    r@.blocked.contains(id) <==> access@.blocked_devices.contains(id)
            },
    {
        match access_store::load(stored) {
            Some(access) => AuthState {
                verifier_phc: verifier_phc.to_owned(),
                tokens: StringHashSet::new(),
                pairing_token: access.pairing_token,
                devices: access.devices,
                blocked: without_repeats(&access.blocked_devices),
                unsaved: false,
            },
            None => {
                let token = tokens::new_token();
                proof {
                    tokens::lemma_pairing_token_shape(token@);
                }
                Self::create_with(verifier_phc, token)
            },
        }
    }

    /// Hand out the pairing state when it has changed since this was last done, so that it can be
    /// written to disk before another change. A failure to write it leaves this state valid.
    pub fn persist(&mut self) -> (r: Option<PersistedAccess>)
        requires
            old(self).wf(),
        ensures
            final(self).wf(),
            final(self)@ == (Auth { unsaved: false, ..old(self)@ }),
            r is Some <==> old(self)@.unsaved,
            r matches Some(access) ==> stores(access@, old(self)@),
            r matches Some(access) ==> {
                &&& access.pairing_token@ == old(self)@.pairing_token
                &&& access@.devices == old(self)@.devices
                &&& forall|id: Seq<char>| #[trigger]
                    old(self)@.blocked.contains(id) <==> access@.blocked_devices.contains(id)
            },
    {
        if self.unsaved {
            self.unsaved = false;
            Some(
                PersistedAccess {
                    pairing_token: self.pairing_token.clone(),
                    blocked_devices: self.blocked.clone(),
                    devices: self.devices.clone(),
                },
            )
        } else {
            None
        }
    }

    /// The verifier string, for a verification that does not hold up other callers.
    pub fn verifier_phc(&self) -> (r: String)
        ensures
            r@ == self@.verifier_phc,
    {
        self.verifier_phc.clone()
    }

    /// Verify a password against the verifier string.
    pub fn verify(&self, password: &str) -> (r: bool)
        ensures
            r == passwords::accepts(self@.verifier_phc, password@),
    {
        passwords::verify_phc(self.verifier_phc.as_str(), password)
    }

    /// Verify the password shared by HTTP login and the second factor of the handshake.
    pub fn verify_password(&self, password: &str) -> (r: bool)
        ensures
            r == passwords::accepts(self@.verifier_phc, password@),
    {
        self.verify(password)
    }

    /// The pairing token, embedded in links and checked during the handshake.
    pub fn pairing_token(&self) -> (r: String)
        ensures
            r@ == self@.pairing_token,
    {
        self.pairing_token.clone()
    }

    /// Verify a pairing token against the current one in constant time.
    pub fn validate_pairing_token(&self, token: &str) -> (r: bool)
        ensures
            r == (token@ == self@.pairing_token),
    {
        proof {
            vstd::utf8::encode_utf8_decode_utf8(token@);
            vstd::utf8::encode_utf8_decode_utf8(self.pairing_token@);
        }
        tokens::constant_time_eq(token.as_bytes(), self.pairing_token.as_str().as_bytes())
    }

    /// Replace the pairing token by this one and clear the devices and the blocklist. Sessions
    /// stay.
    pub fn rotate_to(&mut self, token: String)
        requires
            old(self).wf(),
            !text::blank(token@),
        ensures
            final(self).wf(),
            final(self)@ == rotated(old(self)@, token@),
    {
        self.pairing_token = token;
        self.devices = Vec::new();
        self.blocked = Vec::new();
        self.unsaved = true;
        assert(self@ == rotated(old(self)@, token@));
    }

    /// Replace the pairing token by another one and clear the devices and the blocklist, which
    /// invalidates every link and requires every device to pair again. Sessions stay.
    pub fn rotate_pairing_token(&mut self) -> (r: String)
        requires
            old(self).wf(),
        ensures
            final(self).wf(),
            tokens::is_pairing_token(r@),
            tokens::fresh_pairing_token(old(self)@.pairing_token, r@),
            r@ != old(self)@.pairing_token,
            final(self)@ == rotated(old(self)@, r@),
            final(self)@.pairing_token == r@,
    {
        let token = tokens::other_token(&self.pairing_token);
        proof {
            tokens::lemma_pairing_token_shape(token@);
        }
        self.rotate_to(token.clone());
        token
    }

    /// Register or update a device that was seen at `now`, with placeholders for fields that it
    /// does not report.
    pub fn register_device_at(&mut self, device_id: Option<&str>, name: Option<&str>, now: u64)
        requires
            old(self).wf(),
        ensures
            final(self).wf(),
            final(self)@ == device_seen(
                old(self)@,
                text::text_view(device_id),
                text::text_view(name),
                now,
            ),
    {
        let id = text::trimmed_or(device_id, devices::UNKNOWN_DEVICE);
        let nm = text::trimmed_or(name, devices::DEFAULT_NAME);
        devices::note_seen(&mut self.devices, id, nm, now);
        self.unsaved = true;
    }

    /// Register or update a device after the handshake, with placeholders for fields that it does
    /// not report.
    pub fn register_device(&mut self, device_id: Option<&str>, name: Option<&str>)
        requires
            old(self).wf(),
        ensures
            final(self).wf(),
            exists|t: SystemTime, now: u64|
                clock::is_system_reading(t) && now == clock::unix_secs(
                    #[trigger] clock::nanos_since_epoch(t),
                ) && final(self)@ == #[trigger] device_seen(
                    old(self)@,
                    text::text_view(device_id),
                    text::text_view(name),
                    now,
                ),
    {
        let now: u64 = clock::now_secs();
        self.register_device_at(device_id, name, now);
    }

    /// The registered devices, distinguished by the identifiers that they report.
    pub fn list_devices(&self) -> (r: Vec<DeviceEntry>)
        ensures
            devices::devices_view(r@) == self@.devices,
    {
        self.devices.clone()
    }

    /// Block a device by its identifier and remove it from the registry; other devices are
    /// unaffected. Return whether it was registered. Identifiers are self-reported and spoofable.
    pub fn block_device(&mut self, device_id: &str) -> (r: bool)
        requires
            old(self).wf(),
        ensures
            final(self).wf(),
            final(self)@ == device_blocked(old(self)@, device_id@),
            r == devices::registered(old(self)@.devices, device_id@),
    {
        let id = device_id.to_owned();
        add_once(&mut self.blocked, device_id.to_owned());
        let before: usize = self.devices.len();
        devices::forget(&mut self.devices, &id);
        self.unsaved = true;
        proof {
            devices::lemma_without_is_shorter(old(self)@.devices, device_id@);
        }
        self.devices.len() < before
    }

    /// Whether a device is blocked; asked by handshake rejection and by heartbeat eviction.
    pub fn is_blocked(&self, device_id: &str) -> (r: bool)
        ensures
            r == self@.blocked.contains(device_id@),
    {
        lists(&self.blocked, device_id)
    }

    /// Make this session token valid.
    pub fn admit_session(&mut self, token: String)
        requires
            old(self).wf(),
        ensures
            final(self).wf(),
            final(self)@ == issued(old(self)@, token@),
    {
        self.tokens.insert(token);
    }

    /// Issue a random session token that was not valid before.
    pub fn mint(&mut self) -> (r: String)
        requires
            old(self).wf(),
        ensures
            final(self).wf(),
            tokens::is_session_token(r@),
            tokens::fresh_session_token(old(self)@.tokens, r@),
            !old(self)@.tokens.contains(r@),
            final(self)@ == issued(old(self)@, r@),
            final(self)@.tokens == old(self)@.tokens.insert(r@),
    {
        let token = tokens::unused_session_token(&self.tokens);
        self.admit_session(token.clone());
        token
    }

    /// Whether a session token is valid.
    pub fn check(&self, token: &str) -> (r: bool)
        ensures
            r == self@.tokens.contains(token@),
    {
        self.tokens.contains(token)
    }

    /// Validate a session token that comes in a WebSocket URL, where no header can be set.
    pub fn token_valid(&self, token: &str) -> (r: bool)
        ensures
            r == self@.tokens.contains(token@),
    {
        self.check(token)
    }

    /// Revoke a session token.
    pub fn revoke(&mut self, token: &str)
        requires
            old(self).wf(),
        ensures
            final(self).wf(),
            final(self)@ == revoked(old(self)@, token@),
    {
        self.tokens.remove(token);
    }
}

} // verus!
