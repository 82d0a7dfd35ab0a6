//! What holds of the service across its operations.

use crate::access_store::{Access, Attempt, PersistedAccess};
use crate::auth::{Auth, AuthState};
use crate::devices::Device;
use crate::{access_store, auth, devices, headers, login, passwords, text, tokens};
use axum::http::{HeaderMap, HeaderValue};
use vstd::prelude::*;

verus! {

/// The part of the state that is stored.
#[verifier::ext_equal]
pub struct Pairing {
    pub pairing_token: Seq<char>,
    pub devices: Seq<Device>,
    pub blocked: Set<Seq<char>>,
}

/// The stored part of a state.
pub open spec fn pairing_of(auth: Auth) -> Pairing {
    Pairing { pairing_token: auth.pairing_token, devices: auth.devices, blocked: auth.blocked }
}

/// What stored pairing state says.
pub open spec fn pairing_in(access: Access) -> Pairing {
    Pairing {
        pairing_token: access.pairing_token,
        devices: access.devices,
        blocked: access.blocked_devices.to_set(),
    }
}

/// Pairing state that was handed out to be stored is accepted when the service starts again, and
/// gives back the same token, registry and blocklist. Sessions do not survive.
pub proof fn law_pairing_state_survives_a_restart(
    before: AuthState,
    access: PersistedAccess,
    verifier_phc: Seq<char>,
)
    requires
        before.wf(),
        auth::stores(access@, before@),
    ensures
        !text::blank(access.pairing_token@),
        pairing_in(access@) == pairing_of(before@),
        pairing_of(auth::restored(verifier_phc, access@)) == pairing_of(before@),
        auth::restored(verifier_phc, access@).tokens == Set::<Seq<char>>::empty(),
{
    before.lemma_token_not_blank();
}

/// After any number of attempts to store pairing state, failed ones among them, a service that
/// starts again has the token, registry and blocklist of the state that was last stored with
/// success.
pub proof fn law_restart_after_failed_saves(
    before: AuthState,
    disk: Option<Access>,
    attempts: Seq<Attempt>,
    last: int,
    verifier_phc: Seq<char>,
)
    requires
        before.wf(),
        access_store::is_last_success(attempts, last),
        auth::stores(attempts[last].access, before@),
    ensures
        access_store::loaded(access_store::disk_after_attempts(disk, attempts)) == Some(
            attempts[last].access,
        ),
        pairing_of(auth::restored(verifier_phc, attempts[last].access)) == pairing_of(before@),
{
    before.lemma_token_not_blank();
    access_store::law_load_gives_back_the_last_success(disk, attempts, last);
}

/// Whatever was stored, a service starts with the verifier string it was given, so a password is
/// accepted after a restart exactly when that string accepts it. No session is valid at the start.
pub proof fn law_verifier_comes_from_the_caller(
    verifier_phc: Seq<char>,
    access: Access,
    token: Seq<char>,
    password: Seq<char>,
    session: Seq<char>,
)
    ensures
        auth::restored(verifier_phc, access).verifier_phc == verifier_phc,
        auth::created(verifier_phc, token).verifier_phc == verifier_phc,
        passwords::accepts(auth::restored(verifier_phc, access).verifier_phc, password)
            == passwords::accepts(verifier_phc, password),
        passwords::accepts(auth::created(verifier_phc, token).verifier_phc, password)
            == passwords::accepts(verifier_phc, password),
        !auth::restored(verifier_phc, access).tokens.contains(session),
        !auth::created(verifier_phc, token).tokens.contains(session),
{
}

/// A service that starts without stored state has the fresh token, no device and no blocked one,
/// and its state waits to be stored; one that starts from stored state has nothing to store.
pub proof fn law_start_is_stored_once(verifier_phc: Seq<char>, access: Access, token: Seq<char>)
    ensures
        auth::created(verifier_phc, token).pairing_token == token,
        auth::created(verifier_phc, token).devices.len() == 0,
        forall|id: Seq<char>| !(#[trigger] auth::created(verifier_phc, token).blocked.contains(id)),
        auth::created(verifier_phc, token).unsaved,
        !auth::restored(verifier_phc, access).unsaved,
{
}

/// Nothing but a start sets the password verifier. What devices do and what becomes of the pairing
/// token leaves sessions alone, and sessions leave everything else alone. What is stored is marked
/// as changed whenever it is touched, and not when a session comes or goes.
pub proof fn law_changes_stay_in_their_part(
    before: Auth,
    device_id: Option<Seq<char>>,
    name: Option<Seq<char>>,
    now: u64,
    id: Seq<char>,
    token: Seq<char>,
)
    ensures
        ({
            let registered = auth::device_seen(before, device_id, name, now);
            let blocked = auth::device_blocked(before, id);
            let rotated = auth::rotated(before, token);
            let issued = auth::issued(before, token);
            let revoked = auth::revoked(before, token);
            &&& registered.verifier_phc == before.verifier_phc
            &&& blocked.verifier_phc == before.verifier_phc
            &&& rotated.verifier_phc == before.verifier_phc
            &&& issued.verifier_phc == before.verifier_phc
            &&& revoked.verifier_phc == before.verifier_phc
            &&& registered.tokens == before.tokens
            &&& blocked.tokens == before.tokens
            &&& rotated.tokens == before.tokens
            &&& registered.pairing_token == before.pairing_token
            &&& blocked.pairing_token == before.pairing_token
            &&& registered.blocked == before.blocked
            &&& pairing_of(issued) == pairing_of(before)
            &&& pairing_of(revoked) == pairing_of(before)
            &&& registered.unsaved && blocked.unsaved && rotated.unsaved
            &&& issued.unsaved == before.unsaved
            &&& revoked.unsaved == before.unsaved
        }),
{
}

/// Rotation changes the pairing token: the new one validates, and the one from before no longer
/// does.
pub proof fn law_rotation_invalidates_the_old_token(before: Auth, token: Seq<char>)
    requires
        tokens::fresh_pairing_token(before.pairing_token, token),
    ensures
        auth::rotated(before, token).pairing_token != before.pairing_token,
        auth::rotated(before, token).pairing_token == token,
{
}

/// What is stored depends on the token, the registry and the blocklist alone: neither the password
/// verifier nor any session token goes into it.
pub proof fn law_stored_state_holds_no_credentials(access: Access, a: Auth, b: Auth)
    requires
        pairing_of(a) == pairing_of(b),
    ensures
        auth::stores(access, a) == auth::stores(access, b),
{
}

/// Rotation makes the new token the only valid one and clears the registry and the blocklist.
/// Sessions and the password verifier stay.
pub proof fn law_rotation_replaces_everything_shared(before: Auth, token: Seq<char>)
    ensures
        auth::rotated(before, token).pairing_token == token,
        before.pairing_token != token ==> auth::rotated(before, token).pairing_token
            != before.pairing_token,
        auth::rotated(before, token).devices.len() == 0,
        forall|id: Seq<char>| !(#[trigger] auth::rotated(before, token).blocked.contains(id)),
        auth::rotated(before, token).tokens == before.tokens,
        auth::rotated(before, token).verifier_phc == before.verifier_phc,
{
}

/// Registering a device that is known updates it in place: the registry keeps its length, and the
/// device its identifier and the time it was first seen. Registering an unknown one adds it at
/// the end. Either way the other devices stay as they are, and identifiers that were distinct
/// stay so.
pub proof fn law_registering_updates_rather_than_duplicates(
    before: Auth,
    device_id: Option<Seq<char>>,
    name: Option<Seq<char>>,
    now: u64,
)
    ensures
        ({
            let id = devices::effective_id(device_id);
            let after = auth::device_seen(before, device_id, name, now);
            let at = devices::position_of(before.devices, id);
            &&& devices::registered(after.devices, id)
            &&& 0 <= at < after.devices.len()
            &&& after.devices[at].device_id == id
            &&& after.devices[at].name == devices::effective_name(name)
            &&& after.devices[at].last_seen_at == now
            &&& if devices::registered(before.devices, id) {
                &&& after.devices.len() == before.devices.len()
                &&& after.devices[at].first_seen_at == before.devices[at].first_seen_at
            } else {
                &&& after.devices.len() == before.devices.len() + 1
                &&& after.devices[at].first_seen_at == now
            }
            &&& forall|i: int|
                0 <= i < before.devices.len() && i != at ==> #[trigger] after.devices[i]
                    == before.devices[i]
            &&& devices::distinct_ids(before.devices) ==> devices::distinct_ids(after.devices)
        }),
{
    let id = devices::effective_id(device_id);
    let after = auth::device_seen(before, device_id, name, now);
    let at = devices::position_of(before.devices, id);
    devices::lemma_position_of(before.devices, id);
    assert(after.devices[at].device_id == id);
    if devices::distinct_ids(before.devices) {
        assert forall|i: int, j: int| 0 <= i < j < after.devices.len() implies (
        #[trigger] after.devices[i]).device_id != (#[trigger] after.devices[j]).device_id by {
            if i < before.devices.len() {
                assert(after.devices[i].device_id == before.devices[i].device_id);
            }
            if j < before.devices.len() {
                assert(after.devices[j].device_id == before.devices[j].device_id);
            }
        }
    }
}

/// A device that reports something goes by it, trimmed and otherwise unchanged.
pub proof fn law_reported_fields_are_trimmed(reported: Seq<char>)
    requires
        !text::blank(reported),
    ensures
        devices::effective_id(Some(reported)) == text::trimmed(reported),
        devices::effective_name(Some(reported)) == text::trimmed(reported),
{
    text::lemma_trimmed(reported);
}

/// Two reported identifiers that are not blank and differ once they are trimmed name two devices:
/// both are registered, and blocking one leaves the other registered and not blocked.
pub proof fn law_different_identifiers_name_two_devices(
    before: Auth,
    one: Seq<char>,
    other: Seq<char>,
    name: Option<Seq<char>>,
    now: u64,
)
    requires
        !text::blank(one),
        !text::blank(other),
        text::trimmed(one) != text::trimmed(other),
    ensures
        devices::effective_id(Some(one)) != devices::effective_id(Some(other)),
        ({
            let both = auth::device_seen(
                auth::device_seen(before, Some(one), name, now),
                Some(other),
                name,
                now,
            );
            let left = auth::device_blocked(both, text::trimmed(one));
            &&& devices::registered(both.devices, text::trimmed(one))
            &&& devices::registered(both.devices, text::trimmed(other))
            &&& before.devices.len() == 0 ==> both.devices.len() == 2
            &&& !devices::registered(left.devices, text::trimmed(one))
            &&& devices::registered(left.devices, text::trimmed(other))
            &&& left.blocked.contains(text::trimmed(one))
            &&& left.blocked.contains(text::trimmed(other)) == before.blocked.contains(
                text::trimmed(other),
            )
        }),
{
    law_reported_fields_are_trimmed(one);
    law_reported_fields_are_trimmed(other);
    let a = text::trimmed(one);
    let b = text::trimmed(other);
    let first = auth::device_seen(before, Some(one), name, now);
    let both = auth::device_seen(first, Some(other), name, now);
    law_registering_updates_rather_than_duplicates(before, Some(one), name, now);
    law_registering_updates_rather_than_duplicates(first, Some(other), name, now);
    devices::lemma_position_of(before.devices, a);
    devices::lemma_position_of(first.devices, b);
    let i = devices::position_of(before.devices, a);
    let j = devices::position_of(first.devices, b);
    assert(first.devices[i].device_id == a);
    assert(i != j);
    assert(both.devices[i] == first.devices[i]);
    assert(both.devices[j].device_id == b);
    if before.devices.len() == 0 {
        assert(!devices::registered(before.devices, a));
        assert(!devices::registered(first.devices, b)) by {
            if devices::registered(first.devices, b) {
                let k = choose|k: int|
                    0 <= k < first.devices.len() && (#[trigger] first.devices[k]).device_id == b;
                assert(k == i);
            }
        }
    }
    let left = auth::device_blocked(both, a);
    law_blocking_spares_other_devices(both, a);
    assert(both.devices.contains(both.devices[j]));
    assert(left.devices.contains(both.devices[j]));
    let k = choose|k: int| 0 <= k < left.devices.len() && left.devices[k] == both.devices[j];
    assert(left.devices[k].device_id == b);
}

/// A device never goes by an empty identifier or name: what it does not report is replaced.
pub proof fn law_placeholders_stand_for_missing_fields(reported: Option<Seq<char>>)
    ensures
        devices::effective_id(reported).len() > 0,
        devices::effective_name(reported).len() > 0,
        (reported is None || text::blank(reported->0)) ==> devices::effective_id(reported)
            == "(unknown)"@ && devices::effective_name(reported) == "Browser"@,
{
    reveal_strlit("(unknown)");
    reveal_strlit("Browser");
    if reported is Some {
        text::lemma_trimmed(reported->0);
    }
}

/// The identifier and the name that a device goes by stand for themselves: reporting them again
/// names the same device.
pub proof fn law_effective_fields_are_stable(reported: Option<Seq<char>>)
    ensures
        devices::effective_id(Some(devices::effective_id(reported))) == devices::effective_id(
            reported,
        ),
        devices::effective_name(Some(devices::effective_name(reported))) == devices::effective_name(
            reported,
        ),
{
    reveal_strlit("(unknown)");
    reveal_strlit("Browser");
    if reported is Some {
        text::lemma_trimmed(reported->0);
    }
}

/// Blocking puts a device on the blocklist and takes it off the registry; every other device
/// stays registered as it was, and blocked or not as it was. Identifiers that were distinct stay
/// so.
pub proof fn law_blocking_spares_other_devices(before: Auth, id: Seq<char>)
    ensures
        auth::device_blocked(before, id).blocked.contains(id),
        !devices::registered(auth::device_blocked(before, id).devices, id),
        forall|d: Device| #[trigger]
            auth::device_blocked(before, id).devices.contains(d) <==> before.devices.contains(d)
                && d.device_id != id,
        forall|other: Seq<char>|
            other != id ==> (#[trigger] auth::device_blocked(before, id).blocked.contains(other)
                <==> before.blocked.contains(other)),
        devices::distinct_ids(before.devices) ==> devices::distinct_ids(
            auth::device_blocked(before, id).devices,
        ),
{
    if devices::distinct_ids(before.devices) {
        devices::lemma_without_keeps_distinct_ids(before.devices, id);
    }
    let other = |d: Device| d.device_id != id;
    let after = auth::device_blocked(before, id).devices;
    assert forall|d: Device| #[trigger] after.contains(d) implies before.devices.contains(d)
        && d.device_id != id by {
        before.devices.lemma_filter_contains_rev(other, d);
        let i = choose|i: int| 0 <= i < after.len() && after[i] == d;
        before.devices.lemma_filter_pred(other, i);
    }
    assert forall|d: Device| before.devices.contains(d) && d.device_id != id implies #[trigger]
        after.contains(d) by {
        let i = choose|i: int| 0 <= i < before.devices.len() && before.devices[i] == d;
        before.devices.lemma_filter_contains(other, i);
    }
    if devices::registered(after, id) {
        let i = choose|i: int| 0 <= i < after.len() && (#[trigger] after[i]).device_id == id;
        assert(after.contains(after[i]));
    }
}

/// A session token is valid from its issue to its revocation, and neither touches any other token
/// or the stored state.
pub proof fn law_session_lifecycle(before: Auth, token: Seq<char>, other: Seq<char>)
    requires
        token != other,
    ensures
        auth::issued(before, token).tokens.contains(token),
        !auth::revoked(before, token).tokens.contains(token),
        auth::issued(before, token).tokens.contains(other) == before.tokens.contains(other),
        auth::revoked(before, token).tokens.contains(other) == before.tokens.contains(other),
        pairing_of(auth::issued(before, token)) == pairing_of(before),
        pairing_of(auth::revoked(before, token)) == pairing_of(before),
{
}

/// The token that a login hands out authenticates requests that carry it, until such a request
/// logs out.
pub proof fn law_login_authenticates_until_logout(
    before: Auth,
    after: Auth,
    reply: login::Response,
    headers: HeaderMap<HeaderValue>,
)
    requires
        login::login_concludes(before, true, after, reply),
        headers::header_token(headers) is Some,
        reply.body == login::BodyText::Token(headers::header_token(headers)->0),
    ensures
        login::authed(after, headers),
        !login::authed(auth::revoked(after, headers::header_token(headers)->0), headers),
{
}

/// A login with a wrong password changes nothing and is answered as unauthorized. One with the
/// right password is answered with a token that was not valid before and is valid afterwards, and
/// changes nothing else.
pub proof fn law_login_outcome(before: Auth, verified: bool, after: Auth, reply: login::Response)
    requires
        login::login_concludes(before, verified, after, reply),
    ensures
        !verified ==> {
            &&& after == before
            &&& reply.status == 401
            &&& reply.body == login::BodyText::Text("Wrong password"@)
        },
        verified ==> {
            &&& reply.status == 200
            &&& reply.body is Token
            &&& !before.tokens.contains(reply.body->Token_0)
            &&& tokens::is_session_token(reply.body->Token_0)
            &&& forall|token: Seq<char>| #[trigger]
                after.tokens.contains(token) <==> before.tokens.contains(token) || token
                    == reply.body->Token_0
            &&& after.verifier_phc == before.verifier_phc
            &&& pairing_of(after) == pairing_of(before)
        },
{
}

/// Two logins hand out different tokens as long as the first one is still valid at the second, and
/// logging one of them out leaves the other valid.
pub proof fn law_logins_do_not_share_a_token(
    before: Auth,
    first: Auth,
    first_reply: login::Response,
    between: Auth,
    second: Auth,
    second_reply: login::Response,
)
    requires
        login::login_concludes(before, true, first, first_reply),
        first.tokens.subset_of(between.tokens),
        login::login_concludes(between, true, second, second_reply),
    ensures
        first_reply.body is Token,
        second_reply.body is Token,
        first_reply.body->Token_0 != second_reply.body->Token_0,
        auth::revoked(second, first_reply.body->Token_0).tokens.contains(
            second_reply.body->Token_0,
        ),
        auth::revoked(second, second_reply.body->Token_0).tokens.contains(
            first_reply.body->Token_0,
        ),
        !auth::revoked(second, first_reply.body->Token_0).tokens.contains(
            first_reply.body->Token_0,
        ),
{
    law_login_outcome(before, true, first, first_reply);
    law_login_outcome(between, true, second, second_reply);
    assert(first.tokens.contains(first_reply.body->Token_0));
}

/// A request is authenticated exactly when its headers carry a token that is valid.
pub proof fn law_authenticated_by_a_valid_token(auth: Auth, headers: HeaderMap<HeaderValue>)
    ensures
        login::authed(auth, headers) <==> exists|token: Seq<char>|
            headers::header_token(headers) == Some(token) && #[trigger] auth.tokens.contains(token),
        auth.tokens == Set::<Seq<char>>::empty() ==> !login::authed(auth, headers),
{
    if login::authed(auth, headers) {
        assert(auth.tokens.contains(headers::header_token(headers)->0));
    }
}

/// A session token comes back unchanged from the `Authorization` text that carries it.
pub proof fn law_bearer_text_carries_the_session_token(token: Seq<char>)
    requires
        tokens::is_session_token(token),
    ensures
        headers::bearer_of("Bearer "@ + token) == Some(token),
{
    reveal_strlit("Bearer ");
    let id = choose|id: u128|
        tokens::is_version_4(id) && token == #[trigger] tokens::hyphenated_form(id);
    assert(token[0] == tokens::hex_char(tokens::nibble(id, 0)));
    assert(token[35] == tokens::hex_char(tokens::nibble(id, 31)));
    let auth = "Bearer "@ + token;
    assert(auth.skip("Bearer "@.len() as int) == token);
    assert("Bearer "@.is_prefix_of(auth));
}

/// The service: its state, and what its data directory holds.
pub struct Service {
    pub auth: Auth,
    pub disk: Option<Pairing>,
}

/// Something that happens to the service.
pub enum Action {
    /// A device is registered at a time.
    Register(Option<Seq<char>>, Option<Seq<char>>, u64),
    /// A device is blocked.
    Block(Seq<char>),
    /// The pairing token is replaced by this one.
    Rotate(Seq<char>),
    /// A session token is issued.
    Issue(Seq<char>),
    /// A session token is revoked.
    Revoke(Seq<char>),
    /// Changed pairing state is written to disk with success.
    Persist,
    /// The service starts again with this verifier, and with this fresh token if it needs one.
    Restart(Seq<char>, Seq<char>),
}

/// The tokens that an action brings in are not blank.
pub open spec fn sound(action: Action) -> bool {
    match action {
        Action::Rotate(token) => !text::blank(token),
        Action::Restart(_, token) => !text::blank(token),
        _ => true,
    }
}

/// The service after an action.
pub open spec fn after_action(service: Service, action: Action) -> Service {
    let auth = service.auth;
    match action {
        Action::Register(id, name, now) => Service {
            auth: auth::device_seen(auth, id, name, now),
            ..service
        },
        Action::Block(id) => Service { auth: auth::device_blocked(auth, id), ..service },
        Action::Rotate(token) => Service { auth: auth::rotated(auth, token), ..service },
        Action::Issue(token) => Service { auth: auth::issued(auth, token), ..service },
        Action::Revoke(token) => Service { auth: auth::revoked(auth, token), ..service },
        Action::Persist => Service {
            auth: Auth { unsaved: false, ..auth },
            disk: if auth.unsaved {
                Some(pairing_of(auth))
            } else {
                service.disk
            },
        },
        Action::Restart(verifier_phc, token) => Service {
            auth: match service.disk {
                Some(p) if !text::blank(p.pairing_token) => Auth {
                    verifier_phc,
                    tokens: Set::empty(),
                    pairing_token: p.pairing_token,
                    devices: p.devices,
                    blocked: p.blocked,
                    unsaved: false,
                },
                _ => auth::created(verifier_phc, token),
            },
            ..service
        },
    }
}

/// A restart in this model is a start from what the disk holds, or a fresh start when it holds
/// nothing of use.
pub proof fn law_restart_loads_the_disk(
    service: Service,
    access: Access,
    verifier_phc: Seq<char>,
    token: Seq<char>,
)
    requires
        service.disk == Some(pairing_in(access)),
    ensures
        access_store::loaded(Some(access)) is Some ==> after_action(
            service,
            Action::Restart(verifier_phc, token),
        ).auth == auth::restored(verifier_phc, access),
        access_store::loaded(Some(access)) is None ==> after_action(
            service,
            Action::Restart(verifier_phc, token),
        ).auth == auth::created(verifier_phc, token),
{
}

/// The service after a sequence of actions.
pub open spec fn after_actions(service: Service, actions: Seq<Action>) -> Service
    decreases actions.len(),
{
    if actions.len() == 0 {
        service
    } else {
        after_action(after_actions(service, actions.drop_last()), actions.last())
    }
}

/// Pairing state that is not waiting to be written is what the disk holds.
pub open spec fn in_sync(service: Service) -> bool {
    &&& !text::blank(service.auth.pairing_token)
    &&& !service.auth.unsaved ==> service.disk == Some(pairing_of(service.auth))
}

/// As long as every write succeeds, pairing state either waits to be written or is what the disk
/// holds.
pub proof fn law_changes_are_written_through(service: Service, action: Action)
    requires
        in_sync(service),
        sound(action),
    ensures
        in_sync(after_action(service, action)),
{
}

/// Every restart in a sequence of actions comes once the changes before it have been written.
pub open spec fn saved_before_restarts(service: Service, actions: Seq<Action>) -> bool {
    forall|i: int|
        0 <= i < actions.len() && #[trigger] actions[i] is Restart ==> !after_actions(
            service,
            actions.take(i),
        ).auth.unsaved
}

/// Through any sequence of actions without a rotation, restarts included, the pairing token stays
/// the same and a blocked device stays blocked, as long as every write succeeds.
pub proof fn law_only_rotation_replaces_the_token(service: Service, actions: Seq<Action>)
    requires
        in_sync(service),
        all_sound(actions),
        no_rotation_from(actions, 0),
        saved_before_restarts(service, actions),
    ensures
        in_sync(after_actions(service, actions)),
        after_actions(service, actions).auth.pairing_token == service.auth.pairing_token,
        service.auth.blocked.subset_of(after_actions(service, actions).auth.blocked),
    decreases actions.len(),
{
    if actions.len() > 0 {
        let earlier = actions.drop_last();
        assert forall|i: int| 0 <= i < earlier.len() implies sound(#[trigger] earlier[i]) && !(
        earlier[i] is Rotate) by {
            assert(earlier[i] == actions[i]);
        }
        assert forall|i: int| 0 <= i < earlier.len() && #[trigger] earlier[i] is Restart implies !(
        after_actions(service, earlier.take(i)).auth.unsaved) by {
            assert(earlier[i] == actions[i]);
            assert(earlier.take(i) == actions.take(i));
        }
        law_only_rotation_replaces_the_token(service, earlier);
        assert(actions.take(actions.len() - 1) == earlier);
        assert(actions.last() == actions[actions.len() - 1]);
    }
}

/// All tokens that a sequence of actions brings in are not blank.
pub open spec fn all_sound(actions: Seq<Action>) -> bool {
    forall|i: int| 0 <= i < actions.len() ==> sound(#[trigger] actions[i])
}

/// The action ends the session of this token.
pub open spec fn ends_session(action: Action, token: Seq<char>) -> bool {
    action == Action::Revoke(token) || action is Restart
}

/// No action from `from` on ends the session of this token.
pub open spec fn not_ended_from(actions: Seq<Action>, from: int, token: Seq<char>) -> bool {
    forall|j: int| from <= j < actions.len() ==> !ends_session(#[trigger] actions[j], token)
}

/// The token was issued, and its session was not ended since.
pub open spec fn issued_and_kept(actions: Seq<Action>, token: Seq<char>) -> bool {
    exists|i: int|
        0 <= i < actions.len() && #[trigger] actions[i] == Action::Issue(token) && not_ended_from(
            actions,
            i + 1,
            token,
        )
}

/// After any sequence of actions, a session token is valid exactly when it was issued and neither
/// revoked nor followed by a restart since, or was valid at the start and neither happened at all.
pub proof fn law_session_is_valid_from_issue_to_revocation(
    service: Service,
    actions: Seq<Action>,
    token: Seq<char>,
)
    ensures
        after_actions(service, actions).auth.tokens.contains(token) <==> (issued_and_kept(
            actions,
            token,
        ) || (service.auth.tokens.contains(token) && not_ended_from(actions, 0, token))),
    decreases actions.len(),
{
    if actions.len() > 0 {
        let earlier = actions.drop_last();
        let last = actions.last();
        let n = actions.len() - 1;
        assert(last == actions[n]);
        law_session_is_valid_from_issue_to_revocation(service, earlier, token);
        assert forall|from: int| 0 <= from <= n implies (#[trigger] not_ended_from(
            actions,
            from,
            token,
        ) <==> not_ended_from(earlier, from, token) && !ends_session(last, token)) by {
            if not_ended_from(actions, from, token) {
                assert forall|j: int| from <= j < earlier.len() implies !ends_session(
                    #[trigger] earlier[j],
                    token,
                ) by {
                    assert(earlier[j] == actions[j]);
                }
            }
            if not_ended_from(earlier, from, token) && !ends_session(last, token) {
                assert forall|j: int| from <= j < actions.len() implies !ends_session(
                    #[trigger] actions[j],
                    token,
                ) by {
                    if j < n {
                        assert(earlier[j] == actions[j]);
                    }
                }
            }
        }
        if issued_and_kept(earlier, token) && !ends_session(last, token) {
            let i = choose|i: int|
                0 <= i < earlier.len() && #[trigger] earlier[i] == Action::Issue(token)
                    && not_ended_from(earlier, i + 1, token);
            assert(actions[i] == earlier[i]);
            assert(not_ended_from(actions, i + 1, token));
        }
        if issued_and_kept(actions, token) && last != Action::Issue(token) {
            let i = choose|i: int|
                0 <= i < actions.len() && #[trigger] actions[i] == Action::Issue(token)
                    && not_ended_from(actions, i + 1, token);
            assert(earlier[i] == actions[i]);
            assert(not_ended_from(earlier, i + 1, token));
        }
        if last == Action::Issue(token) {
            assert(not_ended_from(actions, n + 1, token));
        }
    }
}

/// As long as every write succeeds, pairing state is in sync after any sequence of actions.
pub proof fn law_stays_in_sync(service: Service, actions: Seq<Action>)
    requires
        in_sync(service),
        all_sound(actions),
    ensures
        in_sync(after_actions(service, actions)),
    decreases actions.len(),
{
    if actions.len() > 0 {
        let earlier = actions.drop_last();
        assert forall|i: int| 0 <= i < earlier.len() implies sound(#[trigger] earlier[i]) by {
            assert(earlier[i] == actions[i]);
        }
        law_stays_in_sync(service, earlier);
        assert(actions.last() == actions[actions.len() - 1]);
        law_changes_are_written_through(after_actions(service, earlier), actions.last());
    }
}

/// No action from `from` on is a rotation.
pub open spec fn no_rotation_from(actions: Seq<Action>, from: int) -> bool {
    forall|j: int| from <= j < actions.len() ==> !(#[trigger] actions[j] is Rotate)
}

/// The device was blocked, and there was no rotation since.
pub open spec fn blocked_since_rotation(actions: Seq<Action>, id: Seq<char>) -> bool {
    exists|i: int|
        0 <= i < actions.len() && #[trigger] actions[i] == Action::Block(id) && no_rotation_from(
            actions,
            i + 1,
        )
}

/// The pairing token after a sequence of actions: that of the last rotation, or the one at the
/// start when there was none.
pub open spec fn last_token(start: Seq<char>, actions: Seq<Action>) -> Seq<char>
    decreases actions.len(),
{
    if actions.len() == 0 {
        start
    } else {
        match actions.last() {
            Action::Rotate(token) => token,
            _ => last_token(start, actions.drop_last()),
        }
    }
}

/// After any sequence of actions, restarts included, a device is blocked exactly when it was
/// blocked since the last rotation, or was blocked at the start and there was no rotation; and the
/// pairing token is that of the last rotation. Every write succeeds.
#[verifier::rlimit(40)]
pub proof fn law_blocked_exactly_since_the_last_rotation(
    service: Service,
    actions: Seq<Action>,
    id: Seq<char>,
)
    requires
        in_sync(service),
        all_sound(actions),
        saved_before_restarts(service, actions),
    ensures
        after_actions(service, actions).auth.blocked.contains(id) <==> (blocked_since_rotation(
            actions,
            id,
        ) || (service.auth.blocked.contains(id) && no_rotation_from(actions, 0))),
        after_actions(service, actions).auth.pairing_token == last_token(
            service.auth.pairing_token,
            actions,
        ),
    decreases actions.len(),
{
    if actions.len() > 0 {
        let earlier = actions.drop_last();
        let last = actions.last();
        let n = actions.len() - 1;
        assert(last == actions[n]);
        assert forall|i: int| 0 <= i < earlier.len() implies sound(#[trigger] earlier[i]) by {
            assert(earlier[i] == actions[i]);
        }
        assert forall|i: int| 0 <= i < earlier.len() && #[trigger] earlier[i] is Restart implies !(
        after_actions(service, earlier.take(i)).auth.unsaved) by {
            assert(earlier[i] == actions[i]);
            assert(earlier.take(i) == actions.take(i));
        }
        law_blocked_exactly_since_the_last_rotation(service, earlier, id);
        law_stays_in_sync(service, earlier);
        assert(actions.take(n) == earlier);
        assert forall|from: int| 0 <= from <= n implies (#[trigger] no_rotation_from(actions, from)
            <==> no_rotation_from(earlier, from) && !(last is Rotate)) by {
            if no_rotation_from(actions, from) {
                assert forall|j: int| from <= j < earlier.len() implies !(
                #[trigger] earlier[j] is Rotate) by {
                    assert(earlier[j] == actions[j]);
                }
            }
            if no_rotation_from(earlier, from) && !(last is Rotate) {
                assert forall|j: int| from <= j < actions.len() implies !(
                #[trigger] actions[j] is Rotate) by {
                    if j < n {
                        assert(earlier[j] == actions[j]);
                    }
                }
            }
        }
        if blocked_since_rotation(earlier, id) && !(last is Rotate) {
            let i = choose|i: int|
                0 <= i < earlier.len() && #[trigger] earlier[i] == Action::Block(id)
                    && no_rotation_from(earlier, i + 1);
            assert(actions[i] == earlier[i]);
            assert(no_rotation_from(actions, i + 1));
        }
        if blocked_since_rotation(actions, id) && last != Action::Block(id) {
            let i = choose|i: int|
                0 <= i < actions.len() && #[trigger] actions[i] == Action::Block(id)
                    && no_rotation_from(actions, i + 1);
            assert(earlier[i] == actions[i]);
            assert(no_rotation_from(earlier, i + 1));
        }
        if last == Action::Block(id) {
            assert(no_rotation_from(actions, n + 1));
        }
    }
}

} // verus!
