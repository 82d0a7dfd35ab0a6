//! Argon2id password hashing and verification.

use crate::phc;
use argon2::password_hash::rand_core::OsRng;
use argon2::password_hash::{PasswordHash, PasswordHasher, PasswordVerifier, SaltString};
use argon2::Argon2;
use vstd::prelude::*;
use vstd::utf8::encode_utf8;

verus! {

/// What `Argon2::default().hash_password` makes of a password and the bytes of a salt: the PHC
/// string, or the text of the error.
pub uninterp spec fn argon2_hash(password: Seq<u8>, salt: Seq<u8>) -> Result<Seq<char>, Seq<char>>;

/// Whether `Argon2::default().verify_password` accepts a password against a PHC string; nothing
/// when the string does not parse.
pub uninterp spec fn argon2_check(password: Seq<u8>, phc: Seq<char>) -> Option<bool>;

/// The longest password in bytes that Argon2 takes.
pub const MAX_PASSWORD_LEN: u64 = 0xffff_ffff;

/// The bytes at `i` start a setting of the degree of parallelism.
pub open spec fn sets_lanes_at(phc: Seq<u8>, i: int) -> bool {
    0 <= i && i + 1 < phc.len() && phc[i] == 0x70 && phc[i + 1] == 0x3d
}

/// An ASCII digit.
pub open spec fn is_digit(b: u8) -> bool {
    0x30 <= b <= 0x39
}

/// Nine digits follow the setting at `i`.
pub open spec fn nine_digits_after(phc: Seq<u8>, i: int) -> bool {
    i + 11 <= phc.len() && forall|k: int| i + 2 <= k < i + 11 ==> is_digit(#[trigger] phc[k])
}

/// The last degree of parallelism that the text sets has nine digits or more. Argon2 takes no
/// value that large.
pub open spec fn too_many_lanes(phc: Seq<u8>) -> bool {
    exists|i: int| #[trigger]
        sets_lanes_at(phc, i) && nine_digits_after(phc, i) && forall|j: int|
            i < j ==> !sets_lanes_at(phc, j)
}

/// The password is accepted by the verifier string `phc`.
pub open spec fn accepts(phc: Seq<char>, password: Seq<char>) -> bool {
    &&& !too_many_lanes(encode_utf8(phc))
    &&& argon2_check(encode_utf8(password), phc) == Some(true)
}

/// A hashing outcome by its texts.
pub open spec fn outcome_view(outcome: Result<String, String>) -> Result<Seq<char>, Seq<char>> {
    match outcome {
        Ok(phc) => Ok(phc@),
        Err(text) => Err(text@),
    }
}

/// What a caller is told of a hashing outcome.
pub open spec fn reported(outcome: Result<Seq<char>, Seq<char>>) -> Result<Seq<char>, Seq<char>> {
    match outcome {
        Ok(phc) => Ok(phc),
        Err(text) => Err("Failed to hash password: "@ + text),
    }
}

/// Trusted: `SaltString::generate` draws 16 random bytes. Which bytes come out is left to chance.
#[verifier::external_body]
fn random_salt() -> (salt: [u8; 16])
{
    let mut salt = [0u8; 16];
    SaltString::generate(&mut OsRng).decode_b64(&mut salt).expect("16 bytes");
    salt
}

/// `salt` came out of a random draw.
pub closed spec fn drawn_salt(salt: Seq<u8>) -> bool {
    exists|bytes: [u8; 16]| #[trigger] call_ensures(random_salt, (), bytes) && bytes@ == salt
}

/// What is drawn is a result of `random_salt`, and so has 16 bytes.
proof fn lemma_drawn_salt(salt: Seq<u8>)
    requires
        drawn_salt(salt),
    ensures
        exists|bytes: [u8; 16]| #[trigger] call_ensures(random_salt, (), bytes) && bytes@ == salt,
        salt.len() == 16,
{
}

/// Trusted: `PasswordHasher::hash_password` of `Argon2::default()` is a function of the password
/// and the salt. With a salt of 16 bytes it fails only on a password longer than 2^32 - 1 bytes.
/// What it makes displays itself as an Argon2id PHC string of the default costs that carries the
/// salt and a hash of 32 bytes, and `verify_password` accepts the same password against it.
#[verifier::external_body]
fn hash_with(password: &[u8], salt: &[u8; 16]) -> (r: Result<String, String>)
    ensures
        outcome_view(r) == argon2_hash(password@, salt@),
        r is Ok <==> password@.len() <= MAX_PASSWORD_LEN,
        r matches Ok(phc) ==> {
            &&& phc::carries_salt(phc@, salt@)
            &&& argon2_check(password@, phc@) == Some(true)
        },
{
    let salt = SaltString::encode_b64(salt).expect("16 bytes");
    match Argon2::default().hash_password(password, &salt) {
        Ok(hash) => Ok(hash.to_string()),
        Err(e) => Err(e.to_string()),
    }
}

/// Trusted: `PasswordHash::new` parses the PHC string, and `PasswordVerifier::verify_password` of
/// `Argon2::default()` recomputes the hash with the parameters it holds; both are functions of
/// their arguments. A degree of parallelism of nine digits or more, which verification refuses,
/// can overflow on the way and is left out. The memory that the string asks for must be there, as
/// for any allocation.
#[verifier::external_body]
fn check_with(password: &[u8], phc: &str) -> (r: Option<bool>)
    requires
        !too_many_lanes(encode_utf8(phc@)),
    ensures
        r == argon2_check(password@, phc@),
{
    match PasswordHash::new(phc) {
        Ok(parsed) => Some(Argon2::default().verify_password(password, &parsed).is_ok()),
        Err(_) => None,
    }
}

/// A PHC string that hashing makes sets a degree of parallelism of one digit, and names its
/// algorithm first.
proof fn lemma_carries_salt(phc: Seq<char>, salt: Seq<u8>)
    requires
        salt.len() == 16,
        phc::carries_salt(phc, salt),
    ensures
        !too_many_lanes(encode_utf8(phc)),
        "$argon2id$"@.is_prefix_of(phc),
{
    let hash = choose|hash: Seq<u8>| hash.len() == 32 && phc == #[trigger] phc::phc_form(salt, hash);
    let head = phc::phc_head();
    reveal_strlit("$argon2id$v=19$m=19456,t=2,p=1$");
    reveal_strlit("$argon2id$");
    assert forall|i: int| 0 <= i < phc.len() implies #[trigger] phc[i] != '=' || i < head.len() by {
        if head.len() <= i < head.len() + 22 {
            let k = i - head.len();
            assert(phc[i] == phc::b64_char(phc::sextet(salt, k)));
            phc::lemma_sextet_range(salt, k);
            phc::lemma_b64_char(0, phc::sextet(salt, k));
        } else if i > head.len() + 22 {
            let k = i - head.len() - 23;
            assert(phc[i] == phc::b64_char(phc::sextet(hash, k)));
            phc::lemma_sextet_range(hash, k);
            phc::lemma_b64_char(0, phc::sextet(hash, k));
        }
    }
    assert(vstd::utf8::is_ascii_chars(phc)) by {
        assert forall|i: int| 0 <= i < phc.len() implies (#[trigger] phc[i] as u32) < 128 by {
            if head.len() <= i < head.len() + 22 {
                let k = i - head.len();
                assert(phc[i] == phc::b64_char(phc::sextet(salt, k)));
                phc::lemma_sextet_range(salt, k);
            } else if i > head.len() + 22 {
                let k = i - head.len() - 23;
                assert(phc[i] == phc::b64_char(phc::sextet(hash, k)));
                phc::lemma_sextet_range(hash, k);
            } else if i < head.len() {
                assert(phc[i] == head[i]);
            }
        }
    }
    vstd::utf8::is_ascii_chars_encode_utf8(phc);
    let bytes = encode_utf8(phc);
    assert forall|i: int| #[trigger] sets_lanes_at(bytes, i) implies !nine_digits_after(
        bytes,
        i,
    ) by {
        assert(bytes[i] == phc[i] as u8 && bytes[i + 1] == phc[i + 1] as u8);
        assert(phc[i + 1] == '=');
        assert(phc[i] == head[i]);
        assert(i == 27);
        assert(phc[30] == head[30]);
        assert(!is_digit(bytes[30]));
    }
    assert("$argon2id$"@ =~= phc.subrange(0, 10));
}

/// Whether the last degree of parallelism that `phc` sets has nine digits or more.
fn has_too_many_lanes(phc: &[u8]) -> (r: bool)
    ensures
        r == too_many_lanes(phc@),
{
    let mut end: usize = phc.len();
    while end >= 2
        invariant
            end <= phc@.len(),
            forall|j: int| end - 1 <= j ==> !sets_lanes_at(phc@, j),
        decreases end,
    {
        let at: usize = end - 2;
        if phc[at] == 0x70 && phc[at + 1] == 0x3d {
            assert(sets_lanes_at(phc@, at as int));
            if phc.len() - at < 11 {
                return false;
            }
            let stop: usize = at + 11;
            let mut k: usize = at + 2;
            while k < stop
                invariant
                    stop == at + 11,
                    stop <= phc@.len(),
                    at + 2 <= k <= stop,
                    sets_lanes_at(phc@, at as int),
                    forall|j: int| at < j ==> !sets_lanes_at(phc@, j),
                    forall|m: int| at + 2 <= m < k ==> is_digit(#[trigger] phc@[m]),
                decreases stop - k,
            {
                if phc[k] < 0x30 || phc[k] > 0x39 {
                    assert(!is_digit(phc@[k as int]));
                    return false;
                }
                k = k + 1;
            }
            assert(nine_digits_after(phc@, at as int));
            return true;
        }
        end = end - 1;
    }
    false
}

/// What a verification comes to: a verifier string that does not parse accepts nothing.
pub fn accepted(check: Option<bool>) -> (r: bool)
    ensures
        r == (check == Some(true)),
{
    match check {
        Some(ok) => ok,
        None => false,
    }
}

/// Verify `password` against the Argon2id PHC string `phc`. A string that does not parse, or that
/// sets parameters beyond the limits of Argon2, accepts nothing.
pub fn verify_phc(phc: &str, password: &str) -> (r: bool)
    ensures
        r == accepts(phc@, password@),
{
    if has_too_many_lanes(phc.as_bytes()) {
        return false;
    }
    accepted(check_with(password.as_bytes(), phc))
}

/// Put a hashing outcome in the words of this library.
pub fn report(outcome: Result<String, String>) -> (r: Result<String, String>)
    ensures
        outcome_view(r) == reported(outcome_view(outcome)),
{
    match outcome {
        Ok(phc) => Ok(phc),
        Err(e) => {
            let mut text = "Failed to hash password: ".to_owned();
            text.append(e.as_str());
            Err(text)
        },
    }
}

/// Hash a password with a given salt into an Argon2id PHC string.
pub fn hash_password_with_salt(password: &str, salt: &[u8; 16]) -> (r: Result<String, String>)
    ensures
        outcome_view(r) == reported(argon2_hash(encode_utf8(password@), salt@)),
        r is Ok <==> encode_utf8(password@).len() <= MAX_PASSWORD_LEN,
        r matches Ok(phc) ==> {
            &&& "$argon2id$"@.is_prefix_of(phc@)
            &&& phc::carries_salt(phc@, salt@)
            &&& accepts(phc@, password@)
        },
{
    let outcome = hash_with(password.as_bytes(), salt);
    proof {
        if outcome is Ok {
            lemma_carries_salt(outcome->Ok_0@, salt@);
        }
    }
    report(outcome)
}

/// Hash a plaintext password into an Argon2id PHC string with the default parameters and a fresh
/// random salt. The PHC string is the only value derived from the password that is ever stored.
pub fn hash_password(password: &str) -> (r: Result<String, String>)
    ensures
        exists|salt: Seq<u8>|
            {
                &&& salt.len() == 16
                &&& drawn_salt(salt)
                &&& outcome_view(r) == reported(
                    #[trigger] argon2_hash(encode_utf8(password@), salt),
                )
                &&& r matches Ok(phc) ==> phc::carries_salt(phc@, salt)
            },
        r is Ok <==> encode_utf8(password@).len() <= MAX_PASSWORD_LEN,
        r matches Ok(phc) ==> "$argon2id$"@.is_prefix_of(phc@) && accepts(phc@, password@),
{
    let salt = random_salt();
    proof {
        assert(call_ensures(random_salt, (), salt));
        lemma_drawn_salt(salt@);
    }
    hash_password_with_salt(password, &salt)
}

/// Nine digits follow a setting of the degree of parallelism at `i`, and there is no further one.
pub open spec fn ends_with_nine_lane_digits(bytes: Seq<u8>, i: int) -> bool {
    &&& 0 <= i && i + 11 <= bytes.len()
    &&& bytes[i] == 0x70 && bytes[i + 1] == 0x3d
    &&& forall|k: int| i + 2 <= k < i + 11 ==> 0x30 <= #[trigger] bytes[k] <= 0x39
    &&& forall|j: int|
        i < j < bytes.len() - 1 ==> !(#[trigger] bytes[j] == 0x70 && bytes[j + 1] == 0x3d)
}

/// A password is accepted exactly when Argon2 accepts it against the verifier string, unless the
/// last degree of parallelism that the string sets has nine digits, in which case nothing is
/// accepted.
pub proof fn law_argon2_decides(phc: Seq<char>, password: Seq<char>)
    ensures
        accepts(phc, password) ==> argon2_check(encode_utf8(password), phc) == Some(true),
        argon2_check(encode_utf8(password), phc) == Some(true) && !accepts(phc, password)
            ==> exists|i: int| #[trigger] ends_with_nine_lane_digits(encode_utf8(phc), i),
        forall|i: int| #[trigger]
            ends_with_nine_lane_digits(encode_utf8(phc), i) ==> !accepts(phc, password),
{
    let bytes = encode_utf8(phc);
    if too_many_lanes(bytes) {
        let i = choose|i: int| #[trigger]
            sets_lanes_at(bytes, i) && nine_digits_after(bytes, i) && forall|j: int|
                i < j ==> !sets_lanes_at(bytes, j);
        assert forall|k: int| i + 2 <= k < i + 11 implies 0x30 <= #[trigger] bytes[k] <= 0x39 by {
            assert(is_digit(bytes[k]));
        }
        assert forall|j: int| i < j < bytes.len() - 1 implies !(#[trigger] bytes[j] == 0x70
            && bytes[j + 1] == 0x3d) by {
            assert(!sets_lanes_at(bytes, j));
        }
        assert(ends_with_nine_lane_digits(bytes, i));
    }
    assert forall|i: int| #[trigger] ends_with_nine_lane_digits(bytes, i) implies !accepts(
        phc,
        password,
    ) by {
        assert(sets_lanes_at(bytes, i));
        assert(nine_digits_after(bytes, i));
        assert forall|j: int| i < j implies !sets_lanes_at(bytes, j) by {
            if j < bytes.len() - 1 {
                assert(!(bytes[j] == 0x70 && bytes[j + 1] == 0x3d));
            }
        }
    }
}

/// A string that was made is handed on unchanged, and a failure is told with its own text at the
/// end.
pub proof fn law_outcomes_are_reported_in_full(text: Seq<char>)
    ensures
        reported(Ok(text)) == Ok::<Seq<char>, Seq<char>>(text),
        reported(Err(text)) == Err::<Seq<char>, Seq<char>>("Failed to hash password: "@ + text),
{
}

} // verus!
