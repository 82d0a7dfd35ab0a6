//! Random tokens and their comparison.

use crate::text;
use uuid::Uuid;
use vstd::arithmetic::power::pow;
use vstd::hash_set::StringHashSet;
use vstd::prelude::*;

verus! {

/// The lower-case hexadecimal digit of `n`, for `n` from 0 to 15.
pub open spec fn hex_char(n: int) -> char {
    if n < 10 {
        (0x30 + n) as char
    } else {
        (0x57 + n) as char
    }
}

/// The `i`-th of the 32 hexadecimal digits of `id`, the most significant one first.
pub open spec fn nibble(id: u128, i: int) -> int {
    (id as int / pow(16, (31 - i) as nat)) % 16
}

/// `id` as 32 lower-case hexadecimal digits.
pub open spec fn simple_form(id: u128) -> Seq<char> {
    Seq::new(32, |i: int| hex_char(nibble(id, i)))
}

/// `id` as hexadecimal digits in groups of 8, 4, 4, 4 and 12, joined by hyphens.
pub open spec fn hyphenated_form(id: u128) -> Seq<char> {
    let s = simple_form(id);
    s.subrange(0, 8) + seq!['-'] + s.subrange(8, 12) + seq!['-'] + s.subrange(12, 16) + seq!['-']
        + s.subrange(16, 20) + seq!['-'] + s.subrange(20, 32)
}

/// `id` is a version 4 UUID of the RFC 9562 variant.
pub open spec fn is_version_4(id: u128) -> bool {
    nibble(id, 12) == 4 && 8 <= nibble(id, 16) <= 11
}

/// Trusted: `Uuid::new_v4` draws 128 random bits and sets the version and variant bits. Which
/// identifier comes out is left to chance.
#[verifier::external_body]
fn random_id() -> (id: u128)
    ensures
        is_version_4(id),
{
    Uuid::new_v4().as_u128()
}

/// `id` came out of a random draw.
pub closed spec fn drawn(id: u128) -> bool {
    call_ensures(random_id, (), id)
}

/// What is drawn is a result of `random_id`, and so a version 4 UUID.
proof fn lemma_drawn(id: u128)
    requires
        drawn(id),
    ensures
        call_ensures(random_id, (), id),
        is_version_4(id),
{
}

/// Trusted: `Uuid::simple` displays an identifier as 32 lower-case hexadecimal digits.
#[verifier::external_body]
fn simple_text(id: u128) -> (r: String)
    ensures
        r@ == simple_form(id),
{
    Uuid::from_u128(id).simple().to_string()
}

/// Trusted: a `Uuid` displays itself as lower-case hexadecimal digits in five groups joined by
/// hyphens.
#[verifier::external_body]
fn hyphenated_text(id: u128) -> (r: String)
    ensures
        r@ == hyphenated_form(id),
{
    Uuid::from_u128(id).to_string()
}

/// A session token: the hyphenated form of some version 4 identifier.
pub open spec fn is_session_token(token: Seq<char>) -> bool {
    exists|id: u128| is_version_4(id) && token == #[trigger] hyphenated_form(id)
}

/// A pairing token: the simple forms of two version 4 identifiers, joined.
pub open spec fn is_pairing_token(token: Seq<char>) -> bool {
    exists|a: u128, b: u128|
        is_version_4(a) && is_version_4(b) && token == #[trigger] simple_form(a)
            + #[trigger] simple_form(b)
}

/// The session token made of an identifier.
pub fn session_token_of(id: u128) -> (token: String)
    ensures
        token@ == hyphenated_form(id),
{
    hyphenated_text(id)
}

/// The session token of a random draw.
pub open spec fn drawn_session_token(token: Seq<char>) -> bool {
    exists|id: u128| drawn(id) && token == #[trigger] hyphenated_form(id)
}

/// The pairing token of two random draws.
pub open spec fn drawn_pairing_token(token: Seq<char>) -> bool {
    exists|a: u128, b: u128|
        drawn(a) && drawn(b) && token == #[trigger] simple_form(a) + #[trigger] simple_form(b)
}

/// A fresh random session token.
pub fn new_session_token() -> (token: String)
    ensures
        is_session_token(token@),
        drawn_session_token(token@),
{
    let id: u128 = random_id();
    proof {
        lemma_drawn(id);
    }
    session_token_of(id)
}

/// The pairing token made of two identifiers.
pub fn token_of(a: u128, b: u128) -> (token: String)
    ensures
        token@ == simple_form(a) + simple_form(b),
{
    let mut token = simple_text(a);
    token.append(simple_text(b).as_str());
    token
}

/// Generate an unpredictable pairing token by joining two random identifiers.
pub fn new_token() -> (token: String)
    ensures
        is_pairing_token(token@),
        drawn_pairing_token(token@),
{
    let a: u128 = random_id();
    let b: u128 = random_id();
    assert(drawn(a) && drawn(b));
    token_of(a, b)
}

/// The digits that tell the version and the variant of an identifier lie in its middle, and depend
/// on nothing outside of it.
proof fn lemma_version_lies_in_the_middle(a: u128, b: u128)
    requires
        (a / 0x1_0000_0000_0000) % 0x1_0000_0000 == (b / 0x1_0000_0000_0000) % 0x1_0000_0000,
    ensures
        nibble(a, 12) == nibble(b, 12),
        nibble(a, 16) == nibble(b, 16),
{
    lemma_middle_digits(a);
    lemma_middle_digits(b);
}

proof fn lemma_middle_digits(id: u128)
    ensures
        nibble(id, 12) == ((id / 0x1_0000_0000_0000) % 0x1_0000_0000) / 0x1000_0000,
        nibble(id, 16) == ((id / 0x1_0000_0000_0000) % 0x1_0000_0000) / 0x1000 % 16,
{
    assert(pow(16, 19) == 0x1000_0000_0000_0000_0000 && pow(16, 15) == 0x1000_0000_0000_0000) by {
        reveal_with_fuel(pow, 20);
    }
    let x = id as int;
    let q = x / 0x1_0000_0000_0000;
    vstd::arithmetic::div_mod::lemma_div_denominator(x, 0x1_0000_0000_0000, 0x1000_0000);
    vstd::arithmetic::div_mod::lemma_div_denominator(x, 0x1_0000_0000_0000, 0x1000);
    lemma_digits_within(q);
}

/// The digits of a number below 2 to the power of 32 do not depend on what lies above it.
proof fn lemma_digits_within(q: int)
    requires
        q >= 0,
    ensures
        (q / 0x1000_0000) % 16 == (q % 0x1_0000_0000) / 0x1000_0000,
        (q / 0x1000) % 16 == ((q % 0x1_0000_0000) / 0x1000) % 16,
{
    let high = q / 0x1_0000_0000;
    let low = q % 0x1_0000_0000;
    let n = low / 0x1000_0000;
    vstd::arithmetic::div_mod::lemma_fundamental_div_mod_converse(
        q,
        0x1000_0000,
        16 * high + n,
        low % 0x1000_0000,
    );
    vstd::arithmetic::div_mod::lemma_fundamental_div_mod_converse(16 * high + n, 16, high, n);
    let m = low / 0x1000;
    vstd::arithmetic::div_mod::lemma_fundamental_div_mod_converse(
        q,
        0x1000,
        0x10_0000 * high + m,
        low % 0x1000,
    );
    vstd::arithmetic::div_mod::lemma_fundamental_div_mod_converse(
        0x10_0000 * high + m,
        16,
        0x1_0000 * high + m / 16,
        m % 16,
    );
}

proof fn lemma_hex_char_is_injective(m: int, n: int)
    requires
        0 <= m < 16,
        0 <= n < 16,
        hex_char(m) == hex_char(n),
    ensures
        m == n,
{
}

/// The last `n` hexadecimal digits fix an identifier modulo 16 to the power of `n`.
proof fn lemma_last_digits(a: u128, b: u128, n: nat)
    requires
        n <= 32,
        forall|i: int| 32 - n <= i < 32 ==> #[trigger] nibble(a, i) == nibble(b, i),
    ensures
        a as int % pow(16, n) == b as int % pow(16, n),
    decreases n,
{
    if n == 0 {
        vstd::arithmetic::power::lemma_pow0(16);
    } else {
        let m = (n - 1) as nat;
        lemma_last_digits(a, b, m);
        vstd::arithmetic::power::lemma_pow_positive(16, m);
        assert(pow(16, n) == pow(16, m) * 16) by {
            reveal(pow);
        }
        vstd::arithmetic::div_mod::lemma_mod_breakdown(a as int, pow(16, m), 16);
        vstd::arithmetic::div_mod::lemma_mod_breakdown(b as int, pow(16, m), 16);
        assert(nibble(a, 32 - n) == nibble(b, 32 - n));
    }
}

/// Different identifiers have different hexadecimal digits.
pub proof fn law_simple_form_names_the_identifier(a: u128, b: u128)
    requires
        simple_form(a) == simple_form(b),
    ensures
        a == b,
{
    assert forall|i: int| 0 <= i < 32 implies #[trigger] nibble(a, i) == nibble(b, i) by {
        assert(simple_form(a)[i] == hex_char(nibble(a, i)));
        assert(simple_form(b)[i] == hex_char(nibble(b, i)));
        lemma_hex_char_is_injective(nibble(a, i), nibble(b, i));
    }
    lemma_last_digits(a, b, 32);
    assert(pow(16, 32) == 0x1_0000_0000_0000_0000_0000_0000_0000_0000) by {
        reveal_with_fuel(pow, 33);
    }
}

/// Different identifiers have different hyphenated forms.
pub proof fn law_hyphenated_form_names_the_identifier(a: u128, b: u128)
    requires
        hyphenated_form(a) == hyphenated_form(b),
    ensures
        a == b,
{
    let s = simple_form(a);
    let t = simple_form(b);
    let p = hyphenated_form(a);
    let q = hyphenated_form(b);
    assert forall|i: int| 0 <= i < 32 implies s[i] == t[i] by {
        let at = if i < 8 {
            i
        } else if i < 12 {
            i + 1
        } else if i < 16 {
            i + 2
        } else if i < 20 {
            i + 3
        } else {
            i + 4
        };
        assert(p[at] == s[i]);
        assert(q[at] == t[i]);
    }
    assert(s =~= t);
    law_simple_form_names_the_identifier(a, b);
}

/// The identifier that is `k` further than `id`, counted in its first 48 and in its last 48 bits.
spec fn shifted_id(id: u128, k: u64) -> int {
    ((id / 0x1_0000_0000_0000_0000_0000 + k / 0x1_0000_0000) % 0x1_0000_0000_0000)
        * 0x1_0000_0000_0000_0000_0000 + ((id / 0x1_0000_0000_0000) % 0x1_0000_0000)
        * 0x1_0000_0000_0000 + (id % 0x1_0000_0000_0000 + k % 0x1_0000_0000) % 0x1_0000_0000_0000
}

fn shifted(id: u128, k: u64) -> (r: u128)
    ensures
        r == shifted_id(id, k),
{
    let first: u128 = (id / 0x1_0000_0000_0000_0000_0000 + (k / 0x1_0000_0000) as u128)
        % 0x1_0000_0000_0000;
    let middle: u128 = (id / 0x1_0000_0000_0000) % 0x1_0000_0000;
    let last: u128 = (id % 0x1_0000_0000_0000 + (k % 0x1_0000_0000) as u128) % 0x1_0000_0000_0000;
    first * 0x1_0000_0000_0000_0000_0000 + middle * 0x1_0000_0000_0000 + last
}

/// The three parts of a number come back from it.
proof fn lemma_parts(first: int, middle: int, last: int, r: int)
    requires
        0 <= first < 0x1_0000_0000_0000,
        0 <= middle < 0x1_0000_0000,
        0 <= last < 0x1_0000_0000_0000,
        r == first * 0x1_0000_0000_0000_0000_0000 + middle * 0x1_0000_0000_0000 + last,
    ensures
        0 <= r <= u128::MAX,
        r / 0x1_0000_0000_0000_0000_0000 == first,
        (r / 0x1_0000_0000_0000) % 0x1_0000_0000 == middle,
        r % 0x1_0000_0000_0000 == last,
{
    assert(r / 0x1_0000_0000_0000 == first * 0x1_0000_0000 + middle);
}

/// Adding different small numbers to one part gives different parts.
proof fn lemma_sums_differ(part: int, m: int, n: int)
    requires
        0 <= part < 0x1_0000_0000_0000,
        0 <= m < 0x1_0000_0000,
        0 <= n < 0x1_0000_0000,
        (part + m) % 0x1_0000_0000_0000 == (part + n) % 0x1_0000_0000_0000,
    ensures
        m == n,
{
}

/// Shifting keeps the version and the variant, and different shifts differ.
proof fn lemma_shifted(id: u128, j: u64, k: u64)
    requires
        is_version_4(id),
    ensures
        0 <= shifted_id(id, k) <= u128::MAX,
        is_version_4(shifted_id(id, k) as u128),
        shifted_id(id, j) == shifted_id(id, k) ==> j == k,
{
    let first = id as int / 0x1_0000_0000_0000_0000_0000;
    let middle = (id as int / 0x1_0000_0000_0000) % 0x1_0000_0000;
    let last = id as int % 0x1_0000_0000_0000;
    let (j_high, j_low) = (j as int / 0x1_0000_0000, j as int % 0x1_0000_0000);
    let (k_high, k_low) = (k as int / 0x1_0000_0000, k as int % 0x1_0000_0000);
    lemma_parts(
        (first + k_high) % 0x1_0000_0000_0000,
        middle,
        (last + k_low) % 0x1_0000_0000_0000,
        shifted_id(id, k),
    );
    lemma_parts(
        (first + j_high) % 0x1_0000_0000_0000,
        middle,
        (last + j_low) % 0x1_0000_0000_0000,
        shifted_id(id, j),
    );
    lemma_version_lies_in_the_middle(id, shifted_id(id, k) as u128);
    if shifted_id(id, j) == shifted_id(id, k) {
        lemma_sums_differ(first, j_high, k_high);
        lemma_sums_differ(last, j_low, k_low);
    }
}

/// `token` is a session token that is not among `valid`: that of a random draw, unless that one is
/// among them.
pub open spec fn fresh_session_token(valid: Set<Seq<char>>, token: Seq<char>) -> bool {
    &&& !valid.contains(token)
    &&& is_session_token(token)
    &&& exists|id: u128|
        drawn(id) && (token == #[trigger] hyphenated_form(id) || valid.contains(
            hyphenated_form(id),
        ))
}

/// A random session token that is not among `valid`. Should the draw be taken, the identifiers
/// that follow it are tried in turn.
pub fn unused_session_token(valid: &StringHashSet) -> (token: String)
    requires
        valid@.finite(),
    ensures
        fresh_session_token(valid@, token@),
{
    let id: u128 = random_id();
    assert(drawn(id));
    let drawn_token = session_token_of(id);
    if !valid.contains(drawn_token.as_str()) {
        return drawn_token;
    }
    let n: usize = valid.len();
    let mut k: usize = 0;
    let ghost mut tried: Set<Seq<char>> = Set::empty();
    loop
        invariant
            drawn(id),
            is_version_4(id),
            valid@.finite(),
            valid@.contains(hyphenated_form(id)),
            n == valid@.len(),
            k <= n,
            tried.finite(),
            tried.len() == k,
            tried.subset_of(valid@),
            forall|s: Seq<char>| #[trigger]
                tried.contains(s) ==> exists|j: u64|
                    j < k && s == hyphenated_form(#[trigger] shifted_id(id, j) as u128),
        decreases n - k,
    {
        let next: u128 = shifted(id, k as u64);
        let token = session_token_of(next);
        proof {
            lemma_shifted(id, 0, k as u64);
        }
        if !valid.contains(token.as_str()) {
            return token;
        }
        proof {
            if tried.contains(token@) {
                let j = choose|j: u64|
                    j < k && token@ == hyphenated_form(#[trigger] shifted_id(id, j) as u128);
                lemma_shifted(id, k as u64, j);
                law_hyphenated_form_names_the_identifier(next, shifted_id(id, j) as u128);
                assert(false);
            }
            let before = tried;
            tried = tried.insert(token@);
            assert forall|s: Seq<char>| #[trigger] tried.contains(s) implies exists|j: u64|
                j < k + 1 && s == hyphenated_form(#[trigger] shifted_id(id, j) as u128) by {
                if s == token@ {
                    assert(s == hyphenated_form(shifted_id(id, k as u64) as u128));
                } else {
                    assert(before.contains(s));
                }
            }
            vstd::set_lib::lemma_len_subset(tried, valid@);
        }
        k = k + 1;
    }
}

/// `token` is a pairing token other than `taken`: that of random draws, unless that one is `taken`.
pub open spec fn fresh_pairing_token(taken: Seq<char>, token: Seq<char>) -> bool {
    &&& token != taken
    &&& is_pairing_token(token)
    &&& drawn_pairing_token(token) || drawn_pairing_token(taken)
}

/// A fresh session token is not among the valid ones, and it is the token of a random draw unless
/// that one is. A fresh pairing token is another one than before, and it is that of random draws
/// unless those made the one from before.
pub proof fn law_fresh_tokens_are_drawn(
    valid: Set<Seq<char>>,
    session: Seq<char>,
    taken: Seq<char>,
    pairing: Seq<char>,
)
    requires
        fresh_session_token(valid, session),
        fresh_pairing_token(taken, pairing),
    ensures
        !valid.contains(session),
        exists|id: u128|
            drawn(id) && (session == #[trigger] hyphenated_form(id) || valid.contains(
                hyphenated_form(id),
            )),
        pairing != taken,
        exists|a: u128, b: u128|
            drawn(a) && drawn(b) && (pairing == #[trigger] simple_form(a) + #[trigger] simple_form(b)
                || taken == simple_form(a) + simple_form(b)),
{
    if drawn_pairing_token(pairing) {
        let (a, b): (u128, u128) = choose|a: u128, b: u128|
            drawn(a) && drawn(b) && pairing == #[trigger] simple_form(a) + #[trigger] simple_form(
                b,
            );
        assert(pairing == simple_form(a) + simple_form(b));
    } else {
        let (a, b): (u128, u128) = choose|a: u128, b: u128|
            drawn(a) && drawn(b) && taken == #[trigger] simple_form(a) + #[trigger] simple_form(b);
        assert(taken == simple_form(a) + simple_form(b));
    }
}

/// The identifier that differs from `id` in its last bit alone.
fn neighbour(id: u128) -> (r: u128)
    requires
        is_version_4(id),
    ensures
        r != id,
        is_version_4(r),
{
    let r: u128 = if id % 2 == 0 {
        id + 1
    } else {
        id - 1
    };
    proof {
        assert(id / 2 == r / 2);
        assert(id / 0x1_0000_0000_0000 == (id / 2) / 0x8000_0000_0000);
        assert(r / 0x1_0000_0000_0000 == (r / 2) / 0x8000_0000_0000);
        lemma_version_lies_in_the_middle(id, r);
    }
    r
}

/// Generate an unpredictable pairing token other than `taken`.
pub fn other_token(taken: &String) -> (token: String)
    ensures
        fresh_pairing_token(taken@, token@),
{
    let a: u128 = random_id();
    let b: u128 = random_id();
    assert(drawn(a) && drawn(b));
    let token = token_of(a, b);
    if token != *taken {
        return token;
    }
    let c: u128 = neighbour(b);
    let other = token_of(a, c);
    proof {
        if other@ == taken@ {
            assert(other@.subrange(32, 64) == simple_form(c));
            assert(taken@.subrange(32, 64) == simple_form(b));
            law_simple_form_names_the_identifier(b, c);
        }
    }
    other
}

/// A pairing token has 64 characters, all of them lower-case hexadecimal digits, so it is never
/// blank.
pub proof fn lemma_pairing_token_shape(token: Seq<char>)
    requires
        is_pairing_token(token),
    ensures
        token.len() == 64,
        forall|i: int|
            0 <= i < 64 ==> ('0' <= #[trigger] token[i] <= '9' || 'a' <= token[i] <= 'f'),
        !text::blank(token),
{
    let (a, b): (u128, u128) = choose|a: u128, b: u128|
        is_version_4(a) && is_version_4(b) && token == #[trigger] simple_form(a)
            + #[trigger] simple_form(b);
    assert forall|i: int| 0 <= i < 64 implies ('0' <= #[trigger] token[i] <= '9' || 'a' <= token[i]
        <= 'f') by {
        if i < 32 {
            assert(token[i] == hex_char(nibble(a, i)));
        } else {
            assert(token[i] == hex_char(nibble(b, i - 32)));
        }
    }
    assert(!text::is_white_space(token[0]));
}

/// A session token has 36 characters, all of them lower-case hexadecimal digits or hyphens, and
/// starts and ends with a digit.
pub proof fn lemma_session_token_shape(token: Seq<char>)
    requires
        is_session_token(token),
    ensures
        token.len() == 36,
        forall|i: int|
            0 <= i < 36 ==> ('0' <= #[trigger] token[i] <= '9' || 'a' <= token[i] <= 'f' || token[i]
                == '-'),
        token[0] != '-',
        token[35] != '-',
{
    let id = choose|id: u128| is_version_4(id) && token == #[trigger] hyphenated_form(id);
    let s = simple_form(id);
    assert forall|i: int| 0 <= i < 36 implies ('0' <= #[trigger] token[i] <= '9' || 'a' <= token[i]
        <= 'f' || token[i] == '-') by {
        if i < 8 {
            assert(token[i] == s[i]);
        } else if 8 < i < 13 {
            assert(token[i] == s[i - 1]);
        } else if 13 < i < 18 {
            assert(token[i] == s[i - 2]);
        } else if 18 < i < 23 {
            assert(token[i] == s[i - 3]);
        } else if 23 < i {
            assert(token[i] == s[i - 4]);
        } else {
            assert(token[i] == '-');
        }
    }
    assert(token[0] == s[0]);
    assert(token[35] == s[31]);
}

/// Compare two byte strings in time that depends on their lengths alone, not on where they
/// differ.
pub fn constant_time_eq(a: &[u8], b: &[u8]) -> (r: bool)
    ensures
        r == (a@ == b@),
{
    if a.len() != b.len() {
        return false;
    }
    let mut diff: u8 = 0;
    for i in 0..a.len()
        invariant
            a@.len() == b@.len(),
            diff == 0 <==> (forall|j: int| 0 <= j < i ==> a@[j] == b@[j]),
    {
        let x: u8 = a[i];
        let y: u8 = b[i];
        assert((diff | (x ^ y)) == 0 <==> diff == 0 && x == y) by (bit_vector);
        diff = diff | (x ^ y);
    }
    assert(diff == 0 ==> a@ =~= b@);
    diff == 0
}

} // verus!
