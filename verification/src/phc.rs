//! The form of the Argon2id PHC strings that hashing makes.

use vstd::prelude::*;

verus! {

/// The Base64 character of `n`, for `n` from 0 to 63.
pub open spec fn b64_char(n: int) -> char {
    if n < 26 {
        (0x41 + n) as char
    } else if n < 52 {
        (0x47 + n) as char
    } else if n < 62 {
        (n - 4) as char
    } else if n == 62 {
        '+'
    } else {
        '/'
    }
}

/// The byte at `k`, 0 past the end.
pub open spec fn byte_or_zero(bytes: Seq<u8>, k: int) -> int {
    if k < bytes.len() {
        bytes[k] as int
    } else {
        0
    }
}

/// The `i`-th group of six bits, with zero bits past the end.
pub open spec fn sextet(bytes: Seq<u8>, i: int) -> int {
    let k = 3 * (i / 4);
    let a = byte_or_zero(bytes, k);
    let b = byte_or_zero(bytes, k + 1);
    let c = byte_or_zero(bytes, k + 2);
    if i % 4 == 0 {
        a / 4
    } else if i % 4 == 1 {
        (a % 4) * 16 + b / 16
    } else if i % 4 == 2 {
        (b % 16) * 4 + c / 64
    } else {
        c % 64
    }
}

/// Bytes in standard Base64 without padding.
pub open spec fn b64(bytes: Seq<u8>) -> Seq<char> {
    Seq::new(((8 * bytes.len() + 5) / 6) as nat, |i: int| b64_char(sextet(bytes, i)))
}

/// What the string says before the salt: the algorithm, its version, and the default costs.
pub open spec fn phc_head() -> Seq<char> {
    "$argon2id$v=19$m=19456,t=2,p=1$"@
}

/// The PHC string of a salt and a hash.
pub open spec fn phc_form(salt: Seq<u8>, hash: Seq<u8>) -> Seq<char> {
    phc_head() + b64(salt) + seq!['$'] + b64(hash)
}

/// `phc` is the PHC string of this salt and of some hash of 32 bytes.
pub open spec fn carries_salt(phc: Seq<char>, salt: Seq<u8>) -> bool {
    exists|hash: Seq<u8>| hash.len() == 32 && phc == #[trigger] phc_form(salt, hash)
}

/// A group of six bits is a number from 0 to 63.
pub proof fn lemma_sextet_range(bytes: Seq<u8>, i: int)
    ensures
        0 <= sextet(bytes, i) < 64,
{
}

/// Different numbers have different Base64 characters, which are letters, digits, `+` or `/`.
pub proof fn lemma_b64_char(m: int, n: int)
    requires
        0 <= m < 64,
        0 <= n < 64,
    ensures
        b64_char(m) == b64_char(n) ==> m == n,
        ('A' <= b64_char(n) <= 'Z' || 'a' <= b64_char(n) <= 'z' || '0' <= b64_char(n) <= '9'
            || b64_char(n) == '+' || b64_char(n) == '/'),
{
}

/// Different salts of 16 bytes have different Base64 texts.
pub proof fn lemma_b64_of_salt_is_injective(s: Seq<u8>, t: Seq<u8>)
    requires
        s.len() == 16,
        t.len() == 16,
        b64(s) == b64(t),
    ensures
        s == t,
{
    assert forall|i: int| 0 <= i < 22 implies #[trigger] sextet(s, i) == sextet(t, i) by {
        assert(b64(s)[i] == b64_char(sextet(s, i)));
        assert(b64(t)[i] == b64_char(sextet(t, i)));
        lemma_sextet_range(s, i);
        lemma_sextet_range(t, i);
        lemma_b64_char(sextet(s, i), sextet(t, i));
    }
    assert forall|k: int| 0 <= k < 16 implies s[k] == t[k] by {
        let i = 4 * (k / 3) + k % 3;
        assert(0 <= i && i + 1 < 22);
        assert(sextet(s, i) == sextet(t, i));
        assert(sextet(s, i + 1) == sextet(t, i + 1));
        assert(i / 4 == k / 3 && i % 4 == k % 3 && (i + 1) / 4 == k / 3 && (i + 1) % 4 == k % 3 + 1);
        assert(byte_or_zero(s, k) == byte_or_zero(t, k));
    }
    assert(s =~= t);
}

/// A PHC string carries its salt: strings with different salts are different.
pub proof fn law_different_salts_give_different_strings(
    p: Seq<char>,
    q: Seq<char>,
    salt: Seq<u8>,
    other: Seq<u8>,
)
    requires
        salt.len() == 16,
        other.len() == 16,
        carries_salt(p, salt),
        carries_salt(q, other),
    ensures
        p == q ==> salt == other,
        salt != other ==> p != q,
{
    if p == q {
        let n = phc_head().len() as int;
        assert(p.subrange(n, n + 22) == b64(salt));
        assert(q.subrange(n, n + 22) == b64(other));
        lemma_b64_of_salt_is_injective(salt, other);
    }
}

} // verus!
