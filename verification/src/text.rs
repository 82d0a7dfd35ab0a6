//! Whitespace handling for the text that clients report.

use vstd::prelude::*;

verus! {

/// The Unicode `White_Space` property.
pub open spec fn is_white_space(c: char) -> bool {
    let n = c as u32;
    ||| 0x0009 <= n <= 0x000d
    ||| n == 0x0020
    ||| n == 0x0085
    ||| n == 0x00a0
    ||| n == 0x1680
    ||| 0x2000 <= n <= 0x200a
    ||| n == 0x2028
    ||| n == 0x2029
    ||| n == 0x202f
    ||| n == 0x205f
    ||| n == 0x3000
}

/// Every character of `s` is white space; the empty text is blank.
pub open spec fn blank(s: Seq<char>) -> bool {
    forall|i: int| 0 <= i < s.len() ==> is_white_space(#[trigger] s[i])
}

/// `s` without its leading white space.
pub open spec fn trim_start(s: Seq<char>) -> Seq<char>
    decreases s.len(),
{
    if s.len() > 0 && is_white_space(s.first()) {
        trim_start(s.drop_first())
    } else {
        s
    }
}

/// `s` without its trailing white space.
pub open spec fn trim_end(s: Seq<char>) -> Seq<char>
    decreases s.len(),
{
    if s.len() > 0 && is_white_space(s.last()) {
        trim_end(s.drop_last())
    } else {
        s
    }
}

/// `s` without its leading and trailing white space.
pub open spec fn trimmed(s: Seq<char>) -> Seq<char> {
    trim_end(trim_start(s))
}

/// Trusted: `str::trim` removes leading and trailing characters that have the Unicode
/// `White_Space` property, and nothing else.
pub assume_specification[ str::trim ](s: &str) -> (r: &str)
    ensures
        r@ == trimmed(s@),
;

proof fn lemma_trim_start_empty(s: Seq<char>)
    ensures
        trim_start(s).len() == 0 <==> blank(s),
        trim_start(s).len() > 0 ==> !is_white_space(trim_start(s).first()),
    decreases s.len(),
{
    if s.len() > 0 && is_white_space(s.first()) {
        let rest = s.drop_first();
        lemma_trim_start_empty(rest);
        if blank(rest) {
            assert forall|i: int| 0 <= i < s.len() implies is_white_space(#[trigger] s[i]) by {
                if i > 0 {
                    assert(s[i] == rest[i - 1]);
                }
            }
        }
        if blank(s) {
            assert forall|i: int| 0 <= i < rest.len() implies is_white_space(
                #[trigger] rest[i],
            ) by {
                assert(rest[i] == s[i + 1]);
            }
        }
    }
}

proof fn lemma_trim_end_keeps_first(s: Seq<char>)
    requires
        s.len() > 0,
        !is_white_space(s.first()),
    ensures
        trim_end(s).len() > 0,
        trim_end(s).first() == s.first(),
        !is_white_space(trim_end(s).last()),
    decreases s.len(),
{
    if is_white_space(s.last()) {
        assert(s.len() > 1);
        assert(s.drop_last().first() == s.first());
        lemma_trim_end_keeps_first(s.drop_last());
    }
}

/// Trimming leaves nothing exactly when the text is blank, and trimming a second time changes
/// nothing.
pub proof fn lemma_trimmed(s: Seq<char>)
    ensures
        trimmed(s).len() == 0 <==> blank(s),
        trimmed(trimmed(s)) == trimmed(s),
{
    lemma_trim_start_empty(s);
    if trim_start(s).len() > 0 {
        lemma_trim_end_keeps_first(trim_start(s));
    }
}

proof fn lemma_trim_start_is_a_suffix(s: Seq<char>) -> (i: int)
    ensures
        0 <= i <= s.len(),
        trim_start(s) == s.subrange(i, s.len() as int),
        blank(s.subrange(0, i)),
        i < s.len() ==> !is_white_space(s[i]),
    decreases s.len(),
{
    if s.len() > 0 && is_white_space(s.first()) {
        let rest = s.drop_first();
        let i = lemma_trim_start_is_a_suffix(rest);
        assert(rest.subrange(i, rest.len() as int) == s.subrange(i + 1, s.len() as int));
        assert forall|k: int| 0 <= k < i + 1 implies is_white_space(
            #[trigger] s.subrange(0, i + 1)[k],
        ) by {
            if k > 0 {
                assert(rest.subrange(0, i)[k - 1] == s[k]);
            }
        }
        i + 1
    } else {
        assert(s.subrange(0, s.len() as int) == s);
        0
    }
}

proof fn lemma_trim_end_is_a_prefix(s: Seq<char>) -> (j: int)
    ensures
        0 <= j <= s.len(),
        trim_end(s) == s.subrange(0, j),
        blank(s.subrange(j, s.len() as int)),
        0 < j ==> !is_white_space(s[j - 1]),
    decreases s.len(),
{
    if s.len() > 0 && is_white_space(s.last()) {
        let rest = s.drop_last();
        let j = lemma_trim_end_is_a_prefix(rest);
        assert(rest.subrange(0, j) == s.subrange(0, j));
        assert forall|k: int| 0 <= k < s.len() - j implies is_white_space(
            #[trigger] s.subrange(j, s.len() as int)[k],
        ) by {
            if j + k < s.len() - 1 {
                assert(rest.subrange(j, rest.len() as int)[k] == s[j + k]);
            }
        }
        j
    } else {
        assert(s.subrange(0, s.len() as int) == s);
        s.len() as int
    }
}

/// Around the part of `s` from `i` to `j` there is white space alone, and that part neither starts
/// nor ends with white space.
pub open spec fn is_core(s: Seq<char>, i: int, j: int) -> bool {
    &&& 0 <= i <= j <= s.len()
    &&& forall|k: int| 0 <= k < i || j <= k < s.len() ==> is_white_space(#[trigger] s[k])
    &&& i < j ==> !is_white_space(s[i]) && !is_white_space(s[j - 1])
}

/// Trimming takes white space off both ends and nothing else: what is left is a part of the text
/// that has white space alone around it and none at its ends, and there is no other such part.
pub proof fn law_trimming_takes_white_space_off_the_ends(s: Seq<char>, i: int, j: int)
    ensures
        exists|m: int, n: int| #[trigger] is_core(s, m, n) && trimmed(s) == s.subrange(m, n),
        is_core(s, i, j) ==> trimmed(s) == s.subrange(i, j),
{
    let m = lemma_trim_start_is_a_suffix(s);
    let rest = s.subrange(m, s.len() as int);
    let n = lemma_trim_end_is_a_prefix(rest);
    assert(rest.subrange(0, n) == s.subrange(m, m + n));
    assert forall|k: int| 0 <= k < m || m + n <= k < s.len() implies is_white_space(
        #[trigger] s[k],
    ) by {
        if k < m {
            assert(s.subrange(0, m)[k] == s[k]);
        } else {
            assert(rest.subrange(n, rest.len() as int)[k - m - n] == s[k]);
        }
    }
    if 0 < n {
        assert(rest[n - 1] == s[m + n - 1]);
    } else if m < s.len() {
        assert(rest.subrange(0, rest.len() as int)[0] == s[m]);
    }
    assert(is_core(s, m, m + n));
    if is_core(s, i, j) {
        if i < j {
            assert(m <= i && j <= m + n);
            assert(i <= m && m + n <= j);
        } else if 0 < n {
            assert(is_white_space(s[m]));
        }
        assert(s.subrange(i, j) =~= s.subrange(m, m + n));
    }
}

/// Trusted: `str::strip_prefix` with a string pattern gives the text behind the prefix when the
/// text starts with it, and nothing otherwise.
#[verifier::external_body]
pub(crate) fn strip_prefix<'a>(s: &'a str, prefix: &str) -> (r: Option<&'a str>)
    ensures
        r is Some <==> prefix@.is_prefix_of(s@),
        r matches Some(rest) ==> s@ == prefix@ + rest@,
{
    s.strip_prefix(prefix)
}

/// The trimmed text, or `fallback` when there is no text or it is blank.
pub fn trimmed_or(text: Option<&str>, fallback: &str) -> (r: String)
    ensures
        r@ == trimmed_or_spec(text_view(text), fallback@),
        r@ == match text {
            Some(t) if !blank(t@) => trimmed(t@),
            _ => fallback@,
        },
{
    match text {
        Some(t) => {
            proof {
                lemma_trimmed(t@);
            }
            let t = t.trim();
            if t.is_empty() {
                fallback.to_owned()
            } else {
                t.to_owned()
            }
        },
        None => fallback.to_owned(),
    }
}

/// The characters of an optional text.
pub open spec fn text_view(text: Option<&str>) -> Option<Seq<char>> {
    match text {
        Some(t) => Some(t@),
        None => None,
    }
}

/// What a self-reported field stands for: its trimmed text, or `fallback` when that is missing
/// or empty.
pub open spec fn trimmed_or_spec(text: Option<Seq<char>>, fallback: Seq<char>) -> Seq<char> {
    match text {
        Some(t) => if trimmed(t).len() == 0 {
            fallback
        } else {
            trimmed(t)
        },
        None => fallback,
    }
}

} // verus!
