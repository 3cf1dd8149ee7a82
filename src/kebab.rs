//! Rewriting of camelCase property names into kebab-case.
use vstd::prelude::*;
use crate::text::{chars_of, string_of};

verus! {

/// Whether a non-ASCII character has the Unicode `Uppercase` property, as
/// `char::is_uppercase` reports it.
pub uninterp spec fn unicode_upper(c: char) -> bool;

/// The first character of the Unicode lowercase mapping of a non-ASCII
/// character, as `char::to_lowercase` yields it.
pub uninterp spec fn unicode_lower(c: char) -> char;

/// Whether `c` is an ASCII character.
pub open spec fn is_ascii(c: char) -> bool {
    (c as u32) < 128
}

/// The lowercase letter of an ASCII capital.
pub open spec fn ascii_lower(c: char) -> char {
    ((c as u32) + 32) as char
}

/// Whether `c` is upper case: `A-Z` among ASCII characters.
pub open spec fn is_upper(c: char) -> bool {
    if is_ascii(c) { 'A' <= c && c <= 'Z' } else { unicode_upper(c) }
}

/// The single lowercase character that an upper case character becomes.
pub open spec fn to_lower(c: char) -> char {
    if is_ascii(c) { ascii_lower(c) } else { unicode_lower(c) }
}

/// Relies on `char::is_uppercase`: the Unicode `Uppercase` property, which
/// among ASCII characters holds of `A-Z` alone.
#[verifier::external_body]
fn char_is_uppercase(c: char) -> (r: bool)
    ensures
        r == is_upper(c),
        !is_ascii(c) ==> r == unicode_upper(c),
{
    c.is_uppercase()
}

/// Relies on `char::to_lowercase`, which yields one or more characters: the
/// first of them; for `A-Z` the letter 32 code points on.
#[verifier::external_body]
fn char_lowercase_first(c: char) -> (r: char)
    ensures
        'A' <= c <= 'Z' ==> r == ascii_lower(c),
        !is_ascii(c) ==> r == unicode_lower(c),
{
    c.to_lowercase().next().unwrap_or(c)
}

/// What one character of a name becomes: an upper case character turns into
/// `-` and its lowercase character, anything else stays.
pub open spec fn kebab_char(c: char) -> Seq<char> {
    if is_upper(c) {
        seq!['-', to_lower(c)]
    } else {
        seq![c]
    }
}

/// The kebab-case form of a name.
pub open spec fn kebab(s: Seq<char>) -> Seq<char>
    decreases s.len(),
{
    if s.len() == 0 {
        Seq::empty()
    } else {
        kebab(s.drop_last()) + kebab_char(s.last())
    }
}

/// Whether `s` holds no upper case character.
pub open spec fn no_upper(s: Seq<char>) -> bool {
    forall|i: int| 0 <= i < s.len() ==> !is_upper(#[trigger] s[i])
}

/// Whether lowering each upper case non-ASCII character of `s` gives a
/// character that is not upper case (the Unicode tables are named here, so
/// this is not known of them).
pub open spec fn lowers_settle(s: Seq<char>) -> bool {
    forall|i: int| 0 <= i < s.len() && !is_ascii(#[trigger] s[i]) && is_upper(s[i]) ==> !is_upper(
        to_lower(s[i]),
    )
}

/// The kebab-case form of a character sequence.
pub fn kebab_chars(s: &Vec<char>) -> (r: Vec<char>)
    ensures
        r@ == kebab(s@),
{
    let mut out: Vec<char> = Vec::new();
    let mut i: usize = 0;
    while i < s.len()
        invariant
            i <= s@.len(),
            out@ == kebab(s@.subrange(0, i as int)),
        decreases s@.len() - i,
    {
        let c = s[i];
        proof {
            let pre = s@.subrange(0, i as int + 1);
            assert(pre.drop_last() == s@.subrange(0, i as int));
            assert(pre.last() == c);
        }
        if char_is_uppercase(c) {
            out.push('-');
            let lower = char_lowercase_first(c);
            assert(lower == to_lower(c));
            out.push(lower);
        } else {
            out.push(c);
        }
        i = i + 1;
    }
    assert(s@.subrange(0, s@.len() as int) == s@);
    out
}

/// Rewrites every upper case character `X` of `s` as `-x`.
pub fn camel_to_kebab(s: &str) -> (r: String)
    ensures
        r@ == kebab(s@),
{
    let v = chars_of(s);
    let k = kebab_chars(&v);
    string_of(&k)
}

proof fn lemma_kebab_no_upper(s: Seq<char>)
    requires
        lowers_settle(s),
    ensures
        no_upper(kebab(s)),
    decreases s.len(),
{
    if s.len() > 0 {
        assert(lowers_settle(s.drop_last())) by {
            assert forall|i: int| 0 <= i < s.drop_last().len() && !is_ascii(#[trigger] s.drop_last()[i])
                && is_upper(s.drop_last()[i]) implies !is_upper(to_lower(s.drop_last()[i])) by {
                assert(s.drop_last()[i] == s[i]);
            }
        }
        lemma_kebab_no_upper(s.drop_last());
        let a = kebab(s.drop_last());
        let c = s.last();
        let b = kebab_char(c);
        if is_upper(c) && !is_ascii(c) {
            assert(s[s.len() - 1] == c);
        }
        assert forall|i: int| 0 <= i < (a + b).len() implies !is_upper(#[trigger] (a + b)[i]) by {
            if i >= a.len() {
                assert((a + b)[i] == b[i - a.len()]);
            }
        }
    }
}

proof fn lemma_kebab_identity(s: Seq<char>)
    requires
        no_upper(s),
    ensures
        kebab(s) == s,
    decreases s.len(),
{
    if s.len() > 0 {
        assert(no_upper(s.drop_last())) by {
            assert forall|i: int| 0 <= i < s.drop_last().len() implies !is_upper(
                #[trigger] s.drop_last()[i],
            ) by {
                assert(s.drop_last()[i] == s[i]);
            }
        }
        lemma_kebab_identity(s.drop_last());
        assert(!is_upper(s[s.len() - 1]));
        assert(s.drop_last() + seq![s.last()] == s);
    }
}

/// Rewriting a name into kebab-case a second time changes nothing, provided
/// the lowercase character of each upper case non-ASCII character of the name
/// is not itself upper case.
pub proof fn lemma_kebab_idempotent(s: Seq<char>)
    requires
        lowers_settle(s),
    ensures
        kebab(kebab(s)) == kebab(s),
{
    lemma_kebab_no_upper(s);
    lemma_kebab_identity(kebab(s));
}

} // verus!
