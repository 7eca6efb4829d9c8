//! Normalisation of genre tags: keep letters and digits, then lowercase.

use vstd::prelude::*;
use vstd::string::StrSliceExecFns;

verus! {

/// Whether `char::is_alphanumeric` holds of `c`.
pub uninterp spec fn alphanumeric(c: char) -> bool;

/// What `str::to_lowercase` returns for a string with these characters.
pub uninterp spec fn lowercased(s: Seq<char>) -> Seq<char>;

/// `alphanumeric` as a predicate value.
pub open spec fn keeps() -> spec_fn(char) -> bool {
    |c: char| alphanumeric(c)
}

/// The letters and digits of `s`, in order.
pub open spec fn alphanumeric_chars(s: Seq<char>) -> Seq<char> {
    s.filter(keeps())
}

/// The normal form of a genre tag: its letters and digits, lowercased.
pub open spec fn normalized(s: Seq<char>) -> Seq<char> {
    lowercased(alphanumeric_chars(s))
}

/// Whether `c` is an ASCII character.
pub open spec fn ascii(c: char) -> bool {
    c <= '\x7f'
}

/// Whether every character of `s` is ASCII.
pub open spec fn all_ascii(s: Seq<char>) -> bool {
    forall|i: int| 0 <= i < s.len() ==> ascii(#[trigger] s[i])
}

/// Whether `c` is an ASCII letter or digit.
pub open spec fn ascii_alnum(c: char) -> bool {
    ('a' <= c && c <= 'z') || ('A' <= c && c <= 'Z') || ('0' <= c && c <= '9')
}

/// `ascii_alnum` as a predicate value.
pub open spec fn keeps_ascii() -> spec_fn(char) -> bool {
    |c: char| ascii_alnum(c)
}

/// The ASCII lowercase of `c`: `A`..`Z` become `a`..`z`, all else stays.
pub open spec fn ascii_lower(c: char) -> char {
    if 'A' <= c && c <= 'Z' {
        ((c as int) + 32) as char
    } else {
        c
    }
}

/// Every character of `s` in ASCII lowercase.
pub open spec fn lower_all(s: Seq<char>) -> Seq<char> {
    s.map_values(|c: char| ascii_lower(c))
}

/// The normal form of an ASCII tag: its ASCII letters and digits, in
/// lowercase.
pub open spec fn ascii_key(s: Seq<char>) -> Seq<char> {
    lower_all(s.filter(keeps_ascii()))
}

/// Calls `char::is_alphanumeric` (letters per Unicode `Alphabetic`, digits
/// per Unicode `Numeric`). The answer is named; of an ASCII character it is
/// stated: exactly the ASCII letters and digits are alphanumeric.
#[verifier::external_body]
fn char_is_alphanumeric(c: char) -> (r: bool)
    ensures
        r == alphanumeric(c),
        ascii(c) ==> (r <==> ascii_alnum(c)),
{
    c.is_alphanumeric()
}

/// Calls `str::to_lowercase`. Its result depends on the characters alone
/// (Unicode lowercase mapping, with the final-sigma rule); it is named. Of
/// an ASCII string it is stated: each character in ASCII lowercase.
#[verifier::external_body]
fn str_to_lowercase(s: &str) -> (r: String)
    ensures
        r@ == lowercased(s@),
        all_ascii(s@) ==> r@ == lower_all(s@),
{
    s.to_lowercase()
}

/// Calls `String::push`, which appends one character.
#[verifier::external_body]
pub(crate) fn string_push(s: &mut String, c: char)
    ensures
        final(s)@ == old(s)@.push(c),
{
    s.push(c)
}

/// Normalises a genre tag so that spelling variants meet: only letters and
/// digits are kept, then the result is lowercased. For an ASCII tag that is
/// its ASCII letters and digits in lowercase.
pub fn normalize(genre: &str) -> (r: String)
    ensures
        r@ == normalized(genre@),
        all_ascii(genre@) ==> r@ == ascii_key(genre@),
{
    let n = genre.unicode_len();
    let mut kept = String::new();
    let mut i: usize = 0;
    while i < n
        invariant
            n == genre@.len(),
            i <= n,
            kept@ == alphanumeric_chars(genre@.take(i as int)),
            all_ascii(genre@) ==> kept@ == genre@.take(i as int).filter(keeps_ascii()),
            all_ascii(genre@) ==> all_ascii(kept@),
        decreases n - i,
    {
        let c = genre.get_char(i);
        if char_is_alphanumeric(c) {
            string_push(&mut kept, c);
        }
        proof {
            assert(genre@.take(i + 1) =~= genre@.take(i as int).push(c));
            genre@.take(i as int).lemma_filter_push(c, keeps());
            genre@.take(i as int).lemma_filter_push(c, keeps_ascii());
            if all_ascii(genre@) {
                assert(ascii(genre@[i as int]));
            }
        }
        i = i + 1;
    }
    assert(genre@.take(n as int) =~= genre@);
    str_to_lowercase(kept.as_str())
}

} // verus!
