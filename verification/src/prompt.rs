//! Reading the user's answer when asked where an unknown genre belongs.

use vstd::prelude::*;

verus! {

/// Whether `c` has the Unicode property `White_Space`.
pub open spec fn white_space(c: char) -> bool {
    ||| '\u{9}' <= c && c <= '\u{d}'
    ||| c == ' '
    ||| c == '\u{85}'
    ||| c == '\u{a0}'
    ||| c == '\u{1680}'
    ||| '\u{2000}' <= c && c <= '\u{200a}'
    ||| c == '\u{2028}'
    ||| c == '\u{2029}'
    ||| c == '\u{202f}'
    ||| c == '\u{205f}'
    ||| c == '\u{3000}'
}

/// `s` without its leading white space.
pub open spec fn trim_start(s: Seq<char>) -> Seq<char>
    decreases s.len(),
{
    if s.len() > 0 && white_space(s[0]) {
        trim_start(s.drop_first())
    } else {
        s
    }
}

/// `s` without its trailing white space.
pub open spec fn trim_end(s: Seq<char>) -> Seq<char>
    decreases s.len(),
{
    if s.len() > 0 && white_space(s.last()) {
        trim_end(s.drop_last())
    } else {
        s
    }
}

/// What `str::trim` returns: the string without leading and trailing
/// white space.
pub open spec fn trimmed(s: Seq<char>) -> Seq<char> {
    trim_end(trim_start(s))
}

/// Calls `str::trim`, which removes leading and trailing characters with
/// the Unicode property `White_Space`.
#[verifier::external_body]
fn trim_str(s: &str) -> (r: &str)
    ensures
        r@ == trimmed(s@),
{
    s.trim()
}

/// Whether `c` is an ASCII decimal digit.
pub open spec fn is_digit(c: char) -> bool {
    '0' <= c && c <= '9'
}

/// The value of a string of decimal digits.
pub open spec fn decimal_value(digits: Seq<char>) -> int
    decreases digits.len(),
{
    if digits.len() == 0 {
        0
    } else {
        decimal_value(digits.drop_last()) * 10 + (digits.last() as int - '0' as int)
    }
}

/// What `s.parse::<usize>()` gives: an optional `+` followed by at least one
/// decimal digit, whose value fits in `usize`; anything else is refused.
pub open spec fn parsed_usize(s: Seq<char>) -> Option<usize> {
    let digits = if s.len() > 0 && s[0] == '+' {
        s.drop_first()
    } else {
        s
    };
    if digits.len() > 0 && (forall|i: int| 0 <= i < digits.len() ==> is_digit(#[trigger] digits[i]))
        && decimal_value(digits) <= usize::MAX {
        Some(decimal_value(digits) as usize)
    } else {
        None
    }
}

/// Calls `str::parse::<usize>`, which accepts an optional `+` and decimal
/// digits and refuses a value that does not fit.
#[verifier::external_body]
fn parse_usize(s: &str) -> (r: Option<usize>)
    ensures
        r == parsed_usize(s@),
{
    s.parse::<usize>().ok()
}

/// The user's answer to "map this unknown genre to what?".
#[derive(Debug, PartialEq)]
pub enum Choice {
    /// An empty answer: leave the genre alone.
    Skip,
    /// A number that names no suggestion.
    Invalid,
    /// A canonical genre, picked by number or typed by name.
    MapTo { canonical: String },
}

/// The mathematical value of a [`Choice`].
pub enum ChoiceView {
    Skip,
    Invalid,
    MapTo(Seq<char>),
}

impl View for Choice {
    type V = ChoiceView;

    open spec fn view(&self) -> ChoiceView {
        match self {
            Choice::Skip => ChoiceView::Skip,
            Choice::Invalid => ChoiceView::Invalid,
            Choice::MapTo { canonical } => ChoiceView::MapTo(canonical@),
        }
    }
}

/// What an answer means: after trimming, an empty answer skips; a number
/// from 1 to the number of suggestions picks that suggestion; another number
/// is invalid; anything else is taken as a genre name.
pub open spec fn choice_of(input: Seq<char>, suggestions: Seq<(Seq<char>, usize)>) -> ChoiceView {
    let answer = trimmed(input);
    if answer.len() == 0 {
        ChoiceView::Skip
    } else {
        match parsed_usize(answer) {
            Some(n) => if 1 <= n && n <= suggestions.len() {
                ChoiceView::MapTo(suggestions[n - 1].0)
            } else {
                ChoiceView::Invalid
            },
            None => ChoiceView::MapTo(answer),
        }
    }
}

/// Interprets the user's answer against the suggestions that were shown.
pub fn interpret_choice(input: &str, suggestions: &[(String, usize)]) -> (r: Choice)
    ensures
        r@ == choice_of(input@, suggestions.deep_view()),
{
    let answer = trim_str(input);
    if answer.is_empty() {
        return Choice::Skip;
    }
    match parse_usize(answer) {
        Some(n) => {
            if 1 <= n && n <= suggestions.len() {
                Choice::MapTo { canonical: suggestions[n - 1].0.clone() }
            } else {
                Choice::Invalid
            }
        },
        None => Choice::MapTo { canonical: answer.to_owned() },
    }
}

} // verus!
