//! Escaping of text for literal use inside a pattern.

use vstd::prelude::*;
use vstd::string::*;

verus! {

/// The characters to which the pattern syntax gives a meaning of their own.
pub open spec fn is_meta(c: char) -> bool {
    c == '\\' || c == '.' || c == '+' || c == '*' || c == '?' || c == '(' || c == ')' || c == '|'
        || c == '[' || c == ']' || c == '{' || c == '}' || c == '^' || c == '$' || c == '#'
        || c == '&' || c == '-' || c == '~'
}

/// One character as it stands in escaped text: behind a backslash where it is
/// a metacharacter, alone where it is not.
pub open spec fn escaped_char(c: char) -> Seq<char> {
    if is_meta(c) {
        seq!['\\', c]
    } else {
        seq![c]
    }
}

/// `text` with each of its metacharacters behind a backslash.
pub open spec fn escaped(text: Seq<char>) -> Seq<char>
    decreases text.len(),
{
    if text.len() == 0 {
        Seq::empty()
    } else {
        escaped_char(text[0]) + escaped(text.skip(1))
    }
}

/// The text that a pattern spells where it is made of literal characters
/// alone: a backslash and a metacharacter spell that character, any other
/// character spells itself. A metacharacter that no backslash precedes, or a
/// backslash before anything else, is no literal: the pattern spells nothing.
pub open spec fn spelled(pattern: Seq<char>) -> Option<Seq<char>>
    decreases pattern.len(),
{
    if pattern.len() == 0 {
        Some(Seq::empty())
    } else if pattern[0] == '\\' {
        if pattern.len() >= 2 && is_meta(pattern[1]) {
            match spelled(pattern.skip(2)) {
                Some(rest) => Some(seq![pattern[1]] + rest),
                None => None,
            }
        } else {
            None
        }
    } else if is_meta(pattern[0]) {
        None
    } else {
        match spelled(pattern.skip(1)) {
            Some(rest) => Some(seq![pattern[0]] + rest),
            None => None,
        }
    }
}

/// Escaped text spells exactly the text that was escaped: every character of
/// it is read as a literal, none as an operator of the pattern syntax.
pub proof fn escaped_spells_its_text(text: Seq<char>)
    ensures
        spelled(escaped(text)) == Some(text),
    decreases text.len(),
{
    if text.len() > 0 {
        let c = text[0];
        let rest = text.skip(1);
        let e = escaped(text);
        escaped_spells_its_text(rest);
        if is_meta(c) {
            assert(e[0] == '\\' && e[1] == c);
            assert(e.skip(2) =~= escaped(rest));
        } else {
            assert(e[0] == c);
            assert(e.skip(1) =~= escaped(rest));
        }
        assert(seq![c] + rest =~= text);
    }
}

/// Two texts with the same escaped form are the same text.
pub proof fn escaped_is_injective(a: Seq<char>, b: Seq<char>)
    requires
        escaped(a) == escaped(b),
    ensures
        a == b,
{
    escaped_spells_its_text(a);
    escaped_spells_its_text(b);
}

/// In escaped text a backslash stands before every `*`.
pub proof fn escaped_star_follows_backslash(text: Seq<char>, i: int)
    requires
        0 <= i < escaped(text).len(),
        escaped(text)[i] == '*',
    ensures
        i > 0,
        escaped(text)[i - 1] == '\\',
    decreases text.len(),
{
    let c = text[0];
    let rest = text.skip(1);
    let e = escaped(text);
    if is_meta(c) {
        assert(e[0] == '\\' && e[1] == c);
        if i >= 2 {
            assert(e[i] == escaped(rest)[i - 2]);
            escaped_star_follows_backslash(rest, i - 2);
            assert(e[i - 1] == escaped(rest)[i - 3]);
        }
    } else {
        assert(e[0] == c);
        assert(e[i] == escaped(rest)[i - 1]);
        escaped_star_follows_backslash(rest, i - 1);
        assert(e[i - 1] == escaped(rest)[i - 2]);
    }
}

/// Calls `regex::escape`, which walks its argument character by character and
/// puts a backslash before each metacharacter of the pattern syntax, leaving
/// every other character as it is.
#[verifier::external_body]
pub(crate) fn escape(text: &str) -> (quoted: String)
    ensures
        quoted@ == escaped(text@),
{
    regex::escape(text)
}

} // verus!
