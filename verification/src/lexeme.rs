//! Helpers that turn quoted source lexemes into values.

use vstd::prelude::*;
use vstd::string::StrSliceExecFns;

verus! {

/// The value of an escape character in a character literal: `\n`, `\r`, `\t`,
/// `\\`, `\'` and `\0` have their usual meaning; anything else falls back to
/// the backslash itself.
pub open spec fn spec_unescape(c: char) -> char {
    if c == 'n' {
        '\n'
    } else if c == 'r' {
        '\r'
    } else if c == 't' {
        '\t'
    } else if c == '\\' {
        '\\'
    } else if c == '\'' {
        '\''
    } else if c == '0' {
        '\0'
    } else {
        '\\'
    }
}

/// The character a quoted character lexeme denotes: the text between the
/// quotes, with a two-character backslash escape mapped through
/// `spec_unescape`, and otherwise its first character.
pub open spec fn spec_extract_chr(s: Seq<char>) -> char {
    let inner = s.subrange(1, s.len() - 1);
    if inner.len() == 2 && inner[0] == '\\' {
        spec_unescape(inner[1])
    } else {
        inner[0]
    }
}

/// Strips the delimiting quotes off a string lexeme.
pub fn extract_str<'a>(s: &'a str) -> (r: &'a str)
    requires
        2 <= s@.len(),
    ensures
        r@ == s@.subrange(1, s@.len() - 1),
{
    let n = s.unicode_len();
    s.substring_char(1, n - 1)
}

/// Reads the character a quoted character lexeme denotes, decoding the
/// backslash escapes.
pub fn extract_chr(s: &str) -> (r: char)
    requires
        3 <= s@.len(),
    ensures
        r == spec_extract_chr(s@),
{
    let n = s.unicode_len();
    let ghost inner = s@.subrange(1, s@.len() - 1);
    if n == 4 && s.get_char(1) == '\\' {
        proof {
            assert(inner[0] == s@[1]);
            assert(inner[1] == s@[2]);
        }
        let c = s.get_char(2);
        if c == 'n' {
            '\n'
        } else if c == 'r' {
            '\r'
        } else if c == 't' {
            '\t'
        } else if c == '\\' {
            '\\'
        } else if c == '\'' {
            '\''
        } else if c == '0' {
            '\0'
        } else {
            '\\'
        }
    } else {
        proof {
            assert(inner[0] == s@[1]);
        }
        s.get_char(1)
    }
}

} // verus!
