//! Small operations on text that the binding needs.

use vstd::prelude::*;
use vstd::string::*;
use vstd::utf8::*;

verus! {

/// Whether two strings hold the same text.
pub fn same_text(a: &str, b: &str) -> (r: bool)
    ensures
        r == (a@ == b@),
{
    let x = a.as_bytes();
    let y = b.as_bytes();
    proof {
        encode_utf8_decode_utf8(a@);
        encode_utf8_decode_utf8(b@);
    }
    if x.len() != y.len() {
        return false;
    }
    let mut i: usize = 0;
    while i < x.len()
        invariant
            i <= x@.len(),
            x@.len() == y@.len(),
            x@ == encode_utf8(a@),
            y@ == encode_utf8(b@),
            forall|j: int| 0 <= j < i ==> x@[j] == y@[j],
        decreases x@.len() - i,
    {
        if x[i] != y[i] {
            return false;
        }
        i = i + 1;
    }
    assert(x@ =~= y@);
    true
}

/// Whether a character may stand in a header name: a letter, a digit or one
/// of a few marks, all of them ASCII.
pub open spec fn is_token_char(c: char) -> bool {
    ||| 'a' <= c <= 'z'
    ||| 'A' <= c <= 'Z'
    ||| '0' <= c <= '9'
    ||| c == '!' || c == '#' || c == '$' || c == '%' || c == '&' || c == '\''
    ||| c == '*' || c == '+' || c == '-' || c == '.' || c == '^' || c == '_'
    ||| c == '`' || c == '|' || c == '~'
}

/// A token character that is no capital letter.
pub open spec fn is_lower_token_char(c: char) -> bool {
    is_token_char(c) && !('A' <= c <= 'Z')
}

/// The small letter for a capital one, any other character unchanged.
pub open spec fn lower_char(c: char) -> char {
    if 'A' <= c <= 'Z' {
        ((c as u32) + 32) as char
    } else {
        c
    }
}

/// A text with each capital letter replaced by its small one.
pub open spec fn lower_text(s: Seq<char>) -> Seq<char> {
    Seq::new(s.len(), |i: int| lower_char(s[i]))
}

/// Turning a text to small letters twice is turning it once.
pub proof fn lemma_lower_text_twice(s: Seq<char>)
    ensures
        lower_text(lower_text(s)) == lower_text(s),
{
    assert forall|i: int| 0 <= i < s.len() implies lower_char(lower_char(s[i])) == lower_char(
        s[i],
    ) by {
        let c = s[i];
        if 'A' <= c <= 'Z' {
            assert('a' <= lower_char(c) <= 'z');
        }
    }
    assert(lower_text(lower_text(s)) =~= lower_text(s));
}

/// A non-empty text of token characters without capital letters.
pub open spec fn is_lower_token(s: Seq<char>) -> bool {
    s.len() > 0 && forall|i: int| 0 <= i < s.len() ==> is_lower_token_char(#[trigger] s[i])
}

/// A lower-case token is left as it is by `lower_text`.
pub proof fn lemma_lower_token_fixed(s: Seq<char>)
    requires
        is_lower_token(s),
    ensures
        lower_text(s) == s,
{
    assert forall|i: int| 0 <= i < s.len() implies lower_text(s)[i] == s[i] by {
        assert(is_lower_token_char(s[i]));
    }
    assert(lower_text(s) =~= s);
}

fn is_lower_token_byte(b: u8) -> (r: bool)
    ensures
        r == is_lower_token_char(b as char),
{
    (97 <= b && b <= 122) || (48 <= b && b <= 57) || b == 33 || b == 35 || b == 36 || b == 37
        || b == 38 || b == 39 || b == 42 || b == 43 || b == 45 || b == 46 || b == 94 || b == 95
        || b == 96 || b == 124 || b == 126
}

/// Whether a string is a non-empty text of token characters without capital
/// letters.
pub fn check_lower_token(name: &str) -> (r: bool)
    ensures
        r == is_lower_token(name@),
{
    if !name.is_ascii() {
        assert(!is_lower_token(name@)) by {
            if is_lower_token(name@) {
                assert forall|i: int| 0 <= i < name@.len() implies '\0' <= #[trigger] name@[i]
                    <= '\u{7f}' by {
                    assert(is_lower_token_char(name@[i]));
                }
            }
        }
        return false;
    }
    let bytes = name.as_bytes();
    proof {
        is_ascii_chars_encode_utf8(name@);
    }
    if bytes.len() == 0 {
        return false;
    }
    let mut i: usize = 0;
    while i < bytes.len()
        invariant
            i <= bytes@.len(),
            bytes@.len() == name@.len(),
            is_ascii_chars(name@),
            forall|j: int| 0 <= j < name@.len() ==> #[trigger] name@[j] as u8 == bytes@[j],
            forall|j: int| 0 <= j < i ==> is_lower_token_char(#[trigger] name@[j]),
        decreases bytes@.len() - i,
    {
        let b = bytes[i];
        assert(name@[i as int] as u8 == b);
        assert('\0' <= name@[i as int] <= '\u{7f}');
        assert((b as char) == name@[i as int]);
        if !is_lower_token_byte(b) {
            return false;
        }
        i = i + 1;
    }
    true
}

/// Whether `text` starts with `prefix`.
pub open spec fn starts_with(text: Seq<char>, prefix: Seq<char>) -> bool {
    prefix.len() <= text.len() && text.subrange(0, prefix.len() as int) == prefix
}

} // verus!
