//! A small script language for pages: its syntax tree, the values it
//! computes, and the runtime that evaluates it.

use vstd::prelude::*;
use crate::text::{chars_of, string_of};


pub mod lang;
pub mod runtime;

verus! {

/// Whether every backslash of a text begins one of the escapes `\\`,
/// `\"`, `\n`, `\r` and `\t`.
pub open spec fn escapes_ok(content: Seq<char>) -> bool
    decreases content.len(),
{
    if content.len() == 0 {
        true
    } else if content[0] != '\\' {
        escapes_ok(content.skip(1))
    } else {
        content.len() >= 2 && is_escape(content[1]) && escapes_ok(content.skip(2))
    }
}

/// Whether a character may follow a backslash.
pub open spec fn is_escape(c: char) -> bool {
    c == '\\' || c == '"' || c == 'n' || c == 'r' || c == 't'
}

/// The character that an escape stands for.
pub open spec fn escaped(c: char) -> char {
    if c == 'n' {
        '\n'
    } else if c == 'r' {
        '\r'
    } else if c == 't' {
        '\t'
    } else {
        c
    }
}

/// A text with its escapes replaced by the characters they stand for.
pub open spec fn unescaped(content: Seq<char>) -> Seq<char>
    decreases content.len(),
{
    if content.len() == 0 {
        Seq::empty()
    } else if content[0] != '\\' {
        seq![content[0]] + unescaped(content.skip(1))
    } else if content.len() >= 2 {
        seq![escaped(content[1])] + unescaped(content.skip(2))
    } else {
        Seq::empty()
    }
}

/// Replaces the escapes of a string literal by the characters they stand
/// for.
pub fn apply_string_escapes(content: &str) -> (out: String)
    requires
        escapes_ok(content@),
    ensures
        out@ == unescaped(content@),
{
    let chars = chars_of(content);
    let mut text: Vec<char> = Vec::new();
    let mut i: usize = 0;
    assert(chars@.skip(0) == chars@);
    while i < chars.len()
        invariant
            i <= chars.len(),
            escapes_ok(chars@.skip(i as int)),
            unescaped(chars@) == text@ + unescaped(chars@.skip(i as int)),
        decreases chars.len() - i,
    {
        let ghost rest = chars@.skip(i as int);
        let c = chars[i];
        assert(rest[0] == c);
        if c != '\\' {
            assert(rest.skip(1) == chars@.skip(i + 1));
            text.push(c);
            assert(text@ + unescaped(chars@.skip(i + 1)) =~= text@.drop_last() + (seq![c]
                + unescaped(rest.skip(1))));
            i += 1;
        } else {
            assert(rest.len() >= 2);
            let next = chars[i + 1];
            assert(rest[1] == next);
            assert(rest.skip(2) == chars@.skip(i + 2));
            let the_char = if next == 'n' {
                '\n'
            } else if next == 'r' {
                '\r'
            } else if next == 't' {
                '\t'
            } else {
                next
            };
            text.push(the_char);
            assert(text@ + unescaped(chars@.skip(i + 2)) =~= text@.drop_last() + (seq![
                escaped(next),
            ] + unescaped(rest.skip(2))));
            i += 2;
        }
    }
    assert(chars@.skip(chars.len() as int) =~= Seq::<char>::empty());
    assert(text@ + Seq::<char>::empty() =~= text@);
    string_of(&text)
}

} // verus!
