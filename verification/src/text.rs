//! Character-level helpers shared by the rest of the crate.
//!
//! Strings are compared, searched and cut as sequences of characters: the
//! view of a `String` is a `Seq<char>`, and every function here states its
//! result over that view.

use vstd::prelude::*;

verus! {

/// `String::push` appends one character.
pub assume_specification[ std::string::String::push ](s: &mut std::string::String, c: char)
    ensures
        final(s)@ == old(s)@.push(c),
;

/// The characters of `s`, in order.
pub fn chars_of(s: &str) -> (out: Vec<char>)
    ensures
        out@ == s@,
{
    let mut out: Vec<char> = Vec::new();
    for c in it: s.chars()
        invariant
            out@ == it.seq().take(it.index() as int),
            it.seq() == s@,
    {
        out.push(c);
    }
    out
}

/// The string spelled by `chars`.
pub fn string_of(chars: &Vec<char>) -> (out: String)
    ensures
        out@ == chars@,
{
    let mut out = String::new();
    let mut i: usize = 0;
    while i < chars.len()
        invariant
            i <= chars.len(),
            out@ == chars@.take(i as int),
        decreases chars.len() - i,
    {
        out.push(chars[i]);
        i += 1;
    }
    out
}

/// Whether `hay` holds `needle` at position `at`.
pub open spec fn occurs_at(hay: Seq<char>, needle: Seq<char>, at: int) -> bool {
    &&& 0 <= at
    &&& at + needle.len() <= hay.len()
    &&& hay.subrange(at, at + needle.len()) == needle
}

/// Whether `hay` begins with `prefix`.
pub open spec fn has_prefix(hay: Seq<char>, prefix: Seq<char>) -> bool {
    occurs_at(hay, prefix, 0)
}

/// Whether `needle` occurs somewhere in `hay`.
pub open spec fn has_infix(hay: Seq<char>, needle: Seq<char>) -> bool {
    exists|at: int| occurs_at(hay, needle, at)
}

/// Compares two character vectors.
pub fn same(a: &Vec<char>, b: &Vec<char>) -> (out: bool)
    ensures
        out == (a@ == b@),
{
    if a.len() != b.len() {
        return false;
    }
    let mut i: usize = 0;
    while i < a.len()
        invariant
            i <= a.len(),
            a.len() == b.len(),
            a@.take(i as int) == b@.take(i as int),
        decreases a.len() - i,
    {
        if a[i] != b[i] {
            return false;
        }
        assert(a@.take(i + 1) == a@.take(i as int).push(a@[i as int]));
        assert(b@.take(i + 1) == b@.take(i as int).push(b@[i as int]));
        i += 1;
    }
    assert(a@.take(a.len() as int) == a@);
    assert(b@.take(b.len() as int) == b@);
    true
}

/// Compares two strings by their characters.
pub fn same_text(a: &str, b: &str) -> (out: bool)
    ensures
        out == (a@ == b@),
{
    let left = chars_of(a);
    let right = chars_of(b);
    same(&left, &right)
}

/// Tests for `needle` at position `at` of `hay`.
pub fn matches_at(hay: &Vec<char>, needle: &Vec<char>, at: usize) -> (out: bool)
    ensures
        out == occurs_at(hay@, needle@, at as int),
{
    if at > hay.len() || needle.len() > hay.len() - at {
        return false;
    }
    let mut i: usize = 0;
    while i < needle.len()
        invariant
            i <= needle.len(),
            at + needle.len() <= hay.len(),
            hay@.subrange(at as int, at + i) == needle@.take(i as int),
        decreases needle.len() - i,
    {
        if hay[at + i] != needle[i] {
            assert(hay@.subrange(at as int, at + needle.len())[i as int] == hay@[at + i]);
            return false;
        }
        assert(hay@.subrange(at as int, at + i + 1) == hay@.subrange(at as int, at + i).push(
            hay@[at + i],
        ));
        assert(needle@.take(i + 1) == needle@.take(i as int).push(needle@[i as int]));
        i += 1;
    }
    assert(needle@.take(needle.len() as int) == needle@);
    true
}

/// Tests whether `hay` begins with `prefix`.
pub fn starts_with(hay: &Vec<char>, prefix: &Vec<char>) -> (out: bool)
    ensures
        out == has_prefix(hay@, prefix@),
{
    matches_at(hay, prefix, 0)
}

/// The first position at which `needle` occurs in `hay`.
pub fn find(hay: &Vec<char>, needle: &Vec<char>) -> (out: Option<usize>)
    ensures
        match out {
            Some(at) => occurs_at(hay@, needle@, at as int) && forall|j: int|
                0 <= j < at ==> !occurs_at(hay@, needle@, j),
            None => !has_infix(hay@, needle@),
        },
{
    let mut at: usize = 0;
    while at <= hay.len()
        invariant
            at <= hay.len() + 1,
            forall|j: int| 0 <= j < at ==> !occurs_at(hay@, needle@, j),
        decreases hay.len() + 1 - at,
    {
        if matches_at(hay, needle, at) {
            return Some(at);
        }
        if at == hay.len() {
            return None;
        }
        at += 1;
    }
    None
}

/// Tests whether `needle` occurs in `hay`.
pub fn contains(hay: &Vec<char>, needle: &Vec<char>) -> (out: bool)
    ensures
        out == has_infix(hay@, needle@),
{
    find(hay, needle).is_some()
}

/// The part of `chars` from `from` up to, not including, `to`.
pub fn cut(chars: &Vec<char>, from: usize, to: usize) -> (out: Vec<char>)
    requires
        from <= to <= chars.len(),
    ensures
        out@ == chars@.subrange(from as int, to as int),
{
    let mut out: Vec<char> = Vec::new();
    let mut i: usize = from;
    while i < to
        invariant
            from <= i <= to <= chars.len(),
            out@ == chars@.subrange(from as int, i as int),
        decreases to - i,
    {
        out.push(chars[i]);
        assert(chars@.subrange(from as int, i + 1) == chars@.subrange(from as int, i as int).push(
            chars@[i as int],
        ));
        i += 1;
    }
    out
}

/// Appends the characters of `tail` to `head`.
pub fn extend(head: &mut Vec<char>, tail: &Vec<char>)
    ensures
        final(head)@ == old(head)@ + tail@,
{
    let mut i: usize = 0;
    while i < tail.len()
        invariant
            i <= tail.len(),
            head@ == old(head)@ + tail@.take(i as int),
        decreases tail.len() - i,
    {
        head.push(tail[i]);
        assert(tail@.take(i + 1) == tail@.take(i as int).push(tail@[i as int]));
        i += 1;
    }
    assert(tail@.take(tail.len() as int) == tail@);
}

/// The position of the last `mark` in `chars`.
pub open spec fn last_index_of(chars: Seq<char>, mark: char) -> Option<int>
    decreases chars.len(),
{
    if chars.len() == 0 {
        None
    } else if chars.last() == mark {
        Some(chars.len() - 1)
    } else {
        last_index_of(chars.drop_last(), mark)
    }
}

/// What `last_index_of` finds is the greatest position that holds `mark`.
pub proof fn lemma_last_index_of(chars: Seq<char>, mark: char)
    ensures
        match last_index_of(chars, mark) {
            Some(at) => 0 <= at < chars.len() && chars[at] == mark && forall|j: int|
                at < j < chars.len() ==> chars[j] != mark,
            None => forall|j: int| 0 <= j < chars.len() ==> chars[j] != mark,
        },
    decreases chars.len(),
{
    if chars.len() > 0 && chars.last() != mark {
        let front = chars.drop_last();
        lemma_last_index_of(front, mark);
        assert(forall|j: int| 0 <= j < front.len() ==> front[j] == chars[j]);
    }
}

/// Finds the last `mark` in `chars`.
pub fn rfind_char(chars: &Vec<char>, mark: char) -> (out: Option<usize>)
    ensures
        match out {
            Some(at) => at < chars.len() && last_index_of(chars@, mark) == Some(at as int),
            None => last_index_of(chars@, mark) is None,
        },
{
    let mut i: usize = chars.len();
    assert(chars@.take(i as int) == chars@);
    while i > 0
        invariant
            i <= chars.len(),
            last_index_of(chars@, mark) == last_index_of(chars@.take(i as int), mark),
        decreases i,
    {
        if chars[i - 1] == mark {
            return Some(i - 1);
        }
        assert(chars@.take(i as int).drop_last() == chars@.take(i - 1));
        i -= 1;
    }
    None
}

/// The characters that separate the tokens of an attribute value: space,
/// tab, line feed, carriage return and form feed.
pub open spec fn is_separator(c: char) -> bool {
    c == ' ' || c == '\t' || c == '\n' || c == '\r' || c == '\x0C'
}

/// Whether `token` is one of the separated words of `value`. A token that
/// is empty or holds a separator is no word of any value.
pub open spec fn has_token(value: Seq<char>, token: Seq<char>) -> bool {
    &&& token.len() > 0
    &&& forall|k: int| 0 <= k < token.len() ==> !is_separator(#[trigger] token[k])
    &&& exists|at: int| token_at(value, token, at)
}

/// Whether `token` stands at `at` in `value` with a separator, or an end
/// of the value, on either side.
pub open spec fn token_at(value: Seq<char>, token: Seq<char>, at: int) -> bool {
    &&& occurs_at(value, token, at)
    &&& (at == 0 || is_separator(value[at - 1]))
    &&& (at + token.len() == value.len() || is_separator(value[at + token.len()]))
}

/// Tests one character for being a separator.
pub fn separates(c: char) -> (out: bool)
    ensures
        out == is_separator(c),
{
    c == ' ' || c == '\t' || c == '\n' || c == '\r' || c == '\x0C'
}

/// Tests whether every character of `token` is a word character.
fn unbroken(token: &Vec<char>) -> (out: bool)
    ensures
        out == forall|k: int| 0 <= k < token.len() ==> !is_separator(#[trigger] token@[k]),
{
    let mut i: usize = 0;
    while i < token.len()
        invariant
            i <= token.len(),
            forall|k: int| 0 <= k < i ==> !is_separator(#[trigger] token@[k]),
        decreases token.len() - i,
    {
        if separates(token[i]) {
            return false;
        }
        i += 1;
    }
    true
}

/// Tests whether the separated words of `value` include `token`.
pub fn includes_token(value: &Vec<char>, token: &Vec<char>) -> (out: bool)
    ensures
        out == has_token(value@, token@),
{
    if token.len() == 0 || !unbroken(token) {
        return false;
    }
    let mut at: usize = 0;
    while at <= value.len()
        invariant
            at <= value.len() + 1,
            token.len() > 0,
            forall|k: int| 0 <= k < token.len() ==> !is_separator(#[trigger] token@[k]),
            forall|j: int| 0 <= j < at ==> !token_at(value@, token@, j),
        decreases value.len() + 1 - at,
    {
        if matches_at(value, token, at) {
            let before = at == 0 || separates(value[at - 1]);
            let end = at + token.len();
            let after = end == value.len() || separates(value[end]);
            if before && after {
                assert(token_at(value@, token@, at as int));
                return true;
            }
        }
        if at == value.len() {
            return false;
        }
        at += 1;
    }
    false
}

/// The lower-case form of an ASCII capital; any other character is left
/// as it is.
pub open spec fn lower_of(c: char) -> char {
    if 'A' <= c && c <= 'Z' {
        ((c as u8) + 32) as char
    } else {
        c
    }
}

/// A text with its ASCII capitals in lower case.
pub open spec fn lowered(text: Seq<char>) -> Seq<char> {
    text.map_values(|c: char| lower_of(c))
}

/// Puts one character into lower case.
pub fn to_lower(c: char) -> (out: char)
    ensures
        out == lower_of(c),
{
    if 'A' <= c && c <= 'Z' {
        ((c as u8) + 32) as char
    } else {
        c
    }
}

/// Puts the ASCII capitals of a text into lower case.
pub fn lower(text: &str) -> (out: String)
    ensures
        out@ == lowered(text@),
{
    let chars = chars_of(text);
    let mut out: Vec<char> = Vec::new();
    let mut i: usize = 0;
    while i < chars.len()
        invariant
            i <= chars.len(),
            out@ == lowered(chars@.take(i as int)),
        decreases chars.len() - i,
    {
        out.push(to_lower(chars[i]));
        assert(out@ =~= lowered(chars@.take(i + 1)));
        i += 1;
    }
    assert(chars@.take(chars.len() as int) == chars@);
    string_of(&out)
}

} // verus!
