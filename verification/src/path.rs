//! Slash-separated paths as text: the last segment, its extension, the
//! directory part, and joining.

use vstd::prelude::*;
use crate::text::{chars_of, cut, extend, last_index_of, rfind_char, string_of};

verus! {

/// The part of `path` behind its last slash; the whole of it where it has
/// none.
pub open spec fn last_segment_of(path: Seq<char>) -> Seq<char> {
    match last_index_of(path, '/') {
        Some(at) => path.subrange(at + 1, path.len() as int),
        None => path,
    }
}

/// A path without what does not count at its end: slashes, and segments
/// that are a single dot.
pub open spec fn trimmed(path: Seq<char>) -> Seq<char>
    decreases path.len(),
{
    if path.len() > 0 && path.last() == '/' {
        trimmed(path.drop_last())
    } else if path.len() >= 2 && path.last() == '.' && path[path.len() - 2] == '/' {
        trimmed(path.drop_last())
    } else {
        path
    }
}

/// The name of the file that `path` names: its last segment, slashes and
/// single dots at the end of the path left aside.
pub open spec fn file_name_of(path: Seq<char>) -> Seq<char> {
    last_segment_of(trimmed(path))
}

/// The part of `path` up to its last slash, the slash included; empty
/// where it has none.
pub open spec fn directory_of(path: Seq<char>) -> Seq<char> {
    match last_index_of(path, '/') {
        Some(at) => path.subrange(0, at + 1),
        None => Seq::empty(),
    }
}

/// The extension of the file that `path` names: what follows the last dot
/// of its name. A name without a dot, one whose only dot is its first
/// character, and the name `..` have none.
pub open spec fn extension_of(path: Seq<char>) -> Option<Seq<char>> {
    let name = file_name_of(path);
    match last_index_of(name, '.') {
        None => None,
        Some(at) => if at == 0 || name == seq!['.', '.'] {
            None
        } else {
            Some(name.subrange(at + 1, name.len() as int))
        },
    }
}

/// `rel` resolved against `base`: a `rel` that begins with a slash stands
/// alone, any other is put behind `base`, with one slash between the two
/// unless `base` is empty or ends in one.
pub open spec fn joined(base: Seq<char>, rel: Seq<char>) -> Seq<char> {
    if rel.len() > 0 && rel[0] == '/' {
        rel
    } else if base.len() == 0 || base.last() == '/' {
        base + rel
    } else {
        base + seq!['/'] + rel
    }
}

/// Cuts off slashes and single dots at the end of a path.
pub fn trim(path: &Vec<char>) -> (out: Vec<char>)
    ensures
        out@ == trimmed(path@),
{
    let mut end: usize = path.len();
    assert(path@.take(end as int) == path@);
    while end > 0 && (path[end - 1] == '/' || (end >= 2 && path[end - 1] == '.' && path[end - 2]
        == '/'))
        invariant
            end <= path.len(),
            trimmed(path@) == trimmed(path@.take(end as int)),
        decreases end,
    {
        assert(path@.take(end as int).drop_last() == path@.take(end - 1));
        end -= 1;
    }
    let out = cut(path, 0, end);
    assert(path@.subrange(0, end as int) == path@.take(end as int));
    out
}

/// The name of the file that a path names.
pub fn file_name(path: &Vec<char>) -> (out: Vec<char>)
    ensures
        out@ == file_name_of(path@),
{
    let path = trim(path);
    proof {
        crate::text::lemma_last_index_of(path@, '/');
    }
    match rfind_char(&path, '/') {
        Some(at) => cut(&path, at + 1, path.len()),
        None => path,
    }
}

/// The directory part of a path.
pub fn directory(path: &Vec<char>) -> (out: Vec<char>)
    ensures
        out@ == directory_of(path@),
{
    proof {
        crate::text::lemma_last_index_of(path@, '/');
    }
    match rfind_char(path, '/') {
        Some(at) => cut(path, 0, at + 1),
        None => Vec::new(),
    }
}

/// The extension of a path's last segment.
pub fn extension(path: &Vec<char>) -> (out: Option<Vec<char>>)
    ensures
        match out {
            Some(ext) => extension_of(path@) == Some(ext@),
            None => extension_of(path@) is None,
        },
{
    let name = file_name(path);
    proof {
        crate::text::lemma_last_index_of(name@, '.');
    }
    match rfind_char(&name, '.') {
        None => None,
        Some(at) => {
            if at == 0 {
                None
            } else if name.len() == 2 && name[0] == '.' && name[1] == '.' {
                assert(name@ == seq!['.', '.']);
                None
            } else {
                assert(name@ != seq!['.', '.']) by {
                    if name@ == seq!['.', '.'] {
                        assert(name@.len() == 2);
                        assert(name@[0] == '.' && name@[1] == '.');
                    }
                }
                Some(cut(&name, at + 1, name.len()))
            }
        },
    }
}

/// The extension of a path given as a string.
pub fn extension_of_text(path: &str) -> (out: Option<String>)
    ensures
        match out {
            Some(ext) => extension_of(path@) == Some(ext@),
            None => extension_of(path@) is None,
        },
{
    let chars = chars_of(path);
    match extension(&chars) {
        Some(ext) => Some(string_of(&ext)),
        None => None,
    }
}

/// Resolves `rel` against `base`.
pub fn join(base: &Vec<char>, rel: &Vec<char>) -> (out: Vec<char>)
    ensures
        out@ == joined(base@, rel@),
{
    if rel.len() > 0 && rel[0] == '/' {
        let out = cut(rel, 0, rel.len());
        assert(rel@.subrange(0, rel.len() as int) == rel@);
        return out;
    }
    let mut out = cut(base, 0, base.len());
    assert(base@.subrange(0, base.len() as int) == base@);
    if base.len() > 0 && base[base.len() - 1] != '/' {
        out.push('/');
        assert(out@ == base@ + seq!['/']);
    }
    extend(&mut out, rel);
    out
}

/// Behind a text, a tail that lacks a character does not move the last
/// place of that character.
pub proof fn lemma_last_index_of_append(head: Seq<char>, tail: Seq<char>, mark: char)
    requires
        forall|i: int| 0 <= i < tail.len() ==> tail[i] != mark,
    ensures
        last_index_of(head + tail, mark) == last_index_of(head, mark),
    decreases tail.len(),
{
    if tail.len() == 0 {
        assert(head + tail =~= head);
    } else {
        assert((head + tail).last() == tail.last());
        assert((head + tail).drop_last() =~= head + tail.drop_last());
        lemma_last_index_of_append(head, tail.drop_last(), mark);
    }
}

/// A name without a slash that does not end in a dot, joined onto any
/// base, is the name of the file that the result names.
pub proof fn lemma_joined_file_name(base: Seq<char>, name: Seq<char>)
    requires
        name.len() > 0,
        forall|i: int| 0 <= i < name.len() ==> name[i] != '/',
        name.last() != '.',
    ensures
        file_name_of(joined(base, name)) == name,
{
    let head = if base.len() == 0 || base.last() == '/' {
        base
    } else {
        base + seq!['/']
    };
    assert(joined(base, name) =~= head + name);
    assert((head + name).last() == name.last());
    assert(trimmed(head + name) == head + name);
    lemma_last_index_of_append(head, name, '/');
    crate::text::lemma_last_index_of(head, '/');
    if head.len() == 0 {
        assert(head + name =~= name);
    } else {
        assert(head.last() == '/');
        assert(last_index_of(head, '/') == Some(head.len() - 1));
        assert((head + name).subrange(head.len() as int, (head + name).len() as int) =~= name);
    }
}

/// The index page of any directory has the extension `html`.
pub proof fn lemma_index_extension(base: Seq<char>)
    ensures
        extension_of(joined(base, "index.html"@)) == Some("html"@),
{
    let name = "index.html"@;
    reveal_strlit("index.html");
    reveal_strlit("html");
    assert(name =~= seq!['i', 'n', 'd', 'e', 'x', '.', 'h', 't', 'm', 'l']);
    lemma_joined_file_name(base, name);
    let front = seq!['i', 'n', 'd', 'e', 'x', '.'];
    let back = seq!['h', 't', 'm', 'l'];
    assert(name =~= front + back);
    lemma_last_index_of_append(front, back, '.');
    assert(last_index_of(front, '.') == Some(5int));
    assert(name.subrange(6, 10) =~= "html"@);
    assert(name != seq!['.', '.']) by {
        assert(name.len() == 10);
    }
}

} // verus!
