//! Media types of served resources, picked by file extension.

use vstd::prelude::*;
use crate::path::extension_of;
use crate::text::same_text;

verus! {

/// The media types that the resolver tells apart.
#[derive(Clone, Copy, Debug, PartialEq, Eq, Structural)]
pub enum MediaType {
    /// `text/html`
    Html,
    /// `text/css`
    Css,
    /// `image/svg+xml`
    Svg,
    /// `image/jpeg`
    Jpeg,
    /// `image/png`
    Png,
    /// `image/webp`
    Webp,
    /// `image/gif`
    Gif,
    /// `application/octet-stream`
    OctetStream,
}

/// The media type that goes with a file extension. Extensions outside the
/// table are octet streams.
pub open spec fn media_type_of(ext: Seq<char>) -> MediaType {
    if ext == "html"@ {
        MediaType::Html
    } else if ext == "css"@ || ext == "scss"@ {
        MediaType::Css
    } else if ext == "svg"@ {
        MediaType::Svg
    } else if ext == "jpeg"@ {
        MediaType::Jpeg
    } else if ext == "png"@ {
        MediaType::Png
    } else if ext == "webp"@ {
        MediaType::Webp
    } else if ext == "gif"@ {
        MediaType::Gif
    } else {
        MediaType::OctetStream
    }
}

/// The media type that a content-type name stands for, capitals counting
/// as small letters. Names outside the table are octet streams.
pub open spec fn media_type_named(name: Seq<char>) -> MediaType {
    media_type_spelled(crate::text::lowered(name))
}

/// The media type of a name in small letters.
pub open spec fn media_type_spelled(name: Seq<char>) -> MediaType {
    if name == "text/html"@ {
        MediaType::Html
    } else if name == "text/css"@ {
        MediaType::Css
    } else if name == "image/svg+xml"@ {
        MediaType::Svg
    } else if name == "image/jpeg"@ {
        MediaType::Jpeg
    } else if name == "image/png"@ {
        MediaType::Png
    } else if name == "image/webp"@ {
        MediaType::Webp
    } else if name == "image/gif"@ {
        MediaType::Gif
    } else {
        MediaType::OctetStream
    }
}

/// The media type of the file that a path names: the type of its
/// extension, and none where the path has no extension.
pub open spec fn media_type_of_path(path: Seq<char>) -> Option<MediaType> {
    match extension_of(path) {
        Some(ext) => Some(media_type_of(ext)),
        None => None,
    }
}

impl MediaType {
    /// The name of the type, as a content-type header spells it.
    pub open spec fn essence_of(self) -> Seq<char> {
        match self {
            MediaType::Html => "text/html"@,
            MediaType::Css => "text/css"@,
            MediaType::Svg => "image/svg+xml"@,
            MediaType::Jpeg => "image/jpeg"@,
            MediaType::Png => "image/png"@,
            MediaType::Webp => "image/webp"@,
            MediaType::Gif => "image/gif"@,
            MediaType::OctetStream => "application/octet-stream"@,
        }
    }

    /// Classifies a file extension.
    pub fn from_extension(ext: &str) -> (out: MediaType)
        ensures
            out == media_type_of(ext@),
    {
        if same_text(ext, "html") {
            MediaType::Html
        } else if same_text(ext, "css") || same_text(ext, "scss") {
            MediaType::Css
        } else if same_text(ext, "svg") {
            MediaType::Svg
        } else if same_text(ext, "jpeg") {
            MediaType::Jpeg
        } else if same_text(ext, "png") {
            MediaType::Png
        } else if same_text(ext, "webp") {
            MediaType::Webp
        } else if same_text(ext, "gif") {
            MediaType::Gif
        } else {
            MediaType::OctetStream
        }
    }

    /// Classifies the name of a content type.
    pub fn from_essence(name: &str) -> (out: MediaType)
        ensures
            out == media_type_named(name@),
    {
        let small = crate::text::lower(name);
        let name = small.as_str();
        if same_text(name, "text/html") {
            MediaType::Html
        } else if same_text(name, "text/css") {
            MediaType::Css
        } else if same_text(name, "image/svg+xml") {
            MediaType::Svg
        } else if same_text(name, "image/jpeg") {
            MediaType::Jpeg
        } else if same_text(name, "image/png") {
            MediaType::Png
        } else if same_text(name, "image/webp") {
            MediaType::Webp
        } else if same_text(name, "image/gif") {
            MediaType::Gif
        } else {
            MediaType::OctetStream
        }
    }

    /// The name of the type.
    pub fn essence(&self) -> (out: String)
        ensures
            out@ == self.essence_of(),
    {
        match self {
            MediaType::Html => "text/html".to_owned(),
            MediaType::Css => "text/css".to_owned(),
            MediaType::Svg => "image/svg+xml".to_owned(),
            MediaType::Jpeg => "image/jpeg".to_owned(),
            MediaType::Png => "image/png".to_owned(),
            MediaType::Webp => "image/webp".to_owned(),
            MediaType::Gif => "image/gif".to_owned(),
            MediaType::OctetStream => "application/octet-stream".to_owned(),
        }
    }
}

/// Whether a character is an ASCII letter or digit.
pub open spec fn is_alnum(c: char) -> bool {
    ('a' <= c && c <= 'z') || ('A' <= c && c <= 'Z') || ('0' <= c && c <= '9')
}

/// Whether a character may stand in a name of a media type: a letter, a
/// digit, or one of `! # $ & - ^ _ . +`.
pub open spec fn is_name_char(c: char) -> bool {
    is_alnum(c) || c == '!' || c == '#' || c == '$' || c == '&' || c == '-' || c == '^' || c
        == '_' || c == '.' || c == '+'
}

/// Whether a text is a name of a media type: up to 127 name characters,
/// the first a letter or digit.
pub open spec fn is_name(text: Seq<char>) -> bool {
    &&& 1 <= text.len() <= 127
    &&& is_alnum(text[0])
    &&& forall|i: int| 0 <= i < text.len() ==> is_name_char(#[trigger] text[i])
}

/// Whether a text is well formed as a media type without parameters: a
/// name, a slash, and a name.
pub open spec fn well_formed(text: Seq<char>) -> bool {
    exists|at: int|
        0 <= at < text.len() && #[trigger] text[at] == '/' && is_name(text.take(at)) && is_name(
            text.skip(at + 1),
        )
}

/// The media type that a response declares by its content type: the
/// content type itself where it is well formed, octet stream where it is
/// not.
pub open spec fn declared_type(content_type: Seq<char>) -> Seq<char> {
    if well_formed(content_type) {
        content_type
    } else {
        MediaType::OctetStream.essence_of()
    }
}

/// A media type by its name, as a response declares it. It need not be
/// one of the types that the resolver tells apart.
#[derive(Debug)]
pub struct MediaTypeBuf {
    /// The name, such as `text/plain`.
    pub name: String,
}

impl View for MediaTypeBuf {
    type V = Seq<char>;

    open spec fn view(&self) -> Seq<char> {
        self.name@
    }
}

/// Tests a character for being an ASCII letter or digit.
fn alnum(c: char) -> (out: bool)
    ensures
        out == is_alnum(c),
{
    ('a' <= c && c <= 'z') || ('A' <= c && c <= 'Z') || ('0' <= c && c <= '9')
}

/// Tests a character for being a name character.
fn name_char(c: char) -> (out: bool)
    ensures
        out == is_name_char(c),
{
    alnum(c) || c == '!' || c == '#' || c == '$' || c == '&' || c == '-' || c == '^' || c == '_'
        || c == '.' || c == '+'
}

/// Tests the part of a text from `from` up to `to` for being a name.
fn name_between(text: &Vec<char>, from: usize, to: usize) -> (out: bool)
    requires
        from <= to <= text.len(),
    ensures
        out == is_name(text@.subrange(from as int, to as int)),
{
    let ghost part = text@.subrange(from as int, to as int);
    if to - from < 1 || to - from > 127 || !alnum(text[from]) {
        assert(to - from >= 1 ==> part[0] == text@[from as int]);
        return false;
    }
    assert(part[0] == text@[from as int]);
    let mut i: usize = from;
    while i < to
        invariant
            from <= i <= to <= text.len(),
            part == text@.subrange(from as int, to as int),
            forall|j: int| 0 <= j < i - from ==> is_name_char(#[trigger] part[j]),
        decreases to - i,
    {
        if !name_char(text[i]) {
            assert(part[i - from] == text@[i as int]);
            return false;
        }
        assert(part[i - from] == text@[i as int]);
        i += 1;
    }
    true
}

/// Tests a text for being well formed as a media type.
pub fn is_well_formed(text: &str) -> (out: bool)
    ensures
        out == well_formed(text@),
{
    let chars = crate::text::chars_of(text);
    let mut at: usize = 0;
    while at < chars.len()
        invariant
            at <= chars.len(),
            chars@ == text@,
            forall|j: int| 0 <= j < at ==> chars@[j] != '/',
        decreases chars.len() - at,
    {
        if chars[at] == '/' {
            let head = name_between(&chars, 0, at);
            let tail = name_between(&chars, at + 1, chars.len());
            proof {
                assert(chars@.subrange(0, at as int) == chars@.take(at as int));
                assert(chars@.subrange(at + 1, chars.len() as int) == chars@.skip(at + 1));
                if well_formed(chars@) {
                    let k = choose|k: int|
                        0 <= k < chars@.len() && #[trigger] chars@[k] == '/' && is_name(
                            chars@.take(k),
                        ) && is_name(chars@.skip(k + 1));
                    if k > at {
                        assert(chars@.take(k)[at as int] == '/');
                        assert(is_name_char(chars@.take(k)[at as int]));
                    }
                    assert(k == at);
                }
                if head && tail {
                    assert(chars@[at as int] == '/');
                }
            }
            return head && tail;
        }
        at += 1;
    }
    proof {
        if well_formed(chars@) {
            let k = choose|k: int|
                0 <= k < chars@.len() && #[trigger] chars@[k] == '/' && is_name(chars@.take(k))
                    && is_name(chars@.skip(k + 1));
            assert(chars@[k] != '/');
        }
    }
    false
}

impl MediaTypeBuf {
    /// The media type of the given name; none where the name is not well
    /// formed.
    pub fn from_string(name: String) -> (out: Option<MediaTypeBuf>)
        ensures
            match out {
                Some(m) => well_formed(name@) && m@ == name@,
                None => !well_formed(name@),
            },
    {
        if is_well_formed(name.as_str()) {
            Some(MediaTypeBuf { name })
        } else {
            None
        }
    }

    /// One of the types that the resolver tells apart, under its name.
    pub fn of(value: MediaType) -> (out: MediaTypeBuf)
        ensures
            out@ == value.essence_of(),
    {
        MediaTypeBuf { name: value.essence() }
    }

    /// The media type that a response declares by its content type.
    pub fn declared(content_type: &str) -> (out: MediaTypeBuf)
        ensures
            out@ == declared_type(content_type@),
    {
        match MediaTypeBuf::from_string(content_type.to_owned()) {
            Some(m) => m,
            None => MediaTypeBuf { name: MediaType::OctetStream.essence() },
        }
    }

    /// The type that the resolver takes this for: the type of the table
    /// that has this name, capitals counting as small letters, and octet
    /// stream for any other name.
    pub fn known(&self) -> (out: MediaType)
        ensures
            out == media_type_named(self@),
    {
        MediaType::from_essence(self.name.as_str())
    }

    /// The name of the type.
    pub fn essence(&self) -> (out: String)
        ensures
            out@ == self@,
    {
        self.name.clone()
    }
}

/// Something that names a file and so has a media type.
pub trait GetMediaType {
    /// The media type, as a specification.
    spec fn media_type(&self) -> Option<MediaType>;

    /// The media type of the file named, if its name has an extension.
    fn get_media_type(&self) -> (out: Option<MediaType>)
        ensures
            out == self.media_type(),
    ;
}

impl GetMediaType for str {
    open spec fn media_type(&self) -> Option<MediaType> {
        media_type_of_path(self@)
    }

    fn get_media_type(&self) -> (out: Option<MediaType>) {
        match crate::path::extension_of_text(self) {
            Some(ext) => Some(MediaType::from_extension(ext.as_str())),
            None => None,
        }
    }
}

/// Classification never fails, and the eight extensions of the table get
/// their type: every other extension is an octet stream.
pub proof fn law_classification_total(ext: Seq<char>)
    ensures
        media_type_of(ext) == MediaType::OctetStream <==> !(ext == "html"@ || ext == "css"@ || ext
            == "scss"@ || ext == "svg"@ || ext == "jpeg"@ || ext == "png"@ || ext == "webp"@ || ext
            == "gif"@),
{
    reveal_strlit("html");
    reveal_strlit("css");
    reveal_strlit("scss");
    reveal_strlit("svg");
    reveal_strlit("jpeg");
    reveal_strlit("png");
    reveal_strlit("webp");
    reveal_strlit("gif");
}

} // verus!
