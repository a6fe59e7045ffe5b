//! The short table of media types: pages and stylesheets are told apart,
//! and every other file is an octet stream.

use vstd::prelude::*;
use crate::mediatype::MediaType;
use crate::path::extension_of;
use crate::text::same_text;

verus! {

/// The media type that the short table gives a file extension.
pub open spec fn mime_of(ext: Seq<char>) -> MediaType {
    if ext == "html"@ {
        MediaType::Html
    } else if ext == "css"@ {
        MediaType::Css
    } else {
        MediaType::OctetStream
    }
}

/// The media type that the short table gives the file that a path names;
/// none where the path has no extension.
pub open spec fn mime_of_path(path: Seq<char>) -> Option<MediaType> {
    match extension_of(path) {
        Some(ext) => Some(mime_of(ext)),
        None => None,
    }
}

/// Something that names a file and so has a media type in the short
/// table.
pub trait GetMime {
    /// The media type, as a specification.
    spec fn mime(&self) -> Option<MediaType>;

    /// The media type of the file named, if its name has an extension.
    fn get_mime(&self) -> (out: Option<MediaType>)
        ensures
            out == self.mime(),
    ;
}

impl GetMime for str {
    open spec fn mime(&self) -> Option<MediaType> {
        mime_of_path(self@)
    }

    fn get_mime(&self) -> (out: Option<MediaType>) {
        match crate::path::extension_of_text(self) {
            Some(ext) => {
                if same_text(ext.as_str(), "html") {
                    Some(MediaType::Html)
                } else if same_text(ext.as_str(), "css") {
                    Some(MediaType::Css)
                } else {
                    Some(MediaType::OctetStream)
                }
            },
            None => None,
        }
    }
}

/// The short table agrees with the full table on pages and stylesheets,
/// and is an octet stream wherever it does not.
pub proof fn law_short_table(ext: Seq<char>)
    ensures
        mime_of(ext) == crate::mediatype::media_type_of(ext) || mime_of(ext)
            == MediaType::OctetStream,
        mime_of(ext) == MediaType::Html <==> ext == "html"@,
        mime_of(ext) == MediaType::Css <==> ext == "css"@,
{
    reveal_strlit("html");
    reveal_strlit("css");
    assert("html"@[0] == 'h' && "css"@[0] == 'c');
}

} // verus!
