use reqaz::mediatype::{GetMediaType, MediaType};
use reqaz::mime::GetMime;

#[test]
fn extension_table() {
    assert_eq!(MediaType::from_extension("html"), MediaType::Html);
    assert_eq!(MediaType::from_extension("css"), MediaType::Css);
    assert_eq!(MediaType::from_extension("scss"), MediaType::Css);
    assert_eq!(MediaType::from_extension("svg"), MediaType::Svg);
    assert_eq!(MediaType::from_extension("jpeg"), MediaType::Jpeg);
    assert_eq!(MediaType::from_extension("png"), MediaType::Png);
    assert_eq!(MediaType::from_extension("webp"), MediaType::Webp);
    assert_eq!(MediaType::from_extension("gif"), MediaType::Gif);
}

#[test]
fn unknown_extensions_are_octet_streams() {
    assert_eq!(MediaType::from_extension("txt"), MediaType::OctetStream);
    assert_eq!(MediaType::from_extension(""), MediaType::OctetStream);
    assert_eq!(MediaType::from_extension("HTML"), MediaType::OctetStream);
    assert_eq!(MediaType::from_extension("jpg"), MediaType::OctetStream);
}

#[test]
fn classification_is_the_same_every_time() {
    for ext in ["html", "css", "scss", "svg", "jpeg", "png", "webp", "gif", "zip"] {
        assert_eq!(MediaType::from_extension(ext), MediaType::from_extension(ext));
    }
}

#[test]
fn essences() {
    assert_eq!(MediaType::Html.essence(), "text/html");
    assert_eq!(MediaType::Css.essence(), "text/css");
    assert_eq!(MediaType::Svg.essence(), "image/svg+xml");
    assert_eq!(MediaType::Jpeg.essence(), "image/jpeg");
    assert_eq!(MediaType::Png.essence(), "image/png");
    assert_eq!(MediaType::Webp.essence(), "image/webp");
    assert_eq!(MediaType::Gif.essence(), "image/gif");
    assert_eq!(MediaType::OctetStream.essence(), "application/octet-stream");
}

#[test]
fn content_type_names() {
    for m in [
        MediaType::Html,
        MediaType::Css,
        MediaType::Svg,
        MediaType::Jpeg,
        MediaType::Png,
        MediaType::Webp,
        MediaType::Gif,
        MediaType::OctetStream,
    ] {
        assert_eq!(MediaType::from_essence(m.essence().as_str()), m);
    }
    assert_eq!(MediaType::from_essence("TEXT/Html"), MediaType::Html);
    assert_eq!(MediaType::from_essence("text/plain"), MediaType::OctetStream);
    assert_eq!(MediaType::from_essence("not a type"), MediaType::OctetStream);
}

#[test]
fn media_type_of_a_path() {
    assert_eq!("/srv/a/index.html".get_media_type(), Some(MediaType::Html));
    assert_eq!("/srv/a.b/c.scss".get_media_type(), Some(MediaType::Css));
    assert_eq!("/srv/a.tar.gz".get_media_type(), Some(MediaType::OctetStream));
    assert_eq!("/srv/a.b/c".get_media_type(), None);
    assert_eq!("/srv/dir/".get_media_type(), None);
    assert_eq!("/srv/a.css/".get_media_type(), Some(MediaType::Css));
    assert_eq!("".get_media_type(), None);
}

#[test]
fn short_table_knows_pages_and_stylesheets() {
    assert_eq!("/srv/a/index.html".get_mime(), Some(MediaType::Html));
    assert_eq!("/srv/a.css".get_mime(), Some(MediaType::Css));
    assert_eq!("/srv/a.scss".get_mime(), Some(MediaType::OctetStream));
    assert_eq!("/srv/a.svg".get_mime(), Some(MediaType::OctetStream));
    assert_eq!("/srv/a.HTML".get_mime(), Some(MediaType::OctetStream));
    assert_eq!("/srv/a".get_mime(), None);
}
