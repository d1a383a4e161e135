use obsidian_web_server::assets::{content_type, serve_embedded, AssetReply};

fn type_of(path: &str) -> String {
    match serve_embedded(path, Some(b"data".to_vec())) {
        AssetReply::Found { content_type, body } => {
            assert_eq!(body, b"data".to_vec());
            content_type
        }
        other => panic!("{:?}", other),
    }
}

#[test]
fn files_of_the_page_have_their_media_type() {
    assert_eq!(type_of("index.html"), "text/html");
    assert_eq!(type_of("css/style.css"), "text/css");
    assert_eq!(type_of("logo.png"), "image/png");
}

#[test]
fn unknown_media_types_are_octets() {
    assert_eq!(type_of("noextension"), "application/octet-stream");
    assert_eq!(type_of("x.unheardof"), "application/octet-stream");
}

#[test]
fn missing_files_of_the_page_are_not_found() {
    match serve_embedded("index.html", None) {
        AssetReply::NotFound { status, text } => {
            assert_eq!((status, text.as_str()), (404, "not found"));
        }
        other => panic!("{:?}", other),
    }
}

#[test]
fn media_types_have_to_fit_in_a_header() {
    assert_eq!(content_type("text/plain; charset=utf-8"), "text/plain; charset=utf-8");
    assert_eq!(content_type("a\tb"), "a\tb");
    assert_eq!(content_type("ä"), "ä");
    assert_eq!(content_type(""), "");
    assert_eq!(content_type("a\nb"), "application/octet-stream");
    assert_eq!(content_type("a\u{7f}"), "application/octet-stream");
    assert_eq!(content_type("\0"), "application/octet-stream");
}
