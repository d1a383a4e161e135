//! The files of the web page that the server brings along.

use vstd::prelude::*;
use vstd::utf8::encode_utf8;

verus! {

/// The media type that `mime_guess` guesses for a path.
pub uninterp spec fn guessed_mime(path: Seq<char>) -> Seq<char>;

/// `mime_guess::from_path`, with `first_or_octet_stream` on its result: the first media type that
/// the crate's table has for the extension of the path, or `application/octet-stream`. The result
/// depends on the path alone, and no more is said of it.
#[verifier::external_body]
fn guess_mime(path: &str) -> (r: String)
    ensures
        r@ == guessed_mime(path@),
{
    let mime = mime_guess::from_path(path).first_or_octet_stream();
    let text: &str = mime.as_ref();
    text.to_owned()
}

/// Whether a byte can stand in the value of an HTTP header: a tab, or anything from a space on but
/// the delete character.
pub open spec fn is_header_byte(b: u8) -> bool {
    b == 9 || (b >= 32 && b != 127)
}

/// Whether a text can be the value of an HTTP header.
pub open spec fn is_header_text(s: Seq<char>) -> bool {
    forall|i: int| 0 <= i < encode_utf8(s).len() ==> is_header_byte(#[trigger] encode_utf8(s)[i])
}

/// `axum::http::HeaderValue::from_str`, of which only the success is looked at: it takes a text
/// whose bytes can all stand in the value of a header, and no other.
#[verifier::external_body]
fn is_header_value(s: &str) -> (r: bool)
    ensures
        r == is_header_text(s@),
{
    axum::http::HeaderValue::from_str(s).is_ok()
}

/// The content type that is sent for a media type.
pub open spec fn sent_type(mime: Seq<char>) -> Seq<char> {
    if is_header_text(mime) {
        mime
    } else {
        "application/octet-stream"@
    }
}

/// The content type that is sent for a media type: the media type itself where it can stand in a
/// header, and `application/octet-stream` elsewhere.
pub fn content_type(mime: &str) -> (r: String)
    ensures
        r@ == sent_type(mime@),
{
    if is_header_value(mime) {
        mime.to_owned()
    } else {
        "application/octet-stream".to_owned()
    }
}

/// The answer to the request for a file of the web page.
#[derive(Debug)]
pub enum AssetReply {
    Found { content_type: String, body: Vec<u8> },
    NotFound { status: u16, text: String },
}

/// Answers the request for the file at `path` of the web page, whose content is given if there is
/// such a file.
pub fn serve_embedded(path: &str, content: Option<Vec<u8>>) -> (r: AssetReply)
    ensures
        match content {
            Some(data) => r matches AssetReply::Found { content_type, body } && content_type@
                == sent_type(guessed_mime(path@)) && body@ == data@,
            None => r matches AssetReply::NotFound { status, text } && status == 404 && text@
                == "not found"@,
        },
{
    match content {
        Some(body) => {
            let mime = guess_mime(path);
            AssetReply::Found { content_type: content_type(mime.as_str()), body }
        },
        None => AssetReply::NotFound { status: 404, text: "not found".to_owned() },
    }
}

/// A media type is sent as it is where each of its bytes in UTF-8 is a tab or from the space on and
/// not the delete character; any other is sent as octets.
pub proof fn media_types_are_sent_as_they_are(mime: Seq<char>)
    ensures
        ({
            let bytes = encode_utf8(mime);
            let fits = forall|i: int|
                0 <= i < bytes.len() ==> (#[trigger] bytes[i]) == 9u8 || (bytes[i] >= 32u8
                    && bytes[i] != 127u8);
            &&& fits ==> sent_type(mime) == mime
            &&& !fits ==> sent_type(mime) == "application/octet-stream"@
        }),
{
    let bytes = encode_utf8(mime);
    if forall|i: int|
        0 <= i < bytes.len() ==> (#[trigger] bytes[i]) == 9u8 || (bytes[i] >= 32u8 && bytes[i]
            != 127u8) {
        assert(is_header_text(mime));
    } else {
        let i = choose|i: int|
            0 <= i < bytes.len() && !((#[trigger] bytes[i]) == 9u8 || (bytes[i] >= 32u8 && bytes[i]
                != 127u8));
        assert(!is_header_byte(encode_utf8(mime)[i]));
    }
}

}
