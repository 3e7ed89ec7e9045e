//! Text shown with Pango markup, and the media URLs of the content repository.
use vstd::prelude::*;
use crate::text::{concat, i64_to_string, int_decimal};
use crate::types::Error;

verus! {

/// A text with `&`, `<`, `>` and `"` written as HTML entities.
pub open spec fn escaped(s: Seq<char>) -> Seq<char>
    decreases s.len(),
{
    if s.len() == 0 {
        Seq::empty()
    } else {
        let c = s.last();
        escaped(s.drop_last()) + if c == '&' {
            "&amp;"@
        } else if c == '<' {
            "&lt;"@
        } else if c == '>' {
            "&gt;"@
        } else if c == '"' {
            "&quot;"@
        } else {
            seq![c]
        }
    }
}

/// `html2pango::html_escape`, which replaces `&`, `<`, `>` and `"` by their
/// entities, in that order; since each replacement only adds characters the
/// later ones leave alone, every character is replaced once.
#[verifier::external_body]
fn html_escape(s: &str) -> (r: String)
    ensures
        r@ == escaped(s@),
{
    html2pango::html_escape(s)
}

/// What `html2pango::markup_links` makes of a text: its URIs turned into links.
pub uninterp spec fn linked(s: Seq<char>) -> Seq<char>;

/// `html2pango::markup_links`; named by [`linked`].
#[verifier::external_body]
fn markup_links(s: &str) -> (r: String)
    ensures
        r@ == linked(s@),
{
    html2pango::markup_links(s)
}

/// A text made safe for Pango markup, with its links marked up.
pub fn markup_text(s: &str) -> (r: String)
    ensures
        r@ == linked(escaped(s@)),
{
    let e = html_escape(s);
    markup_links(e.as_str())
}

/// What `regex` finds in `s` with the pattern `pattern`: the texts that the
/// groups named `first` and `second` capture in the first match; `None`
/// where the pattern is no regex, nothing matches, or a group takes no part
/// in the match.
pub uninterp spec fn named_captures(pattern: Seq<char>, s: Seq<char>, first: Seq<char>, second: Seq<char>) -> Option<(Seq<char>, Seq<char>)>;

/// `regex::Regex::new(pattern)` then `captures(s)`, and the two named groups
/// of the match; named by [`named_captures`].
#[verifier::external_body]
fn captures_of(pattern: &str, s: &str, first: &str, second: &str) -> (r: Option<(String, String)>)
    ensures
        match r {
            Some((a, b)) => named_captures(pattern@, s@, first@, second@) == Some((a@, b@)),
            None => named_captures(pattern@, s@, first@, second@) is None,
        },
{
    let caps = regex::Regex::new(pattern).ok()?.captures(s)?;
    Some((caps.name(first)?.as_str().to_owned(), caps.name(second)?.as_str().to_owned()))
}

/// The pattern of an `mxc://` URI: a server, a slash, and the media id.
pub open spec fn mxc_pattern() -> Seq<char> {
    "mxc://(?P<server>[^/]+)/(?P<media>.+)"@
}

/// The server and media id of an `mxc://` URI, as the pattern captures them
/// in `s`.
pub open spec fn mxc_captures(s: Seq<char>) -> Option<(Seq<char>, Seq<char>)> {
    named_captures(mxc_pattern(), s, "server"@, "media"@)
}

/// The server and media id of the `mxc://` URI `s`.
fn mxc_parts(s: &str) -> (r: Option<(String, String)>)
    ensures
        match r {
            Some((a, b)) => mxc_captures(s@) == Some((a@, b@)),
            None => mxc_captures(s@) is None,
        },
{
    captures_of("mxc://(?P<server>[^/]+)/(?P<media>.+)", s, "server", "media")
}

/// A request for a file of the content repository.
pub struct MediaRequest {
    /// The path under the server's URL.
    pub path: String,
    /// The query parameters.
    pub params: Vec<(String, String)>,
    /// The media id, which names the cached file.
    pub media: String,
}

/// The path of the media `server`/`media`, as a thumbnail or whole.
pub open spec fn media_path(server: Seq<char>, media: Seq<char>, thumb: bool) -> Seq<char> {
    "/_matrix/media/r0/"@ + (if thumb { "thumbnail/"@ } else { "download/"@ }) + server + "/"@ + media
}

/// The query of a thumbnail of `w` by `h` pixels; none for the whole file.
pub open spec fn media_params(thumb: bool, w: int, h: int) -> Seq<(Seq<char>, Seq<char>)> {
    if thumb {
        seq![("width"@, int_decimal(w)), ("height"@, int_decimal(h)), ("method"@, "scale"@)]
    } else {
        Seq::empty()
    }
}

/// The media request: where the `mxc://` URI `url` is fetched, as a
/// `w` by `h` thumbnail or whole; an error for a URI that is no `mxc://` URI.
pub fn media_request(url: &str, thumb: bool, w: i32, h: i32) -> (r: Result<MediaRequest, Error>)
    ensures
        match mxc_captures(url@) {
            Some((server, media)) => r matches Ok(q) && q.path@ == media_path(server, media, thumb)
                && q.params@.map_values(|p: (String, String)| (p.0@, p.1@)) == media_params(thumb, w as int, h as int)
                && q.media@ == media,
            None => r matches Err(e) && e == Error::BackendError,
        },
{
    let (server, media) = match mxc_parts(url) {
        Some(p) => p,
        None => return Err(Error::BackendError),
    };
    let kind = if thumb {
        "/_matrix/media/r0/thumbnail/"
    } else {
        "/_matrix/media/r0/download/"
    };
    let a = concat(kind, server.as_str());
    let b = concat(a.as_str(), "/");
    let path = concat(b.as_str(), media.as_str());
    let mut params: Vec<(String, String)> = Vec::new();
    if thumb {
        params.push(("width".to_owned(), i64_to_string(w as i64)));
        params.push(("height".to_owned(), i64_to_string(h as i64)));
        params.push(("method".to_owned(), "scale".to_owned()));
    }
    proof {
        reveal_strlit("/_matrix/media/r0/thumbnail/");
        reveal_strlit("/_matrix/media/r0/download/");
        reveal_strlit("/_matrix/media/r0/");
        reveal_strlit("thumbnail/");
        reveal_strlit("download/");
        assert("/_matrix/media/r0/thumbnail/"@ =~= "/_matrix/media/r0/"@ + "thumbnail/"@);
        assert("/_matrix/media/r0/download/"@ =~= "/_matrix/media/r0/"@ + "download/"@);
        assert(path@ =~= media_path(server@, media@, thumb));
        assert(params@.map_values(|p: (String, String)| (p.0@, p.1@)) =~= media_params(thumb, w as int, h as int));
    }
    Ok(MediaRequest { path, params, media })
}

} // verus!
