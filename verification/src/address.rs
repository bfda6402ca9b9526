//! URLs of playlists, segments and maps. Only HTTP and HTTPS are accepted.

use vstd::prelude::*;
use vstd::string::StrSliceExecFns;
use crate::fault::{Error, ErrorModel, Fault, Role};
use crate::text::{same_text, strip};

verus! {

/// An absolute URL in its serialised form.
#[derive(Debug, PartialEq, Eq)]
pub struct HlsUrl {
    pub text: String,
}

impl View for HlsUrl {
    type V = Seq<char>;

    open spec fn view(&self) -> Seq<char> {
        self.text@
    }
}

impl Clone for HlsUrl {
    fn clone(&self) -> (r: HlsUrl)
        ensures
            r == *self,
    {
        HlsUrl { text: self.text.clone() }
    }
}

/// The scheme of a URL: what precedes its first colon.
pub open spec fn scheme(url: Seq<char>) -> Seq<char>
    decreases url.len(),
{
    if url.len() == 0 || url[0] == ':' {
        seq![]
    } else {
        seq![url[0]] + scheme(url.skip(1))
    }
}

/// Whether a URL's scheme is HTTP or HTTPS.
pub open spec fn http(url: Seq<char>) -> bool {
    scheme(url) == "http"@ || scheme(url) == "https"@
}

/// Reads the scheme of a URL.
pub fn scheme_of(url: &HlsUrl) -> (r: String)
    ensures
        r@ == scheme(url@),
{
    let n: usize = url.text.as_str().unicode_len();
    let mut i: usize = 0;
    assert(url@.skip(0) =~= url@);
    assert(url@.take(0) + scheme(url@) =~= scheme(url@));
    while i < n && url.text.as_str().get_char(i) != ':'
        invariant
            i <= n,
            n == url@.len(),
            scheme(url@) == url@.take(i as int) + scheme(url@.skip(i as int)),
        decreases n - i,
    {
        assert(url@.skip(i as int).skip(1) =~= url@.skip(i + 1));
        assert(url@.take(i as int) + (seq![url@[i as int]] + scheme(url@.skip(i + 1)))
            =~= url@.take(i + 1) + scheme(url@.skip(i + 1)));
        i += 1;
    }
    assert(scheme(url@) =~= url@.take(i as int));
    url.text.as_str().substring_char(0, i).to_owned()
}

/// What `url::Url::parse` makes of a text: the URL, or why it is refused.
pub uninterp spec fn parsed_url(text: Seq<char>) -> Result<Seq<char>, Seq<char>>;

/// What `url::Url::join` makes of a base URL and a reference: the URL that the
/// reference leads to, or why it is refused.
pub uninterp spec fn joined_url(base: Seq<char>, reference: Seq<char>) -> Result<
    Seq<char>,
    Seq<char>,
>;

/// An attempt at a URL in terms of what it says.
pub open spec fn attempt(r: Result<HlsUrl, String>) -> Result<Seq<char>, Seq<char>> {
    match r {
        Ok(url) => Ok(url@),
        Err(reason) => Err(reason@),
    }
}

/// The outcome of an operation that yields a URL in terms of what it says.
pub open spec fn outcome(r: Result<HlsUrl, Error>) -> Result<Seq<char>, ErrorModel> {
    match r {
        Ok(url) => Ok(url@),
        Err(error) => Err(error@),
    }
}

/// Calls `url::Url::parse`. The outcome is a function of the text alone: the
/// serialised URL, or the message of the parse error.
#[verifier::external_body]
fn parse_url(text: &str) -> (r: Result<HlsUrl, String>)
    ensures
        attempt(r) == parsed_url(text@),
{
    match url::Url::parse(text) {
        Ok(url) => Ok(HlsUrl { text: url.to_string() }),
        Err(error) => Err(error.to_string()),
    }
}

/// Calls `url::Url::join` on the URL that the base text spells. The outcome is a
/// function of the two texts alone: the serialised URL, or the message of the
/// parse error.
#[verifier::external_body]
fn join_url(base: &str, reference: &str) -> (r: Result<HlsUrl, String>)
    ensures
        attempt(r) == joined_url(base@, reference@),
{
    match url::Url::parse(base).and_then(|url| url.join(reference)) {
        Ok(url) => Ok(HlsUrl { text: url.to_string() }),
        Err(error) => Err(error.to_string()),
    }
}

/// Whether a URL that stands for `role` is accepted.
pub open spec fn http_only(url: Seq<char>, role: Role) -> Result<Seq<char>, ErrorModel> {
    if http(url) {
        Ok(url)
    } else {
        Err(ErrorModel::about(Fault::UnsupportedScheme(role), scheme(url), seq![]))
    }
}

/// What becomes of an attempt at a URL, `source` being the text it was made from.
pub open spec fn accepted(
    tried: Result<Seq<char>, Seq<char>>,
    source: Seq<char>,
    role: Role,
) -> Result<Seq<char>, ErrorModel> {
    match tried {
        Ok(url) => http_only(url, role),
        Err(reason) => Err(ErrorModel::about(Fault::InvalidUrl(role), source, reason)),
    }
}

/// Accepts HTTP and HTTPS URLs only.
pub fn require_http(url: &HlsUrl, role: Role) -> (r: Result<(), Error>)
    ensures
        match http_only(url@, role) {
            Ok(_) => r is Ok,
            Err(e) => r matches Err(error) && error@ == e,
        },
{
    let scheme: String = scheme_of(url);
    if same_text(scheme.as_str(), "http") || same_text(scheme.as_str(), "https") {
        Ok(())
    } else {
        Err(Error::about(Fault::UnsupportedScheme(role), scheme, String::new()))
    }
}

/// Accepts an attempt at a URL.
pub fn accept(tried: Result<HlsUrl, String>, source: &str, role: Role) -> (r: Result<HlsUrl, Error>)
    ensures
        outcome(r) == accepted(attempt(tried), source@, role),
{
    match tried {
        Ok(url) => match require_http(&url, role) {
            Ok(()) => Ok(url),
            Err(error) => Err(error),
        },
        Err(reason) => Err(Error::about(Fault::InvalidUrl(role), source.to_owned(), reason)),
    }
}

/// What a reference in a playlist at `base` leads to.
pub open spec fn resolved(base: Seq<char>, reference: Seq<char>, role: Role) -> Result<
    Seq<char>,
    ErrorModel,
> {
    accepted(joined_url(base, reference), reference, role)
}

/// Resolves a reference in a playlist at `base`.
pub fn resolve(base: &HlsUrl, reference: &str, role: Role) -> (r: Result<HlsUrl, Error>)
    ensures
        outcome(r) == resolved(base@, reference@, role),
{
    accept(join_url(base.text.as_str(), reference), reference, role)
}

/// Resolves a reference without regard to its scheme.
pub fn join(base: &HlsUrl, reference: &str, role: Role) -> (r: Result<HlsUrl, Error>)
    ensures
        outcome(r) == (match joined_url(base@, reference@) {
            Ok(url) => Ok(url),
            Err(reason) => Err(
                ErrorModel::about(Fault::InvalidUrl(role), reference@, reason),
            ),
        }),
{
    match join_url(base.text.as_str(), reference) {
        Ok(url) => Ok(url),
        Err(reason) => Err(Error::about(Fault::InvalidUrl(role), reference.to_owned(), reason)),
    }
}

/// The URL text that a source URI holds behind its `hls+` prefix.
pub open spec fn wrapped(uri: Seq<char>) -> Option<Seq<char>> {
    if crate::text::starts(uri, "hls+https://"@) {
        Some("https://"@ + uri.skip("hls+https://"@.len() as int))
    } else if crate::text::starts(uri, "hls+http://"@) {
        Some("http://"@ + uri.skip("hls+http://"@.len() as int))
    } else {
        None
    }
}

/// The playlist URL that a source URI stands for.
pub open spec fn unwrapped_uri(uri: Seq<char>) -> Result<Seq<char>, ErrorModel> {
    match wrapped(uri) {
        None => Err(ErrorModel::about(Fault::NotHlsUri, uri, seq![])),
        Some(text) => accepted(parsed_url(text), text, Role::Playlist),
    }
}

/// Turns an `hls+http(s)://` URI into the URL of its playlist.
pub fn unwrap_hls_uri(uri: &str) -> (r: Result<HlsUrl, Error>)
    ensures
        outcome(r) == unwrapped_uri(uri@),
{
    let mut text: String;
    match strip(uri, "hls+https://") {
        Some(rest) => {
            text = "https://".to_owned();
            text.append(rest);
        },
        None => match strip(uri, "hls+http://") {
            Some(rest) => {
                text = "http://".to_owned();
                text.append(rest);
            },
            None => {
                return Err(Error::about(Fault::NotHlsUri, uri.to_owned(), String::new()));
            },
        },
    }
    let tried = parse_url(text.as_str());
    accept(tried, text.as_str(), Role::Playlist)
}

/// Putting `hls+` before the text of an HTTP or HTTPS URL makes a source URI for
/// that very text.
pub proof fn law_prefixed_url_unwraps(text: Seq<char>)
    requires
        crate::text::starts(text, "http://"@) || crate::text::starts(text, "https://"@),
    ensures
        wrapped("hls+"@ + text) == Some(text),
        unwrapped_uri("hls+"@ + text) == accepted(parsed_url(text), text, Role::Playlist),
{
    reveal_strlit("hls+");
    reveal_strlit("http://");
    reveal_strlit("https://");
    reveal_strlit("hls+http://");
    reveal_strlit("hls+https://");
    let uri = "hls+"@ + text;
    if crate::text::starts(text, "https://"@) {
        assert(text.take(8) == "https://"@);
        assert(uri.take(12) =~= "hls+"@ + text.take(8));
        assert(uri.take(12) =~= "hls+https://"@);
        assert("https://"@ + uri.skip(12) =~= text);
    } else {
        assert(text.take(7) == "http://"@);
        assert(uri.take(11) =~= "hls+"@ + text.take(7));
        assert(uri.take(11) =~= "hls+http://"@);
        assert(uri[8] == text[4] && text[4] == text.take(7)[4] && text.take(7)[4] == ':');
        assert(crate::text::starts(uri, "hls+https://"@) ==> uri[8] == uri.take(12)[8]);
        assert("http://"@ + uri.skip(11) =~= text);
    }
}

/// Every playlist URL that a source URI stands for is an HTTP or HTTPS URL.
pub proof fn law_playlists_are_http(uri: Seq<char>)
    ensures
        unwrapped_uri(uri) matches Ok(url) ==> http(url),
{
}

} // verus!
