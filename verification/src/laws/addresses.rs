//! URLs, told by their characters and by what the URL parser makes of them.

use vstd::prelude::*;
use crate::address::HlsUrl;
use crate::fault::{Error, ErrorModel, Fault, Role};

verus! {

/// Whether a text begins with given characters.
pub open spec fn begins(text: Seq<char>, with: Seq<char>) -> bool {
    with.len() <= text.len() && forall|i: int| 0 <= i < with.len() ==> text[i] == with[i]
}

/// Whether a text is written with the scheme of HTTP or HTTPS.
pub open spec fn web(text: Seq<char>) -> bool {
    begins(text, seq!['h', 't', 't', 'p', ':']) || begins(text, seq!['h', 't', 't', 'p', 's', ':'])
}

/// The scheme is what stands before the first colon.
pub proof fn law_scheme_precedes_the_colon(name: Seq<char>, rest: Seq<char>)
    requires
        !name.contains(':'),
    ensures
        crate::address::scheme(name + seq![':'] + rest) == name,
        crate::address::http(name + seq![':'] + rest) <==> name == seq!['h', 't', 't', 'p'] || name
            == seq!['h', 't', 't', 'p', 's'],
    decreases name.len(),
{
    reveal_strlit("http");
    reveal_strlit("https");
    assert("http"@ =~= seq!['h', 't', 't', 'p']);
    assert("https"@ =~= seq!['h', 't', 't', 'p', 's']);
    let whole = name + seq![':'] + rest;
    if name.len() == 0 {
        assert(whole[0] == ':');
        assert(crate::address::scheme(whole) =~= name);
    } else {
        assert(name[0] != ':') by {
            assert(name.contains(name[0]));
        }
        let less = name.skip(1);
        assert(!less.contains(':')) by {
            if less.contains(':') {
                let i = choose|i: int| 0 <= i < less.len() && less[i] == ':';
                assert(name[i + 1] == ':');
            }
        }
        law_scheme_precedes_the_colon(less, rest);
        assert(whole.skip(1) =~= less + seq![':'] + rest);
        assert(seq![whole[0]] + less =~= name);
    }
}

/// Without a colon, all of a text counts as its scheme.
pub proof fn law_scheme_without_a_colon(text: Seq<char>)
    requires
        !text.contains(':'),
    ensures
        crate::address::scheme(text) == text,
    decreases text.len(),
{
    if text.len() == 0 {
        assert(crate::address::scheme(text) =~= text);
    } else {
        assert(text[0] != ':') by {
            assert(text.contains(text[0]));
        }
        let less = text.skip(1);
        assert(!less.contains(':')) by {
            if less.contains(':') {
                let i = choose|i: int| 0 <= i < less.len() && less[i] == ':';
                assert(text[i + 1] == ':');
            }
        }
        law_scheme_without_a_colon(less);
        assert(seq![text[0]] + less =~= text);
    }
}

/// A URL with a colon counts as HTTP exactly where it begins with `http:` or
/// `https:`.
pub proof fn law_http_by_prefix(url: Seq<char>)
    requires
        url.contains(':'),
    ensures
        crate::address::http(url) <==> web(url),
{
    let i = url.index_of_first(':')->0;
    url.index_of_first_ensures(':');
    let name = url.take(i);
    let rest = url.skip(i + 1);
    assert(url =~= name + seq![':'] + rest);
    assert(!name.contains(':')) by {
        if name.contains(':') {
            let j = choose|j: int| 0 <= j < name.len() && name[j] == ':';
            assert(url[j] == ':');
        }
    }
    law_scheme_precedes_the_colon(name, rest);
    let short = seq!['h', 't', 't', 'p', ':'];
    let long = seq!['h', 't', 't', 'p', 's', ':'];
    if begins(url, short) {
        assert(url[4] == short[4] && url[0] == short[0] && url[1] == short[1] && url[2] == short[2]
            && url[3] == short[3]);
        assert(i == 4) by {
            assert(url[i] == ':');
        }
        assert(name =~= seq!['h', 't', 't', 'p']);
    } else if begins(url, long) {
        assert(url[4] == long[4] && url[0] == long[0] && url[1] == long[1] && url[2] == long[2]
            && url[3] == long[3] && url[5] == long[5]);
        assert(i == 5) by {
            assert(url[i] == ':');
        }
        assert(name =~= seq!['h', 't', 't', 'p', 's']);
    } else if name == seq!['h', 't', 't', 'p'] {
        assert(i == 4);
        assert(name[0] == 'h' && name[1] == 't' && name[2] == 't' && name[3] == 'p');
        assert(begins(url, short));
    } else if name == seq!['h', 't', 't', 'p', 's'] {
        assert(i == 5);
        assert(name[0] == 'h' && name[1] == 't' && name[2] == 't' && name[3] == 'p' && name[4]
            == 's');
        assert(begins(url, long));
    }
}

/// A reference leads where joining it with the playlist's own URL leads, if that
/// is an HTTP or HTTPS URL. Any other URL is refused by its scheme, and a
/// reference that cannot be joined for the parser's reason.
pub proof fn law_references_are_joined(base: Seq<char>, reference: Seq<char>, role: Role)
    ensures
        crate::address::resolved(base, reference, role) == (match crate::address::joined_url(
            base,
            reference,
        ) {
            Ok(url) => if crate::address::http(url) {
                Ok(url)
            } else {
                Err(
                    ErrorModel {
                        fault: Fault::UnsupportedScheme(role),
                        segment: None,
                        subject: crate::address::scheme(url),
                        reason: seq![],
                    },
                )
            },
            Err(reason) => Err(
                ErrorModel {
                    fault: Fault::InvalidUrl(role),
                    segment: None,
                    subject: reference,
                    reason,
                },
            ),
        }),
{
}

/// An attempt at a URL is accepted where it gave an HTTP or HTTPS URL, whatever
/// it was made from.
pub proof fn law_accepted_attempts(
    tried: Result<Seq<char>, Seq<char>>,
    source: Seq<char>,
    role: Role,
)
    ensures
        crate::address::accepted(tried, source, role) is Ok <==> tried is Ok
            && crate::address::http(tried->Ok_0),
        crate::address::accepted(tried, source, role) matches Ok(url) ==> tried == Ok::<
            Seq<char>,
            Seq<char>,
        >(url),
        tried matches Ok(url) ==> (crate::address::accepted(tried, source, role) matches Err(e)
            ==> e.fault == Fault::UnsupportedScheme(role) && e.segment is None && e.subject
            == crate::address::scheme(url) && e.reason.len() == 0),
        tried matches Err(reason) ==> (crate::address::accepted(tried, source, role) matches Err(e)
            ==> e.fault == Fault::InvalidUrl(role) && e.segment is None && e.subject == source
            && e.reason == reason),
{
}

/// Outcomes say what their URLs and errors say.
pub proof fn law_outcomes_say_their_parts(
    tried: Result<HlsUrl, String>,
    r: Result<HlsUrl, Error>,
)
    ensures
        match tried {
            Ok(url) => crate::address::attempt(tried) == Ok::<Seq<char>, Seq<char>>(url.text@),
            Err(reason) => crate::address::attempt(tried) == Err::<Seq<char>, Seq<char>>(reason@),
        },
        match r {
            Ok(url) => crate::address::outcome(r) == Ok::<Seq<char>, ErrorModel>(url.text@),
            Err(error) => crate::address::outcome(r) == Err::<Seq<char>, ErrorModel>(error@),
        },
{
}

/// A source URI is `hls+` and the URL of its playlist: what the parser makes of
/// the text behind those four characters, if it is an HTTP or HTTPS URL. A URI
/// that does not begin with `hls+http://` or `hls+https://` is none.
pub proof fn law_source_uris(uri: Seq<char>, url: Seq<char>)
    ensures
        !begins(uri, "hls+http://"@) && !begins(uri, "hls+https://"@)
            ==> crate::address::unwrapped_uri(uri) == Err::<Seq<char>, ErrorModel>(
            ErrorModel { fault: Fault::NotHlsUri, segment: None, subject: uri, reason: seq![] },
        ),
        begins(uri, "hls+http://"@) || begins(uri, "hls+https://"@)
            ==> crate::address::unwrapped_uri(uri) == (match crate::address::parsed_url(
            uri.skip(4),
        ) {
            Ok(url) => if crate::address::http(url) {
                Ok(url)
            } else {
                Err(
                    ErrorModel {
                        fault: Fault::UnsupportedScheme(Role::Playlist),
                        segment: None,
                        subject: crate::address::scheme(url),
                        reason: seq![],
                    },
                )
            },
            Err(reason) => Err(
                ErrorModel {
                    fault: Fault::InvalidUrl(Role::Playlist),
                    segment: None,
                    subject: uri.skip(4),
                    reason,
                },
            ),
        }),
{
    reveal_strlit("http://");
    reveal_strlit("https://");
    reveal_strlit("hls+http://");
    reveal_strlit("hls+https://");
    let short = "hls+http://"@;
    let long = "hls+https://"@;
    if begins(uri, short) {
        assert(uri.take(11) =~= short);
    }
    if crate::text::starts(uri, short) {
        assert(forall|i: int| 0 <= i < 11 ==> uri[i] == uri.take(11)[i]);
    }
    if begins(uri, long) {
        assert(uri.take(12) =~= long);
    }
    if crate::text::starts(uri, long) {
        assert(forall|i: int| 0 <= i < 12 ==> uri[i] == uri.take(12)[i]);
    }
    if begins(uri, long) {
        assert("https://"@ + uri.skip(12) =~= uri.skip(4));
    } else if begins(uri, short) {
        assert("http://"@ + uri.skip(11) =~= uri.skip(4));
    }
}

} // verus!
