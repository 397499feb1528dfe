//! What is asked of the upstream server: where it is, and the request that it gets.

use vstd::prelude::*;
use vstd::string::*;
use vstd::utf8::*;

use crate::codec::pair_texts;
use crate::context::{Context, ProxyContext};
use crate::error::{internal_error, Failure, ProxyError};
use crate::number::{decimal, to_decimal};
use crate::proxy::IptvProxy;
use crate::target::UrlParts;
use crate::text::{opt_text, replace, replaced, same_text, until};

verus! {

/// The page that the guarded hosts take requests from.
pub const REFERER_VALUE: &'static str = "https://missav.ws/dm242/cn";

/// The browser that the guarded hosts take requests from.
pub const USER_AGENT: &'static str = "Mozilla/5.0 (Windows NT 10.0; Win64; x64) AppleWebKit/537.36 (KHTML, like Gecko) Chrome/120.0.0.0 Safari/537.36";

// ---------------------------------------------------------------------------
// The server
// ---------------------------------------------------------------------------

/// An upstream server. Its name in the TLS handshake is its host.
#[derive(Debug)]
pub struct Peer {
    pub host: String,
    pub port: u16,
    pub tls: bool,
}

/// What a [`Peer`] holds.
pub struct Server {
    pub host: Seq<char>,
    pub port: u16,
    pub tls: bool,
}

impl View for Peer {
    type V = Server;

    open spec fn view(&self) -> Server {
        Server { host: self.host@, port: self.port, tls: self.tls }
    }
}

/// The server of a URL.
pub open spec fn server_of(url: UrlParts) -> Server {
    let tls = url.scheme == "https"@;
    Server {
        host: url.host_or("localhost"@),
        port: match url.port {
            Some(port) => port,
            None => if tls {
                443
            } else {
                80
            },
        },
        tls,
    }
}

// ---------------------------------------------------------------------------
// The request
// ---------------------------------------------------------------------------

/// The request for the upstream server: its URI, where it is to be changed, the headers that are
/// inserted, in order, and whether the header `Accept-Encoding` is removed.
#[derive(Debug)]
pub struct RequestPlan {
    pub uri: Option<String>,
    pub headers: Vec<(String, String)>,
    pub remove_accept_encoding: bool,
}

/// What a [`RequestPlan`] holds.
pub struct RequestEdits {
    pub uri: Option<Seq<char>>,
    pub headers: Seq<(Seq<char>, Seq<char>)>,
    pub remove_accept_encoding: bool,
}

impl View for RequestPlan {
    type V = RequestEdits;

    open spec fn view(&self) -> RequestEdits {
        RequestEdits {
            uri: opt_text(self.uri),
            headers: pair_texts(self.headers@),
            remove_accept_encoding: self.remove_accept_encoding,
        }
    }
}

/// The path of a URL, with its query.
pub open spec fn path_and_query(url: UrlParts) -> Seq<char> {
    match url.query {
        Some(query) => url.path + "?"@ + query,
        None => url.path,
    }
}

/// The URI of the upstream request.
pub open spec fn upstream_uri(url: UrlParts, needs_jpeg_fix: bool) -> Seq<char> {
    if needs_jpeg_fix {
        replaced(path_and_query(url), ".ts"@, ".jpeg"@)
    } else {
        path_and_query(url)
    }
}

/// The header `Host` of the upstream request.
pub open spec fn host_header(url: UrlParts) -> Seq<char> {
    match url.port {
        Some(port) => url.host_or("localhost"@) + ":"@ + decimal(port as nat),
        None => url.host_or("localhost"@),
    }
}

/// The headers of a request that comes from a page of the guarded site.
pub open spec fn site_headers() -> Seq<(Seq<char>, Seq<char>)> {
    seq![
        ("Referer"@, REFERER_VALUE@),
        ("User-Agent"@, USER_AGENT@),
        ("Accept"@, "*/*"@),
    ]
}

/// The headers that are inserted for a request.
pub open spec fn inserted_headers(c: Context) -> Seq<(Seq<char>, Seq<char>)> {
    (match c.target_url {
        Some(url) => seq![("Host"@, host_header(url))],
        None => seq![],
    }) + (if c.needs_referer {
        site_headers()
    } else {
        seq![]
    })
}

/// What becomes of the upstream request.
pub open spec fn request_edits(c: Context) -> Result<RequestEdits, Failure> {
    let uri = match c.target_url {
        Some(url) => Some(upstream_uri(url, c.needs_jpeg_fix)),
        None => None,
    };
    let problem = match uri {
        Some(text) => uri_problem(text),
        None => None,
    };
    match problem {
        Some(message) => Err(internal_error("Invalid URI: "@ + message)),
        None => Ok(
            RequestEdits {
                uri,
                headers: inserted_headers(c),
                remove_accept_encoding: c.needs_rewrite_iptv || c.needs_rewrite_surrit,
            },
        ),
    }
}

/// What the outcome of planning holds.
pub open spec fn plan_outcome(r: Result<RequestPlan, ProxyError>) -> Result<RequestEdits, Failure> {
    match r {
        Ok(plan) => Ok(plan@),
        Err(error) => Err(error@),
    }
}

// ---------------------------------------------------------------------------
// Which texts are URIs
// ---------------------------------------------------------------------------

/// A character that may stand in the path of a URI.
pub open spec fn is_path_char(c: char) -> bool {
    ||| c == '!'
    ||| c == '"'
    ||| '$' <= c <= ';'
    ||| c == '='
    ||| '@' <= c <= '_'
    ||| 'a' <= c <= '~'
    ||| '\u{80}' <= c
}

/// A character that may stand in the query of a URI.
pub open spec fn is_query_char(c: char) -> bool {
    ||| c == '!'
    ||| '$' <= c <= ';'
    ||| c == '='
    ||| '?' <= c <= '~'
    ||| '\u{80}' <= c
}

/// A path and query without fragment in which every character may stand.
pub open spec fn is_path_and_query(s: Seq<char>) -> bool {
    let end = until(s, '?');
    forall|i: int|
        0 <= i < s.len() && i != end ==> (if i < end {
            is_path_char(#[trigger] s[i])
        } else {
            is_query_char(s[i])
        })
}

/// What is wrong with a text that begins with a slash, if it is no URI. A fragment is not looked
/// at.
pub open spec fn origin_form_problem(text: Seq<char>) -> Option<Seq<char>> {
    if encode_utf8(text).len() > 65534 {
        Some("uri too long"@)
    } else if !is_path_and_query(text.take(until(text, '#') as int)) {
        Some("invalid uri character"@)
    } else {
        None
    }
}

/// The message of the error with which `Uri::try_from` refuses a text that does not begin with a
/// slash; `None` if it accepts the text.
pub uninterp spec fn other_form_problem(text: Seq<char>) -> Option<Seq<char>>;

/// What is wrong with a text, if it is no URI.
pub open spec fn uri_problem(text: Seq<char>) -> Option<Seq<char>> {
    if text.len() > 0 && text[0] == '/' {
        origin_form_problem(text)
    } else {
        other_form_problem(text)
    }
}

/// `http::Uri::try_from` accepts a text that begins with a slash if it is not too long and all its
/// characters may stand in a path and query, and refuses others with one of two messages. Of other
/// texts (an authority, an absolute URI) it is only said that the text alone decides.
#[verifier::external_body]
fn check_uri(text: &str) -> (r: Option<String>)
    ensures
        opt_text(r) == uri_problem(text@),
        !(text@.len() > 0 && text@[0] == '/') ==> opt_text(r) == other_form_problem(text@),
{
    match http::Uri::try_from(text.to_owned()) {
        Ok(_) => None,
        Err(error) => Some(error.to_string()),
    }
}

// ---------------------------------------------------------------------------
// The filters
// ---------------------------------------------------------------------------

/// Appends a header.
fn add_header(headers: &mut Vec<(String, String)>, name: &str, value: &str)
    ensures
        pair_texts(final(headers)@) == pair_texts(old(headers)@).push((name@, value@)),
{
    headers.push((name.to_owned(), value.to_owned()));
    assert(pair_texts(headers@) =~= pair_texts(old(headers)@).push((name@, value@)));
}

impl IptvProxy {
    /// The server that a request is forwarded to.
    pub fn upstream_peer(&self, ctx: &ProxyContext) -> (r: Result<Peer, ProxyError>)
        ensures
            match ctx@.target_url {
                Some(url) => r is Ok && r->Ok_0@ == server_of(url),
                None => r is Err && r->Err_0@ == internal_error("No target URL"@),
            },
    {
        let target = match &ctx.target_url {
            Some(target) => target,
            None => {
                return Err(ProxyError::internal("No target URL"));
            },
        };
        let host = target.host_or("localhost");
        let tls = same_text(target.scheme.as_str(), "https");
        let port: u16 = match target.port {
            Some(port) => port,
            None => if tls {
                443
            } else {
                80
            },
        };
        Ok(Peer { host, port, tls })
    }

    /// The request that the upstream server gets.
    pub fn upstream_request_filter(&self, ctx: &ProxyContext) -> (r: Result<RequestPlan, ProxyError>)
        ensures
            plan_outcome(r) == request_edits(ctx@),
    {
        let mut headers: Vec<(String, String)> = Vec::new();
        let mut uri: Option<String> = None;
        assert(pair_texts(headers@) =~= seq![]);
        if let Some(url) = &ctx.target_url {
            let mut text = url.path.clone();
            if let Some(query) = &url.query {
                text.append("?");
                text.append(query.as_str());
            }
            if ctx.needs_jpeg_fix {
                proof {
                    reveal_strlit(".ts");
                }
                text = replace(text.as_str(), ".ts", ".jpeg");
            }
            if let Some(message) = check_uri(text.as_str()) {
                return Err(
                    ProxyError::internal("Invalid URI: ".to_owned().concat(message.as_str()).as_str()),
                );
            }
            uri = Some(text);
            let mut host = url.host_or("localhost");
            if let Some(port) = url.port {
                host.append(":");
                host.append(to_decimal(port).as_str());
            }
            add_header(&mut headers, "Host", host.as_str());
        }
        let ghost before = pair_texts(headers@);
        if ctx.needs_referer {
            add_header(&mut headers, "Referer", REFERER_VALUE);
            add_header(&mut headers, "User-Agent", USER_AGENT);
            add_header(&mut headers, "Accept", "*/*");
            assert(pair_texts(headers@) =~= before + site_headers());
        }
        assert(pair_texts(headers@) =~= inserted_headers(ctx@));
        let remove_accept_encoding = ctx.needs_rewrite_iptv || ctx.needs_rewrite_surrit;
        Ok(RequestPlan { uri, headers, remove_accept_encoding })
    }
}

} // verus!
