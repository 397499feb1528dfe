//! What the upstream server is asked, what the client gets of its answer, and what is logged.

use vstd::prelude::*;

use crate::codec::url_encoded;
use crate::context::{Context, ProxyContext, RouteMode};
use crate::error::{ErrorKind, Failure, ProxyError};
use crate::laws::{has_empty_query, redirect_leads_to_its_location, visit};
use crate::number::decimal;
use crate::reading::occurrences_are_replaced_in_turn;
use crate::replacing::replacing_around;
use crate::response::{log_line, response_edits, ResponsePlan};
use crate::route::{Action, RequestAction};
use crate::target::{url_parse, TargetUrl, UrlParts};
use crate::text::{has_part, lemma_until};
use crate::upstream::{
    inserted_headers, request_edits, server_of, upstream_uri, uri_problem, Peer, RequestPlan,
};

verus! {

// ---------------------------------------------------------------------------
// What the types hold
// ---------------------------------------------------------------------------

/// Nothing is known of a new request.
pub proof fn new_state_is_empty()
    ensures
        Context::fresh().route_mode == RouteMode::IptvDirect,
        Context::fresh().target_url is None,
        Context::fresh().base_url is None,
        !Context::fresh().is_m3u8,
        !Context::fresh().needs_referer,
        !Context::fresh().needs_rewrite_iptv,
        !Context::fresh().needs_rewrite_surrit,
        !Context::fresh().needs_jpeg_fix,
{
}

/// Contracts see every field of a state.
pub proof fn state_is_seen_whole(ctx: ProxyContext)
    ensures
        ctx@.route_mode == ctx.route_mode,
        ctx@.is_m3u8 == ctx.is_m3u8,
        ctx@.needs_referer == ctx.needs_referer,
        ctx@.needs_rewrite_iptv == ctx.needs_rewrite_iptv,
        ctx@.needs_rewrite_surrit == ctx.needs_rewrite_surrit,
        ctx@.needs_jpeg_fix == ctx.needs_jpeg_fix,
        match ctx.target_url {
            Some(url) => ctx@.target_url == Some(url@),
            None => ctx@.target_url is None,
        },
        match ctx.base_url {
            Some(base) => ctx@.base_url == Some(base@),
            None => ctx@.base_url is None,
        },
{
}

/// Contracts see every part of a URL and of a server.
pub proof fn target_is_seen_whole(url: TargetUrl, peer: Peer)
    ensures
        url@.scheme == url.scheme@,
        url@.port == url.port,
        url@.path == url.path@,
        match url.host {
            Some(host) => url@.host == Some(host@),
            None => url@.host is None,
        },
        match url.query {
            Some(query) => url@.query == Some(query@),
            None => url@.query is None,
        },
        peer@.host == peer.host@,
        peer@.port == peer.port,
        peer@.tls == peer.tls,
{
}

/// Contracts see everything of a plan for the upstream request, header by header.
pub proof fn request_plan_is_seen_whole(plan: RequestPlan, i: int)
    ensures
        match plan.uri {
            Some(uri) => plan@.uri == Some(uri@),
            None => plan@.uri is None,
        },
        plan@.remove_accept_encoding == plan.remove_accept_encoding,
        plan@.headers.len() == plan.headers@.len(),
        0 <= i < plan.headers@.len() ==> plan@.headers[i] == (
            plan.headers@[i].0@,
            plan.headers@[i].1@,
        ),
{
}

/// Contracts see everything of a plan for the response and of a failure.
pub proof fn response_plan_is_seen_whole(plan: ResponsePlan, error: ProxyError)
    ensures
        match plan.location {
            Some(place) => plan@.location == Some(place@),
            None => plan@.location is None,
        },
        plan@.remove_content_length == plan.remove_content_length,
        error@.kind == error.kind,
        error@.message == error.message@,
{
}

/// Contracts see everything of what is done with a request.
pub proof fn action_is_seen_whole(action: RequestAction)
    ensures
        match action {
            RequestAction::Respond { status, body } => {
                &&& action@ matches Action::Respond { status: seen, body: text }
                &&& seen == status
                &&& body is None ==> text is None
                &&& body matches Some(s) ==> text == Some(s@)
            },
            RequestAction::Forward => action@ is Forward,
            RequestAction::ForwardAs { raw_path, host } => {
                &&& action@ matches Action::ForwardAs { raw_path: path, host: name }
                &&& path == raw_path@
                &&& name == host@
            },
        },
{
}

// ---------------------------------------------------------------------------
// The upstream server
// ---------------------------------------------------------------------------

/// A request goes to the host of its target, or to this machine if it has none; to its port, or to
/// the scheme's own; and over TLS just if the scheme is `https`.
pub proof fn request_goes_to_its_target(url: UrlParts)
    ensures
        url.host matches Some(host) ==> server_of(url).host == host,
        url.host is None ==> server_of(url).host == "localhost"@,
        url.port matches Some(port) ==> server_of(url).port == port,
        url.port is None && url.scheme == "https"@ ==> server_of(url).port == 443,
        url.port is None && url.scheme != "https"@ ==> server_of(url).port == 80,
        server_of(url).tls <==> url.scheme == "https"@,
{
}

/// Without the wish to restore the original name, the upstream server is asked for the path and the
/// query of the target as they are.
pub proof fn target_is_asked_for_as_it_is(url: UrlParts)
    ensures
        match url.query {
            Some(query) => upstream_uri(url, false) == url.path + "?"@ + query,
            None => upstream_uri(url, false) == url.path,
        },
{
}

/// Where the original name is to be restored, path and query are dealt with each by itself.
pub proof fn names_are_restored_on_both_sides(url: UrlParts, query: Seq<char>)
    requires
        url.query == Some(query),
    ensures
        upstream_uri(url, true) == upstream_uri(UrlParts { query: None, ..url }, true) + "?"@
            + upstream_uri(UrlParts { path: query, query: None, ..url }, true),
{
    reveal_strlit("?");
    reveal_strlit(".ts");
    assert(url.path + "?"@ + query =~= url.path.push('?') + query);
    replacing_around(url.path, '?', query, ".ts"@, ".jpeg"@);
    assert(upstream_uri(url, true) =~= upstream_uri(UrlParts { query: None, ..url }, true) + "?"@
        + upstream_uri(UrlParts { path: query, query: None, ..url }, true));
}

/// Where the original name is to be restored, every `.ts` becomes `.jpeg` in turn, and nothing else
/// changes.
pub proof fn names_are_restored_in_turn(url: UrlParts, before: Seq<char>, after: Seq<char>)
    requires
        url.query is None,
        !has_part(before, ".ts"@),
    ensures
        upstream_uri(UrlParts { path: before, ..url }, true) == before,
        upstream_uri(UrlParts { path: before + ".ts"@ + after, ..url }, true) == before + ".jpeg"@
            + upstream_uri(UrlParts { path: after, ..url }, true),
{
    reveal_strlit(".ts");
    occurrences_are_replaced_in_turn(before, ".ts"@, after, ".jpeg"@);
}

/// The headers that a request gets, from its target and from whether those of the guarded site are to
/// be sent, and from nothing else: neither the entrance nor what is rewritten or restored matters.
pub proof fn headers_follow_target_and_site(c: Context, url: UrlParts)
    requires
        c.target_url == Some(url),
    ensures
        ({
            let host = match url.host {
                Some(host) => host,
                None => "localhost"@,
            };
            let host = match url.port {
                Some(port) => host + ":"@ + decimal(port as nat),
                None => host,
            };
            inserted_headers(c) == (if c.needs_referer {
                seq![
                    ("Host"@, host),
                    ("Referer"@, "https://missav.ws/dm242/cn"@),
                    (
                        "User-Agent"@,
                        "Mozilla/5.0 (Windows NT 10.0; Win64; x64) AppleWebKit/537.36 (KHTML, like Gecko) Chrome/120.0.0.0 Safari/537.36"@,
                    ),
                    ("Accept"@, "*/*"@),
                ]
            } else {
                seq![("Host"@, host)]
            })
        }),
{
    assert(inserted_headers(c) =~= (if c.needs_referer {
        seq![
            inserted_headers(c)[0],
            ("Referer"@, "https://missav.ws/dm242/cn"@),
            (
                "User-Agent"@,
                "Mozilla/5.0 (Windows NT 10.0; Win64; x64) AppleWebKit/537.36 (KHTML, like Gecko) Chrome/120.0.0.0 Safari/537.36"@,
            ),
            ("Accept"@, "*/*"@),
        ]
    } else {
        seq![inserted_headers(c)[0]]
    }));
}

/// The upstream request is planned just if its URI is one; then it gets that URI and the headers,
/// and compression is declined just if the body is to be rewritten.
pub proof fn request_is_planned_if_its_uri_is_one(c: Context, url: UrlParts)
    requires
        c.target_url == Some(url),
    ensures
        match uri_problem(upstream_uri(url, c.needs_jpeg_fix)) {
            None => {
                &&& request_edits(c) matches Ok(edits)
                &&& edits.uri == Some(upstream_uri(url, c.needs_jpeg_fix))
                &&& edits.headers == inserted_headers(c)
                &&& edits.remove_accept_encoding <==> c.needs_rewrite_iptv || c.needs_rewrite_surrit
            },
            Some(message) => {
                &&& request_edits(c) matches Err(failure)
                &&& failure.kind == ErrorKind::InternalError
                &&& failure.message == "Invalid URI: "@ + message
            },
        },
{
}

/// Without target the URI stays, and only the headers of the guarded site are sent.
pub proof fn request_without_target_keeps_its_uri(c: Context)
    requires
        c.target_url is None,
    ensures
        request_edits(c) matches Ok(edits) && {
            &&& edits.uri is None
            &&& edits.remove_accept_encoding <==> c.needs_rewrite_iptv || c.needs_rewrite_surrit
            &&& edits.headers == (if c.needs_referer {
                seq![
                    ("Referer"@, "https://missav.ws/dm242/cn"@),
                    (
                        "User-Agent"@,
                        "Mozilla/5.0 (Windows NT 10.0; Win64; x64) AppleWebKit/537.36 (KHTML, like Gecko) Chrome/120.0.0.0 Safari/537.36"@,
                    ),
                    ("Accept"@, "*/*"@),
                ]
            } else {
                seq![]
            })
        },
{
}

/// A plain path and query is a URI: a slash, and then letters, digits and the marks that stand for
/// themselves, up to the greatest length.
pub proof fn plain_texts_are_uris(text: Seq<char>)
    requires
        0 < text.len() <= 65534,
        text[0] == '/',
        forall|i: int|
            0 <= i < text.len() ==> {
                ||| '0' <= #[trigger] text[i] <= '9'
                ||| 'A' <= text[i] <= 'Z'
                ||| 'a' <= text[i] <= 'z'
                ||| "/?&=%+-._~:,;@!$'()*"@.contains(text[i])
            },
    ensures
        uri_problem(text) is None,
{
    reveal_strlit("/?&=%+-._~:,;@!$'()*");
    assert forall|i: int| 0 <= i < text.len() implies '!' <= #[trigger] text[i] <= '~' && text[i]
        != '#' && text[i] != '"' && text[i] != '<' && text[i] != '>' && text[i] != '`' by {
        if "/?&=%+-._~:,;@!$'()*"@.contains(text[i]) {
            let k = "/?&=%+-._~:,;@!$'()*"@.index_of(text[i]);
            assert("/?&=%+-._~:,;@!$'()*"@[k] == text[i]);
        }
    }
    assert(vstd::utf8::is_ascii_chars(text));
    vstd::utf8::is_ascii_chars_encode_utf8(text);
    lemma_until(text, '#');
    assert(text.take(text.len() as int) =~= text);
    lemma_until(text, '?');
}

// ---------------------------------------------------------------------------
// The response
// ---------------------------------------------------------------------------

/// A redirect leads back to the proxy by the entrance that was used, whatever else is known of the
/// request. No other response, and none without location, gets one.
pub proof fn redirects_are_led_back(status: u16, location: Seq<char>, c: Context)
    ensures
        response_edits(status, None, c).location is None,
        ({
            let edits = response_edits(status, Some(location), c);
            if status == 301 || status == 302 || status == 307 || status == 308 {
                edits.location == Some(
                    if c.route_mode == RouteMode::AntiLeechQuery {
                        "/?url="@ + url_encoded(location)
                    } else {
                        "/iptv/"@ + location
                    },
                )
            } else {
                edits.location is None
            }
        }),
{
}

/// Following a redirect leads to the location that the upstream server gave, by `?url=` if the
/// request came in that way, else by `/iptv/`, unless it is handed on unencoded and ends with its
/// first question mark.
pub proof fn followed_redirect_leads_to_its_location(
    status: u16,
    location: Seq<char>,
    c: Context,
    next: Context,
)
    requires
        status == 301 || status == 302 || status == 307 || status == 308,
        c.route_mode == RouteMode::AntiLeechQuery || !has_empty_query(location),
    ensures
        ({
            let place = response_edits(status, Some(location), c).location;
            let e = visit(place->0, next);
            &&& place is Some
            &&& url_parse(location) matches Ok(parts) ==> {
                &&& e.context.target_url matches Some(target)
                &&& target.scheme == parts.scheme
                &&& target.host == parts.host
                &&& target.port == parts.port
                &&& target.path == parts.path
                &&& if c.route_mode == RouteMode::AntiLeechQuery {
                    &&& e.context.route_mode == RouteMode::AntiLeechQuery
                    &&& target == parts
                    &&& e.outcome is Ok
                } else {
                    &&& e.context.route_mode == RouteMode::IptvDirect
                    &&& !parts.pairs().contains(("real_ext"@, "jpeg"@)) ==> target == parts
                    &&& e.outcome == Ok::<Action, Failure>(Action::Forward)
                }
            }
            &&& url_parse(location) is Err ==> e.outcome is Err
        }),
{
    redirect_leads_to_its_location(c.route_mode, location, next);
}

/// The length of a body is not announced just if it is to be rewritten, whatever the status and the
/// location.
pub proof fn length_is_announced_unless_rewritten(
    status: u16,
    location: Option<Seq<char>>,
    c: Context,
)
    ensures
        response_edits(status, location, c).remove_content_length <==> c.needs_rewrite_iptv
            || c.needs_rewrite_surrit,
{
}

// ---------------------------------------------------------------------------
// The log
// ---------------------------------------------------------------------------

/// The line in the log names the client, the method, the path and the status, and then the error.
pub proof fn log_names_everything(
    client: Seq<char>,
    method: Seq<char>,
    path: Seq<char>,
    status: u16,
    error: Seq<char>,
)
    ensures
        log_line(Some(client), method, path, Some(status), None) == client + " "@ + method + " "@
            + path + " - Status:"@ + decimal(status as nat),
        forall|client: Option<Seq<char>>, status: Option<u16>| #[trigger]
            log_line(client, method, path, status, Some(error)) == log_line(
                client,
                method,
                path,
                status,
                None,
            ) + " Error:"@ + error,
        forall|status: Option<u16>, error: Option<Seq<char>>| #[trigger]
            log_line(None, method, path, status, error) == log_line(
                Some("unknown"@),
                method,
                path,
                status,
                error,
            ),
        forall|client: Option<Seq<char>>, error: Option<Seq<char>>| #[trigger]
            log_line(client, method, path, None, error) == log_line(
                client,
                method,
                path,
                Some(0),
                error,
            ),
{
}

} // verus!
