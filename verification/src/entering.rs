//! What each entrance does with a request: every answer, and every field of the state that it leaves.

use vstd::prelude::*;

use crate::codec::{query_pairs, url_decoded};
use crate::context::{Context, RouteMode};
use crate::error::{ErrorKind, Failure};
use crate::number::{bounded_value, decimal, is_digit};
use crate::pattern::{
    is_port_char, lemma_best_is_unique, parts_fit_best, parts_with_port, proxy_parts, PathParts,
};
use crate::reading::{
    first_with_prefix_is_in_front, middle_is_found, pieces_stand_between_separators,
    text_is_kept_through_the_last_mark,
};
use crate::route::{entry, is_guarded_host, proxied_url, query_target, Action, Entry};
use crate::target::{query_reads_back, upstream_pairs, url_parse, UrlParts};
use crate::text::{fields, has_part, through_last};

verus! {

// ---------------------------------------------------------------------------
// Answers
// ---------------------------------------------------------------------------

/// The health check, and the root without a URL in its query, is answered `OK`.
pub proof fn health_check_is_answered(path: Seq<char>, query: Seq<char>, c: Context)
    requires
        path == "/health"@ || (path == "/"@ && !has_part(query, "url="@)),
    ensures
        entry(path, query, c).context == c,
        entry(path, query, c).outcome == Ok::<Action, Failure>(
            Action::Respond { status: 200, body: Some("OK"@) },
        ),
{
}

/// There is no icon.
pub proof fn icon_is_not_found(query: Seq<char>, c: Context)
    ensures
        entry("/favicon.ico"@, query, c).context == c,
        entry("/favicon.ico"@, query, c).outcome == Ok::<Action, Failure>(
            Action::Respond { status: 404, body: None },
        ),
{
    reveal_strlit("/favicon.ico");
    reveal_strlit("/health");
    reveal_strlit("/");
    assert("/favicon.ico"@.len() != "/health"@.len());
}

// ---------------------------------------------------------------------------
// `/iptv/<URL>`
// ---------------------------------------------------------------------------

/// A path that begins with `/iptv/` is no other entrance.
proof fn lemma_iptv_path(url: Seq<char>)
    ensures
        "/iptv/"@.is_prefix_of("/iptv/"@ + url),
        "/iptv/"@ + url != "/health"@,
        "/iptv/"@ + url != "/"@,
        "/iptv/"@ + url != "/favicon.ico"@,
        ("/iptv/"@ + url).skip("/iptv/"@.len() as int) == url,
{
    reveal_strlit("/iptv/");
    reveal_strlit("/health");
    reveal_strlit("/favicon.ico");
    reveal_strlit("/");
    let path = "/iptv/"@ + url;
    assert(path.subrange(0, 6) =~= "/iptv/"@);
    assert(path[1] == 'i');
    assert("/health"@[1] == 'h');
    assert("/favicon.ico"@[1] == 'f');
    assert(path.skip(6) =~= url);
}

/// A URL behind `/iptv/` that does not parse is refused; nothing of the state changes but the
/// entrance.
pub proof fn bad_iptv_url_is_refused(
    url: Seq<char>,
    query: Seq<char>,
    message: Seq<char>,
    c: Context,
)
    requires
        url_parse(
            if query.len() == 0 {
                url
            } else {
                url + "?"@ + query
            },
        ) == Err::<UrlParts, Seq<char>>(message),
    ensures
        entry("/iptv/"@ + url, query, c).context == (Context {
            route_mode: RouteMode::IptvDirect,
            ..c
        }),
        entry("/iptv/"@ + url, query, c).outcome == Err::<Action, Failure>(
            Failure { kind: ErrorKind::HttpStatus(400), message: "Invalid URL: "@ + message },
        ),
{
    lemma_iptv_path(url);
}

/// A URL behind `/iptv/` that parses is forwarded to, whatever its scheme, port and query.
///
/// A playlist is one by the path alone. The headers of the guarded site are sent just to its hosts.
/// Direct links are replaced just in playlists of IPTV servers. The original name is restored just
/// if some parameter asks for it, or if that was already so; then the target has all parameters but
/// those that are named `real_ext`, in their order. Nothing else of the target or the state changes.
pub proof fn iptv_request_is_forwarded(
    url: Seq<char>,
    query: Seq<char>,
    parts: UrlParts,
    c: Context,
)
    requires
        url_parse(
            if query.len() == 0 {
                url
            } else {
                url + "?"@ + query
            },
        ) == Ok::<UrlParts, Seq<char>>(parts),
    ensures
        ({
            let path = "/iptv/"@ + url;
            let e = entry(path, query, c);
            let host = match parts.host {
                Some(host) => host,
                None => "localhost"@,
            };
            let pairs = query_pairs(
                match parts.query {
                    Some(q) => q,
                    None => seq![],
                },
            );
            let asks = pairs.contains(("real_ext"@, "jpeg"@));
            &&& e.outcome == Ok::<Action, Failure>(Action::Forward)
            &&& e.context.route_mode == RouteMode::IptvDirect
            &&& e.context.is_m3u8 <==> has_part(path, ".m3u8"@)
            &&& e.context.needs_referer <==> has_part(host, "surrit.com"@) || has_part(
                host,
                "fourhoi.com"@,
            )
            &&& e.context.needs_rewrite_iptv <==> has_part(path, ".m3u8"@) && has_part(
                host,
                "116.199"@,
            )
            &&& e.context.needs_jpeg_fix <==> asks || c.needs_jpeg_fix
            &&& e.context.needs_rewrite_surrit == c.needs_rewrite_surrit
            &&& e.context.base_url == c.base_url
            &&& e.context.target_url matches Some(target)
            &&& target.scheme == parts.scheme
            &&& target.host == parts.host
            &&& target.port == parts.port
            &&& target.path == parts.path
            &&& !asks ==> target.query == parts.query
            &&& asks ==> (target.query matches Some(q) && query_pairs(q) == upstream_pairs(pairs))
        }),
{
    lemma_iptv_path(url);
    let pairs = parts.pairs();
    assert(pairs == query_pairs(
        match parts.query {
            Some(q) => q,
            None => seq![],
        },
    ));
    query_reads_back(upstream_pairs(pairs));
}

/// The hosts of the guarded site are those with one of its two names in them.
pub proof fn guarded_hosts_have_its_names(before: Seq<char>, after: Seq<char>, host: Seq<char>)
    ensures
        is_guarded_host(before + "surrit.com"@ + after),
        is_guarded_host(before + "fourhoi.com"@ + after),
        is_guarded_host(host) ==> has_part(host, "surrit.com"@) || has_part(host, "fourhoi.com"@),
{
    middle_is_found(before, "surrit.com"@, after);
    middle_is_found(before, "fourhoi.com"@, after);
}

// ---------------------------------------------------------------------------
// `/proxy/<host>:<port>/<path>`
// ---------------------------------------------------------------------------

/// A path that begins with `/proxy/` is no other entrance.
proof fn lemma_proxy_path(path: Seq<char>)
    requires
        "/proxy/"@.is_prefix_of(path),
    ensures
        !"/iptv/"@.is_prefix_of(path),
        path != "/health"@,
        path != "/"@,
        path != "/favicon.ico"@,
{
    reveal_strlit("/proxy/");
    reveal_strlit("/iptv/");
    reveal_strlit("/health");
    reveal_strlit("/favicon.ico");
    reveal_strlit("/");
    assert("/proxy/"@[1] == path[1]);
    assert("/health"@[1] == 'h');
    assert("/favicon.ico"@[1] == 'f');
    if "/iptv/"@.is_prefix_of(path) {
        assert("/iptv/"@[1] == path[1]);
    }
}

/// A path below `/proxy/` that is not of the shape is refused.
pub proof fn bad_proxied_path_is_refused(path: Seq<char>, query: Seq<char>, c: Context)
    requires
        "/proxy/"@.is_prefix_of(path),
        forall|parts: PathParts| !parts.fits(path),
    ensures
        entry(path, query, c).context == (Context { route_mode: RouteMode::ProxyPath, ..c }),
        entry(path, query, c).outcome == Err::<Action, Failure>(
            Failure { kind: ErrorKind::HttpStatus(400), message: "Invalid proxy path"@ },
        ),
{
    lemma_proxy_path(path);
}

/// The state that a request below `/proxy/` leaves, with the host of its path.
///
/// Nothing is rewritten, whatever the path. The headers of the guarded site are sent just to its
/// hosts.
pub open spec fn is_proxied(
    e: Entry,
    host: Seq<char>,
    parsed: Result<UrlParts, Seq<char>>,
    c: Context,
) -> bool {
    match parsed {
        Ok(url) => {
            &&& e.outcome == Ok::<Action, Failure>(Action::Forward)
            &&& e.context == Context {
                route_mode: RouteMode::ProxyPath,
                target_url: Some(url),
                is_m3u8: false,
                needs_referer: has_part(host, "surrit.com"@) || has_part(host, "fourhoi.com"@),
                needs_rewrite_iptv: false,
                needs_rewrite_surrit: c.needs_rewrite_surrit,
                base_url: c.base_url,
                needs_jpeg_fix: c.needs_jpeg_fix,
            }
        },
        Err(_) => {
            &&& e.outcome == Err::<Action, Failure>(
                Failure { kind: ErrorKind::InternalError, message: "Bad proxy URL"@ },
            )
            &&& e.context == Context { route_mode: RouteMode::ProxyPath, ..c }
        },
    }
}

/// A path below `/proxy/` with a port leads to that port, or to port 80 if the number is too great.
pub proof fn proxied_request_goes_to_its_port(
    host: Seq<char>,
    port: Seq<char>,
    rest: Seq<char>,
    query: Seq<char>,
    c: Context,
)
    requires
        host.len() > 0,
        !host.contains(':'),
        port.len() > 0,
        forall|i: int| 0 <= i < port.len() ==> is_digit(#[trigger] port[i]),
        !rest.contains('\n'),
    ensures
        ({
            let n = match bounded_value(port, 65535) {
                Some(n) => n,
                None => 80,
            };
            let url = "http://"@ + host + ":"@ + decimal(n) + "/"@ + rest;
            is_proxied(
                entry("/proxy/"@ + host + ":"@ + port + "/"@ + rest, query, c),
                host,
                url_parse(
                    if query.len() == 0 {
                        url
                    } else {
                        url + "?"@ + query
                    },
                ),
                c,
            )
        }),
{
    let path = "/proxy/"@ + host + ":"@ + port + "/"@ + rest;
    let parts = PathParts { host, port: Some(port), rest };
    assert forall|i: int| 0 <= i < port.len() implies is_port_char(#[trigger] port[i]) by {
        assert(is_digit(port[i]));
    }
    reveal_strlit(":");
    reveal_strlit("/");
    assert(path =~= parts.joined());
    parts_with_port(parts);
    lemma_proxied(path, parts, query, c);
}

/// A path below `/proxy/` is taken apart so that the host is as long as it can be; without a port it
/// leads to port 80.
pub proof fn proxied_request_goes_to_its_host(
    path: Seq<char>,
    parts: PathParts,
    query: Seq<char>,
    c: Context,
)
    requires
        parts.fits_best(path),
    ensures
        ({
            let n = match parts.port {
                Some(port) => match bounded_value(port, 65535) {
                    Some(n) => n,
                    None => 80,
                },
                None => 80,
            };
            let url = "http://"@ + parts.host + ":"@ + decimal(n) + "/"@ + parts.rest;
            is_proxied(
                entry(path, query, c),
                parts.host,
                url_parse(
                    if query.len() == 0 {
                        url
                    } else {
                        url + "?"@ + query
                    },
                ),
                c,
            )
        }),
{
    parts_fit_best(path);
    assert(parts.fits(path));
    lemma_best_is_unique(path, parts, proxy_parts(path)->0);
    lemma_proxied(path, parts, query, c);
}

proof fn lemma_proxied(path: Seq<char>, parts: PathParts, query: Seq<char>, c: Context)
    requires
        proxy_parts(path) == Some(parts),
    ensures
        ({
            let n = match parts.port {
                Some(port) => match bounded_value(port, 65535) {
                    Some(n) => n,
                    None => 80,
                },
                None => 80,
            };
            let url = "http://"@ + parts.host + ":"@ + decimal(n) + "/"@ + parts.rest;
            is_proxied(
                entry(path, query, c),
                parts.host,
                url_parse(
                    if query.len() == 0 {
                        url
                    } else {
                        url + "?"@ + query
                    },
                ),
                c,
            )
        }),
{
    parts_fit_best(path);
    reveal_strlit("/proxy/");
    assert(path.subrange(0, 7) =~= "/proxy/"@);
    lemma_proxy_path(path);
    let n = match parts.port {
        Some(port) => match bounded_value(port, 65535) {
            Some(n) => n,
            None => 80,
        },
        None => 80,
    };
    let url = "http://"@ + parts.host + ":"@ + decimal(n) + "/"@ + parts.rest;
    let full = if query.len() == 0 {
        url
    } else {
        url + "?"@ + query
    };
    assert(proxied_url(parts, query) =~= full);
}

// ---------------------------------------------------------------------------
// `?url=<encoded URL>`
// ---------------------------------------------------------------------------

/// No other entrance takes the request.
pub open spec fn is_left_to_the_query(path: Seq<char>, query: Seq<char>) -> bool {
    &&& path != "/health"@
    &&& path != "/favicon.ico"@
    &&& !"/iptv/"@.is_prefix_of(path)
    &&& !"/proxy/"@.is_prefix_of(path)
    &&& path == "/"@ ==> has_part(query, "url="@)
}

/// Where no other entrance takes a request, the path does not matter.
pub proof fn query_alone_decides(a: Seq<char>, b: Seq<char>, query: Seq<char>, c: Context)
    requires
        is_left_to_the_query(a, query),
        is_left_to_the_query(b, query),
    ensures
        entry(a, query, c) == entry(b, query, c),
{
}

/// A parameter in front that is not `url` does not matter.
pub proof fn other_parameters_are_passed_over(
    path: Seq<char>,
    param: Seq<char>,
    query: Seq<char>,
    c: Context,
)
    requires
        is_left_to_the_query(path, param + "&"@ + query),
        is_left_to_the_query(path, query),
        !param.contains('&'),
        !"url="@.is_prefix_of(param),
    ensures
        entry(path, param + "&"@ + query, c) == entry(path, query, c),
{
    reveal_strlit("&");
    assert(param + "&"@ + query =~= param.push('&') + query);
    pieces_stand_between_separators(param, '&', query);
    first_with_prefix_is_in_front(param, fields(query, '&'), "url="@);
}

/// A request is refused whose query is one parameter that is not `url`.
pub proof fn request_without_url_is_refused(path: Seq<char>, param: Seq<char>, c: Context)
    requires
        is_left_to_the_query(path, param),
        !param.contains('&'),
        !"url="@.is_prefix_of(param),
    ensures
        entry(path, param, c).context == c,
        entry(path, param, c).outcome == Err::<Action, Failure>(
            Failure {
                kind: ErrorKind::HttpStatus(400),
                message: "Use /iptv/URL, /proxy/host:port/path, or ?url=encoded_target"@,
            },
        ),
{
    pieces_stand_between_separators(param, '&', seq![]);
    first_with_prefix_is_in_front(param, seq![], "url="@);
    assert(seq![param] + Seq::<Seq<char>>::empty() =~= seq![param]);
}

/// What stands in the first parameter `url`, up to the next ampersand, is decoded.
pub proof fn first_url_is_decoded(encoded: Seq<char>, more: Seq<char>)
    requires
        !encoded.contains('&'),
    ensures
        query_target("url="@ + encoded) == url_decoded(encoded),
        query_target("url="@ + encoded + "&"@ + more) == url_decoded(encoded),
{
    reveal_strlit("url=");
    reveal_strlit("&");
    let param = "url="@ + encoded;
    assert(!param.contains('&')) by {
        if param.contains('&') {
            let i = param.index_of('&');
            if i >= 4 {
                assert(encoded[i - 4] == '&');
            }
        }
    }
    assert(param.subrange(0, 4) =~= "url="@);
    assert("url="@.is_prefix_of(param));
    pieces_stand_between_separators(param, '&', more);
    assert("url="@ + encoded + "&"@ + more =~= param.push('&') + more);
    first_with_prefix_is_in_front(param, seq![], "url="@);
    first_with_prefix_is_in_front(param, fields(more, '&'), "url="@);
    assert(seq![param] + Seq::<Seq<char>>::empty() =~= seq![param]);
    assert(param.skip(4) =~= encoded);
}

/// There is no URL in a query of one parameter that is not `url`, and such a parameter in front does
/// not matter.
pub proof fn other_parameters_hold_no_url(param: Seq<char>, query: Seq<char>)
    requires
        !param.contains('&'),
        !"url="@.is_prefix_of(param),
    ensures
        query_target(param) is None,
        query_target(param + "&"@ + query) == query_target(query),
{
    reveal_strlit("&");
    assert(param + "&"@ + query =~= param.push('&') + query);
    pieces_stand_between_separators(param, '&', query);
    first_with_prefix_is_in_front(param, fields(query, '&'), "url="@);
    first_with_prefix_is_in_front(param, seq![], "url="@);
    assert(seq![param] + Seq::<Seq<char>>::empty() =~= seq![param]);
}

/// The first parameter `url` is entered by, if it decodes and the outcome parses; else the request
/// is refused.
///
/// The headers of the guarded site are always sent. A playlist is one by the end of the URL, and its
/// segments are linked. What they are relative to is the URL up to its last slash. The request is
/// given the path and the host of the URL.
pub proof fn anti_leech_request_is_forwarded(
    path: Seq<char>,
    encoded: Seq<char>,
    more: Seq<char>,
    c: Context,
)
    requires
        !encoded.contains('&'),
        more.len() == 0 || more[0] == '&',
        is_left_to_the_query(path, "url="@ + encoded + more),
    ensures
        ({
            let e = entry(path, "url="@ + encoded + more, c);
            let refusal = Failure {
                kind: ErrorKind::HttpStatus(400),
                message: "Use /iptv/URL, /proxy/host:port/path, or ?url=encoded_target"@,
            };
            match url_decoded(encoded) {
                None => e.context == c && e.outcome == Err::<Action, Failure>(refusal),
                Some(url) => match url_parse(url) {
                    Err(_) => e.context == c && e.outcome == Err::<Action, Failure>(refusal),
                    Ok(parts) => {
                        &&& e.outcome == Ok::<Action, Failure>(
                            Action::ForwardAs {
                                raw_path: parts.path,
                                host: match parts.host {
                                    Some(host) => host,
                                    None => "surrit.com"@,
                                },
                            },
                        )
                        &&& e.context.route_mode == RouteMode::AntiLeechQuery
                        &&& e.context.target_url == Some(parts)
                        &&& e.context.needs_referer
                        &&& e.context.is_m3u8 <==> ".m3u8"@.is_suffix_of(url)
                        &&& e.context.needs_rewrite_surrit <==> ".m3u8"@.is_suffix_of(url)
                        &&& e.context.needs_rewrite_iptv == c.needs_rewrite_iptv
                        &&& e.context.needs_jpeg_fix == c.needs_jpeg_fix
                        &&& !url.contains('/') ==> e.context.base_url == Some(url)
                        &&& forall|dir: Seq<char>, name: Seq<char>|
                            url == #[trigger] (dir.push('/') + name) && !name.contains('/')
                                ==> e.context.base_url == Some(dir.push('/'))
                    },
                },
            }
        }),
{
    reveal_strlit("&");
    let query = "url="@ + encoded + more;
    if more.len() == 0 {
        assert(query =~= "url="@ + encoded);
        first_url_is_decoded(encoded, seq![]);
    } else {
        assert(query =~= "url="@ + encoded + "&"@ + more.skip(1));
        first_url_is_decoded(encoded, more.skip(1));
    }
    if let Some(url) = url_decoded(encoded) {
        if !url.contains('/') {
            text_is_kept_through_the_last_mark(seq![], '/', url);
        }
        assert forall|dir: Seq<char>, name: Seq<char>|
            url == #[trigger] (dir.push('/') + name) && !name.contains(
                '/',
            ) implies through_last(url, '/') == dir.push('/') by {
            text_is_kept_through_the_last_mark(dir, '/', name);
        }
    }
}

} // verus!
