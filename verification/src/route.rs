//! How a request enters the proxy: what it is answered, or where it is forwarded to.

use vstd::prelude::*;
use vstd::string::*;

use crate::codec::{decode_url, url_decoded};
use crate::context::{Context, ProxyContext, RouteMode};
use crate::error::{bad_request, internal_error, Failure, ProxyError};
use crate::number::{bounded_value, decimal, parse_port, to_decimal};
use crate::pattern::{proxy_parts, PathParts, ProxyParts};
use crate::proxy::IptvProxy;
use crate::target::{asks_for_jpeg, parse_outcome, parse_url, url_parse, TargetUrl, UrlParts};
use crate::text::{
    after, contains, ends_with, fields, find_prefixed, first_with_prefix, has_part, opt_text,
    same_text, split, starts_with, through_last, up_to_last,
};

verus! {

/// What a request is told that no entrance takes.
pub const USAGE: &'static str = "Use /iptv/URL, /proxy/host:port/path, or ?url=encoded_target";

/// What is done with a request.
#[derive(Debug)]
pub enum RequestAction {
    /// The proxy answers it itself.
    Respond { status: u16, body: Option<String> },
    /// It is forwarded to the target.
    Forward,
    /// It is forwarded to the target, after its path and its `Host` header have been set.
    ForwardAs { raw_path: String, host: String },
}

/// What a [`RequestAction`] holds.
pub enum Action {
    Respond { status: u16, body: Option<Seq<char>> },
    Forward,
    ForwardAs { raw_path: Seq<char>, host: Seq<char> },
}

impl View for RequestAction {
    type V = Action;

    open spec fn view(&self) -> Action {
        match *self {
            RequestAction::Respond { status, body } => Action::Respond {
                status,
                body: opt_text(body),
            },
            RequestAction::Forward => Action::Forward,
            RequestAction::ForwardAs { raw_path, host } => Action::ForwardAs {
                raw_path: raw_path@,
                host: host@,
            },
        }
    }
}

/// What the outcome of entering holds.
pub open spec fn outcome(r: Result<RequestAction, ProxyError>) -> Result<Action, Failure> {
    match r {
        Ok(action) => Ok(action@),
        Err(error) => Err(error@),
    }
}

/// The next state of a request, and what is done with it.
pub struct Entry {
    pub context: Context,
    pub outcome: Result<Action, Failure>,
}

/// The host is one that only serves pages of its own site.
pub open spec fn is_guarded_host(host: Seq<char>) -> bool {
    has_part(host, "surrit.com"@) || has_part(host, "fourhoi.com"@)
}

/// A path with its query behind a question mark, or alone if the query is empty.
pub open spec fn with_query(path: Seq<char>, query: Seq<char>) -> Seq<char> {
    if query.len() == 0 {
        path
    } else {
        path + "?"@ + query
    }
}

/// The URL in `/iptv/<URL>`.
pub open spec fn iptv_url(path: Seq<char>, query: Seq<char>) -> Seq<char> {
    with_query(path.skip("/iptv/"@.len() as int), query)
}

/// Entering by `/iptv/<URL>`, where the URL has been parsed.
pub open spec fn iptv_entry(
    path: Seq<char>,
    parsed: Result<UrlParts, Seq<char>>,
    c: Context,
) -> Entry {
    match parsed {
        Err(message) => Entry {
            context: Context { route_mode: RouteMode::IptvDirect, ..c },
            outcome: Err(bad_request("Invalid URL: "@ + message)),
        },
        Ok(url) => {
            let asks = asks_for_jpeg(url.pairs());
            let target = if asks {
                url.without_real_ext()
            } else {
                url
            };
            let host = target.host_or("localhost"@);
            let is_m3u8 = has_part(path, ".m3u8"@);
            Entry {
                context: Context {
                    route_mode: RouteMode::IptvDirect,
                    target_url: Some(target),
                    is_m3u8,
                    needs_referer: is_guarded_host(host),
                    needs_rewrite_iptv: is_m3u8 && has_part(host, "116.199"@),
                    needs_jpeg_fix: asks || c.needs_jpeg_fix,
                    ..c
                },
                outcome: Ok(Action::Forward),
            }
        },
    }
}

/// The port of a proxied path: 80 if it has none, or one that is too great.
pub open spec fn proxied_port(port: Option<Seq<char>>) -> nat {
    match port {
        Some(digits) => match bounded_value(digits, 65535) {
            Some(n) => n,
            None => 80,
        },
        None => 80,
    }
}

/// The URL in `/proxy/<host>:<port>/<path>`.
pub open spec fn proxied_url(parts: PathParts, query: Seq<char>) -> Seq<char> {
    "http://"@ + parts.host + ":"@ + decimal(proxied_port(parts.port)) + with_query(
        "/"@ + parts.rest,
        query,
    )
}

/// Entering by `/proxy/<host>:<port>/<path>`, where the URL has been parsed.
pub open spec fn proxied_entry(
    host: Seq<char>,
    parsed: Result<UrlParts, Seq<char>>,
    c: Context,
) -> Entry {
    match parsed {
        Err(_) => Entry {
            context: Context { route_mode: RouteMode::ProxyPath, ..c },
            outcome: Err(internal_error("Bad proxy URL"@)),
        },
        Ok(url) => Entry {
            context: Context {
                route_mode: RouteMode::ProxyPath,
                target_url: Some(url),
                is_m3u8: false,
                needs_referer: is_guarded_host(host),
                needs_rewrite_iptv: false,
                ..c
            },
            outcome: Ok(Action::Forward),
        },
    }
}

/// Entering by a path below `/proxy/`.
pub open spec fn proxy_path_entry(path: Seq<char>, query: Seq<char>, c: Context) -> Entry {
    match proxy_parts(path) {
        None => Entry {
            context: Context { route_mode: RouteMode::ProxyPath, ..c },
            outcome: Err(bad_request("Invalid proxy path"@)),
        },
        Some(parts) => proxied_entry(parts.host, url_parse(proxied_url(parts, query)), c),
    }
}

/// The encoded URL in a query: the value of its first parameter `url`.
pub open spec fn url_parameter(query: Seq<char>) -> Option<Seq<char>> {
    match first_with_prefix(fields(query, '&'), "url="@) {
        Some(field) => Some(field.skip("url="@.len() as int)),
        None => None,
    }
}

/// The URL in a query, decoded.
pub open spec fn query_target(query: Seq<char>) -> Option<Seq<char>> {
    match url_parameter(query) {
        Some(encoded) => url_decoded(encoded),
        None => None,
    }
}

/// Entering by `?url=<encoded URL>`, where the URL has been decoded and parsed.
pub open spec fn anti_leech_entry(decoded: Seq<char>, url: UrlParts, c: Context) -> Entry {
    let is_m3u8 = ".m3u8"@.is_suffix_of(decoded);
    Entry {
        context: Context {
            route_mode: RouteMode::AntiLeechQuery,
            target_url: Some(url),
            is_m3u8,
            needs_referer: true,
            needs_rewrite_surrit: is_m3u8,
            base_url: Some(through_last(decoded, '/')),
            ..c
        },
        outcome: Ok(
            Action::ForwardAs { raw_path: url.path, host: url.host_or("surrit.com"@) },
        ),
    }
}

/// A request that no entrance takes.
pub open spec fn refused(c: Context) -> Entry {
    Entry {
        context: c,
        outcome: Err(bad_request(USAGE@)),
    }
}

/// Entering by the query alone.
pub open spec fn query_entry(query: Seq<char>, c: Context) -> Entry {
    match query_target(query) {
        Some(decoded) => match url_parse(decoded) {
            Ok(url) => anti_leech_entry(decoded, url, c),
            Err(_) => refused(c),
        },
        None => refused(c),
    }
}

/// Entering with a path and a query.
pub open spec fn entry(path: Seq<char>, query: Seq<char>, c: Context) -> Entry {
    if path == "/health"@ || (path == "/"@ && !has_part(query, "url="@)) {
        Entry { context: c, outcome: Ok(Action::Respond { status: 200, body: Some("OK"@) }) }
    } else if path == "/favicon.ico"@ {
        Entry { context: c, outcome: Ok(Action::Respond { status: 404, body: None }) }
    } else if "/iptv/"@.is_prefix_of(path) {
        iptv_entry(path, url_parse(iptv_url(path, query)), c)
    } else if "/proxy/"@.is_prefix_of(path) {
        proxy_path_entry(path, query, c)
    } else {
        query_entry(query, c)
    }
}

/// Appends a question mark and the query, unless the query is empty.
fn append_query(s: &mut String, query: &str)
    ensures
        final(s)@ == with_query(old(s)@, query@),
{
    if !query.is_empty() {
        s.append("?");
        s.append(query);
    }
}

impl ProxyContext {
    /// Enters by `/iptv/<URL>` with the outcome of parsing the URL.
    pub fn enter_iptv(&mut self, path: &str, parsed: Result<TargetUrl, String>) -> (r: Result<
        RequestAction,
        ProxyError,
    >)
        ensures
            ({
                let e = iptv_entry(path@, parse_outcome(parsed), old(self)@);
                final(self)@ == e.context && outcome(r) == e.outcome
            }),
    {
        self.route_mode = RouteMode::IptvDirect;
        let mut url = match parsed {
            Ok(url) => url,
            Err(message) => {
                return Err(
                    ProxyError::bad_request("Invalid URL: ".to_owned().concat(message.as_str()).as_str()),
                );
            },
        };
        if url.take_real_ext() {
            self.needs_jpeg_fix = true;
        }
        let host = url.host_or("localhost");
        self.target_url = Some(url);
        self.is_m3u8 = contains(path, ".m3u8");
        self.needs_referer = IptvProxy::host_needs_referer(host.as_str());
        self.needs_rewrite_iptv = self.is_m3u8 && contains(host.as_str(), "116.199");
        Ok(RequestAction::Forward)
    }

    /// Enters by `/proxy/<host>:<port>/<path>` with the outcome of parsing the URL.
    pub fn enter_proxied(&mut self, host: &str, parsed: Result<TargetUrl, String>) -> (r: Result<
        RequestAction,
        ProxyError,
    >)
        ensures
            ({
                let e = proxied_entry(host@, parse_outcome(parsed), old(self)@);
                final(self)@ == e.context && outcome(r) == e.outcome
            }),
    {
        self.route_mode = RouteMode::ProxyPath;
        match parsed {
            Ok(url) => {
                self.target_url = Some(url);
            },
            Err(_) => {
                return Err(ProxyError::internal("Bad proxy URL"));
            },
        }
        self.is_m3u8 = false;
        self.needs_referer = IptvProxy::host_needs_referer(host);
        self.needs_rewrite_iptv = false;
        Ok(RequestAction::Forward)
    }

    /// Enters by `?url=<encoded URL>` with the decoded URL and its parts.
    pub fn enter_anti_leech(&mut self, decoded: &str, url: TargetUrl) -> (r: RequestAction)
        ensures
            ({
                let e = anti_leech_entry(decoded@, url@, old(self)@);
                final(self)@ == e.context && Ok::<Action, Failure>(r@) == e.outcome
            }),
    {
        let host = url.host_or("surrit.com");
        let raw_path = url.path.clone();
        self.route_mode = RouteMode::AntiLeechQuery;
        self.target_url = Some(url);
        self.is_m3u8 = ends_with(decoded, ".m3u8");
        self.needs_referer = true;
        self.needs_rewrite_surrit = self.is_m3u8;
        self.base_url = Some(up_to_last(decoded, '/'));
        RequestAction::ForwardAs { raw_path, host }
    }

    /// Enters by the query alone.
    fn enter_by_query(&mut self, query: &str) -> (r: Result<RequestAction, ProxyError>)
        ensures
            ({
                let e = query_entry(query@, old(self)@);
                final(self)@ == e.context && outcome(r) == e.outcome
            }),
    {
        if let Some(decoded) = decoded_target(query) {
            if let Ok(url) = parse_url(decoded.as_str()) {
                return Ok(self.enter_anti_leech(decoded.as_str(), url));
            }
        }
        Err(ProxyError::bad_request(USAGE))
    }
}

/// The URL in a query, decoded; `None` if there is none, or if it is not UTF-8.
pub fn decoded_target(query: &str) -> (r: Option<String>)
    ensures
        opt_text(r) == query_target(query@),
{
    let params = split(query, '&');
    match find_prefixed(&params, "url=") {
        Some(param) => {
            proof {
                lemma_first_has_prefix(fields(query@, '&'), "url="@);
                reveal_strlit("url=");
            }
            decode_url(after(param.as_str(), 4).as_str())
        },
        None => None,
    }
}

/// What has a prefix begins with it.
proof fn lemma_first_has_prefix(parts: Seq<Seq<char>>, prefix: Seq<char>)
    ensures
        first_with_prefix(parts, prefix) matches Some(part) ==> prefix.is_prefix_of(part),
    decreases parts.len(),
{
    if parts.len() > 0 {
        lemma_first_has_prefix(parts.skip(1), prefix);
    }
}

/// The URL in a proxied path.
fn proxied_target(parts: &ProxyParts, query: &str) -> (r: String)
    ensures
        r@ == proxied_url(parts@, query@),
{
    let port: u16 = match &parts.port {
        Some(digits) => match parse_port(digits.as_str()) {
            Some(n) => n,
            None => 80,
        },
        None => 80,
    };
    let mut tail = "/".to_owned();
    tail.append(parts.rest.as_str());
    append_query(&mut tail, query);
    let mut r = "http://".to_owned();
    r.append(parts.host.as_str());
    r.append(":");
    r.append(to_decimal(port).as_str());
    r.append(tail.as_str());
    r
}

impl IptvProxy {
    /// Whether a host only serves pages of its own site.
    pub fn host_needs_referer(host: &str) -> (r: bool)
        ensures
            r == is_guarded_host(host@),
    {
        contains(host, "surrit.com") || contains(host, "fourhoi.com")
    }

    /// Decides about a request by its path and its query.
    pub fn request_filter(&self, path: &str, query: Option<&str>, ctx: &mut ProxyContext) -> (r: Result<
        RequestAction,
        ProxyError,
    >)
        ensures
            ({
                let query = match query {
                    Some(q) => q@,
                    None => seq![],
                };
                let e = entry(path@, query, old(ctx)@);
                final(ctx)@ == e.context && outcome(r) == e.outcome
            }),
            old(ctx)@.well_formed() ==> final(ctx)@.well_formed(),
    {
        let query = match query {
            Some(q) => q,
            None => "",
        };
        proof {
            reveal_strlit("");
            assert(""@ =~= Seq::<char>::empty());
        }
        if same_text(path, "/health") || (same_text(path, "/") && !contains(query, "url=")) {
            return Ok(RequestAction::Respond { status: 200, body: Some("OK".to_owned()) });
        }
        if same_text(path, "/favicon.ico") {
            return Ok(RequestAction::Respond { status: 404, body: None });
        }
        if starts_with(path, "/iptv/") {
            proof {
                reveal_strlit("/iptv/");
            }
            let mut full = after(path, 6);
            append_query(&mut full, query);
            return ctx.enter_iptv(path, parse_url(full.as_str()));
        }
        if starts_with(path, "/proxy/") {
            let parts = match self.path_parts(path) {
                Some(parts) => parts,
                None => {
                    ctx.route_mode = RouteMode::ProxyPath;
                    return Err(ProxyError::bad_request("Invalid proxy path"));
                },
            };
            let full = proxied_target(&parts, query);
            return ctx.enter_proxied(parts.host.as_str(), parse_url(full.as_str()));
        }
        ctx.enter_by_query(query)
    }
}

} // verus!
