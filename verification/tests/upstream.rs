use iptv_proxy::{
    ErrorKind, IptvProxy, ProxyConfig, ProxyContext, RouteMode, TargetUrl,
};

const REFERER: &str = "https://missav.ws/dm242/cn";
const AGENT: &str = "Mozilla/5.0 (Windows NT 10.0; Win64; x64) AppleWebKit/537.36 (KHTML, like Gecko) Chrome/120.0.0.0 Safari/537.36";

fn proxy() -> IptvProxy {
    IptvProxy::new(ProxyConfig::new("192.168.1.3".to_string(), 8080))
}

fn context(scheme: &str, port: Option<u16>, path: &str, query: Option<&str>) -> ProxyContext {
    let mut ctx = ProxyContext::new();
    ctx.target_url = Some(TargetUrl {
        scheme: scheme.to_string(),
        host: Some("h.example".to_string()),
        port,
        path: path.to_string(),
        query: query.map(|q| q.to_string()),
    });
    ctx
}

fn pairs(headers: &[(String, String)]) -> Vec<(&str, &str)> {
    headers
        .iter()
        .map(|(n, v)| (n.as_str(), v.as_str()))
        .collect()
}

#[test]
fn peer_ports() {
    for (scheme, port, expected, tls) in [
        ("http", None, 80, false),
        ("https", None, 443, true),
        ("http", Some(8080), 8080, false),
        ("https", Some(80), 80, true),
        ("ftp", None, 80, false),
    ] {
        let peer = proxy()
            .upstream_peer(&context(scheme, port, "/", None))
            .unwrap();
        assert_eq!(peer.host, "h.example");
        assert_eq!(peer.port, expected);
        assert_eq!(peer.tls, tls);
    }
}

#[test]
fn peer_without_target() {
    let e = proxy().upstream_peer(&ProxyContext::new()).unwrap_err();
    assert_eq!(e.kind, ErrorKind::InternalError);
    assert_eq!(e.message, "No target URL");
}

#[test]
fn request_with_query_and_port() {
    let plan = proxy()
        .upstream_request_filter(&context("http", Some(9000), "/a/b.ts", Some("k=v")))
        .unwrap();
    assert_eq!(plan.uri.as_deref(), Some("/a/b.ts?k=v"));
    assert_eq!(pairs(&plan.headers), vec![("Host", "h.example:9000")]);
    assert!(!plan.remove_accept_encoding);
}

#[test]
fn request_with_site_headers() {
    let mut ctx = context("https", None, "/a.m3u8", None);
    ctx.needs_referer = true;
    ctx.needs_rewrite_surrit = true;
    ctx.base_url = Some("https://h.example/".to_string());
    let plan = proxy().upstream_request_filter(&ctx).unwrap();
    assert_eq!(plan.uri.as_deref(), Some("/a.m3u8"));
    assert_eq!(
        pairs(&plan.headers),
        vec![
            ("Host", "h.example"),
            ("Referer", REFERER),
            ("User-Agent", AGENT),
            ("Accept", "*/*"),
        ]
    );
    assert!(plan.remove_accept_encoding);
}

#[test]
fn request_without_target() {
    let mut ctx = ProxyContext::new();
    ctx.needs_rewrite_iptv = true;
    let plan = proxy().upstream_request_filter(&ctx).unwrap();
    assert_eq!(plan.uri, None);
    assert!(plan.headers.is_empty());
    assert!(plan.remove_accept_encoding);
}

#[test]
fn request_without_host() {
    let mut ctx = context("http", None, "/x", None);
    ctx.target_url.as_mut().unwrap().host = None;
    let plan = proxy().upstream_request_filter(&ctx).unwrap();
    assert_eq!(pairs(&plan.headers), vec![("Host", "localhost")]);
}

#[test]
fn jpeg_name_is_restored_everywhere() {
    let mut ctx = context("https", None, "/v.ts/s1.ts", Some("f=x.ts"));
    ctx.needs_jpeg_fix = true;
    let plan = proxy().upstream_request_filter(&ctx).unwrap();
    assert_eq!(plan.uri.as_deref(), Some("/v.jpeg/s1.jpeg?f=x.jpeg"));
}

#[test]
fn uris_that_are_refused() {
    for (path, query, message) in [
        ("/a b", None, "Invalid URI: invalid uri character"),
        ("/a`b", None, "Invalid URI: invalid uri character"),
        ("/a", Some("\""), "Invalid URI: invalid uri character"),
        ("/a", Some("\u{7f}"), "Invalid URI: invalid uri character"),
        ("", None, "Invalid URI: empty string"),
    ] {
        let e = proxy()
            .upstream_request_filter(&context("http", None, path, query))
            .unwrap_err();
        assert_eq!(e.kind, ErrorKind::InternalError);
        assert_eq!(e.message, message);
    }
    let long = format!("/{}", "a".repeat(65534));
    let e = proxy()
        .upstream_request_filter(&context("http", None, &long, None))
        .unwrap_err();
    assert_eq!(e.message, "Invalid URI: uri too long");
    let fits = format!("/{}", "a".repeat(65533));
    assert!(proxy()
        .upstream_request_filter(&context("http", None, &fits, None))
        .is_ok());
}

#[test]
fn uri_characters() {
    for code in 0u32..0x100 {
        let c = match char::from_u32(code) {
            Some(c) => c,
            None => continue,
        };
        let high = code >= 0x80;
        let in_path = high
            || matches!(c, '!' | '"' | '$'..=';' | '=' | '@'..='_' | 'a'..='~' | '?' | '#');
        let in_query = high || matches!(c, '!' | '$'..=';' | '=' | '?'..='~' | '#');
        let path = format!("/a{}", c);
        assert_eq!(
            proxy()
                .upstream_request_filter(&context("http", None, &path, None))
                .is_ok(),
            in_path,
            "{:?}",
            c
        );
        let query = format!("a{}", c);
        assert_eq!(
            proxy()
                .upstream_request_filter(&context("http", None, "/", Some(&query)))
                .is_ok(),
            in_query,
            "{:?}",
            c
        );
    }
    // Behind a fragment sign nothing is looked at.
    assert!(proxy()
        .upstream_request_filter(&context("http", None, "/a# `", None))
        .is_ok());
}

#[test]
fn redirects_are_led_back() {
    for (mode, location, expected) in [
        (
            RouteMode::AntiLeechQuery,
            "https://h/a b?c=d&e",
            "/?url=https%3A%2F%2Fh%2Fa%20b%3Fc%3Dd%26e",
        ),
        (RouteMode::IptvDirect, "http://h/x?y", "/iptv/http://h/x?y"),
        (RouteMode::ProxyPath, "http://h/x", "/iptv/http://h/x"),
    ] {
        let mut ctx = ProxyContext::new();
        ctx.route_mode = mode;
        for status in [301, 302, 307, 308] {
            let plan = proxy().response_filter(status, Some(location), &ctx);
            assert_eq!(plan.location.as_deref(), Some(expected));
            assert!(!plan.remove_content_length);
        }
        for status in [200, 300, 303, 304, 404] {
            let plan = proxy().response_filter(status, Some(location), &ctx);
            assert_eq!(plan.location, None);
        }
        assert_eq!(proxy().response_filter(302, None, &ctx).location, None);
    }
}

#[test]
fn length_is_removed_where_the_body_changes() {
    let mut ctx = ProxyContext::new();
    ctx.needs_rewrite_iptv = true;
    assert!(proxy().response_filter(200, None, &ctx).remove_content_length);
    ctx.needs_rewrite_iptv = false;
    ctx.needs_rewrite_surrit = true;
    assert!(proxy().response_filter(200, None, &ctx).remove_content_length);
}

#[test]
fn log_lines() {
    assert_eq!(
        IptvProxy::logging(Some("1.2.3.4:5"), "GET", "/x", Some(200), None),
        "1.2.3.4:5 GET /x - Status:200"
    );
    assert_eq!(
        IptvProxy::logging(None, "GET", "/x", None, Some("broken")),
        "unknown GET /x - Status:0 Error:broken"
    );
}
