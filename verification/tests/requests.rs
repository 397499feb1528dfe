use iptv_proxy::route::{decoded_target, USAGE};
use iptv_proxy::{
    ErrorKind, IptvProxy, ProxyConfig, ProxyContext, ProxyError, RequestAction, RouteMode,
    TargetUrl,
};

fn proxy() -> IptvProxy {
    IptvProxy::new(ProxyConfig::new("192.168.1.3".to_string(), 8080))
}

fn enter(path: &str, query: Option<&str>) -> (Result<RequestAction, ProxyError>, ProxyContext) {
    let proxy = proxy();
    let mut ctx = proxy.new_ctx();
    let r = proxy.request_filter(path, query, &mut ctx);
    (r, ctx)
}

fn assert_fresh(ctx: &ProxyContext) {
    assert_eq!(ctx.route_mode, RouteMode::IptvDirect);
    assert!(ctx.target_url.is_none());
    assert!(!ctx.is_m3u8);
    assert!(!ctx.needs_referer);
    assert!(!ctx.needs_rewrite_iptv);
    assert!(!ctx.needs_rewrite_surrit);
    assert!(ctx.base_url.is_none());
    assert!(!ctx.needs_jpeg_fix);
}

fn assert_ok(r: &Result<RequestAction, ProxyError>) {
    match r {
        Ok(RequestAction::Respond { status, body }) => {
            assert_eq!(*status, 200);
            assert_eq!(body.as_deref(), Some("OK"));
        }
        other => panic!("{:?}", other),
    }
}

fn assert_error(r: &Result<RequestAction, ProxyError>, kind: ErrorKind, message: &str) {
    match r {
        Err(e) => {
            assert_eq!(e.kind, kind);
            assert_eq!(e.message, message);
        }
        other => panic!("{:?}", other),
    }
}

fn target(ctx: &ProxyContext) -> &TargetUrl {
    ctx.target_url.as_ref().unwrap()
}

#[test]
fn new_context_is_empty() {
    assert_fresh(&ProxyContext::new());
    assert_fresh(&proxy().new_ctx());
}

#[test]
fn health_check_is_answered() {
    for (path, query) in [
        ("/health", None),
        ("/health", Some("url=http://x/")),
        ("/", None),
        ("/", Some("")),
        ("/", Some("a=b")),
    ] {
        let (r, ctx) = enter(path, query);
        assert_ok(&r);
        assert_fresh(&ctx);
    }
}

#[test]
fn favicon_is_not_found() {
    let (r, ctx) = enter("/favicon.ico", Some("v=1"));
    assert!(matches!(
        r,
        Ok(RequestAction::Respond {
            status: 404,
            body: None
        })
    ));
    assert_fresh(&ctx);
}

#[test]
fn iptv_playlist_request() {
    let (r, ctx) = enter("/iptv/http://116.199.5.6/path/file.m3u8", None);
    assert!(matches!(r, Ok(RequestAction::Forward)));
    assert_eq!(ctx.route_mode, RouteMode::IptvDirect);
    let url = target(&ctx);
    assert_eq!(url.scheme, "http");
    assert_eq!(url.host.as_deref(), Some("116.199.5.6"));
    assert_eq!(url.port, None);
    assert_eq!(url.path, "/path/file.m3u8");
    assert_eq!(url.query, None);
    assert!(ctx.is_m3u8);
    assert!(ctx.needs_rewrite_iptv);
    assert!(!ctx.needs_referer);
    assert!(!ctx.needs_rewrite_surrit);
    assert!(!ctx.needs_jpeg_fix);
    assert!(ctx.base_url.is_none());
}

#[test]
fn iptv_request_keeps_query() {
    let (r, ctx) = enter("/iptv/https://Example.com:8443/a/b.ts", Some("x=1&y=%20"));
    assert!(matches!(r, Ok(RequestAction::Forward)));
    let url = target(&ctx);
    assert_eq!(url.scheme, "https");
    assert_eq!(url.host.as_deref(), Some("example.com"));
    assert_eq!(url.port, Some(8443));
    assert_eq!(url.path, "/a/b.ts");
    assert_eq!(url.query.as_deref(), Some("x=1&y=%20"));
    assert!(!ctx.is_m3u8);
    assert!(!ctx.needs_rewrite_iptv);
    assert!(!ctx.needs_referer);
}

#[test]
fn iptv_playlist_of_another_host_is_not_rewritten() {
    let (_, ctx) = enter("/iptv/http://example.com/file.m3u8", None);
    assert!(ctx.is_m3u8);
    assert!(!ctx.needs_rewrite_iptv);
}

#[test]
fn iptv_m3u8_in_the_query_does_not_count() {
    let (_, ctx) = enter("/iptv/http://116.199.5.6/play", Some("f=a.m3u8"));
    assert!(!ctx.is_m3u8);
    assert!(!ctx.needs_rewrite_iptv);
}

#[test]
fn iptv_guarded_host_needs_referer() {
    for host in ["surrit.com", "cdn.surrit.com", "fourhoi.com"] {
        let (_, ctx) = enter(&format!("/iptv/https://{}/v.ts", host), None);
        assert!(ctx.needs_referer);
        assert!(IptvProxy::host_needs_referer(host));
    }
    assert!(!IptvProxy::host_needs_referer("surrit.org"));
}

#[test]
fn iptv_url_that_does_not_parse() {
    let (r, ctx) = enter("/iptv/file.m3u8", None);
    assert_error(
        &r,
        ErrorKind::HttpStatus(400),
        "Invalid URL: relative URL without a base",
    );
    assert_fresh(&ctx);
    let (r, _) = enter("/iptv/http://", None);
    assert_error(&r, ErrorKind::HttpStatus(400), "Invalid URL: empty host");
}

#[test]
fn iptv_url_without_host() {
    let (r, ctx) = enter("/iptv/data:text/plain,x", None);
    assert!(matches!(r, Ok(RequestAction::Forward)));
    assert_eq!(target(&ctx).host, None);
    assert_eq!(target(&ctx).path, "text/plain,x");
    let peer = proxy().upstream_peer(&ctx).unwrap();
    assert_eq!(peer.host, "localhost");
    assert_eq!(peer.port, 80);
    assert!(!peer.tls);
}

#[test]
fn real_ext_is_taken_out() {
    let (_, ctx) = enter(
        "/iptv/https://surrit.com/v/s1.ts",
        Some("a=1&real_ext=jpeg&b=x+y&real_ext=png"),
    );
    assert!(ctx.needs_jpeg_fix);
    assert!(ctx.needs_referer);
    assert_eq!(target(&ctx).query.as_deref(), Some("a=1&b=x+y"));
}

#[test]
fn real_ext_alone_leaves_an_empty_query() {
    let (_, ctx) = enter("/iptv/https://surrit.com/v/s1.ts", Some("real_ext=jpeg"));
    assert!(ctx.needs_jpeg_fix);
    assert_eq!(target(&ctx).query.as_deref(), Some(""));
}

#[test]
fn another_real_ext_stays() {
    let (_, ctx) = enter("/iptv/https://surrit.com/v/s1.ts", Some("real_ext=png&a=%41"));
    assert!(!ctx.needs_jpeg_fix);
    assert_eq!(target(&ctx).query.as_deref(), Some("real_ext=png&a=%41"));
}

#[test]
fn query_is_decoded_and_encoded_again() {
    let mut url = TargetUrl {
        scheme: "http".to_string(),
        host: None,
        port: None,
        path: "/".to_string(),
        query: Some("&&k%2B=%C3%A9+z&=v&n&m=a=b&real%5Fext=jp%65g&w=*-._~!%zz&i=%FF".to_string()),
    };
    assert!(url.take_real_ext());
    assert_eq!(
        url.query.as_deref(),
        Some("k%2B=%C3%A9+z&=v&n=&m=a%3Db&w=*-._%7E%21%25zz&i=%EF%BF%BD")
    );
    assert!(!url.take_real_ext());
    let mut none = TargetUrl {
        scheme: "http".to_string(),
        host: None,
        port: None,
        path: "/".to_string(),
        query: None,
    };
    assert!(!none.take_real_ext());
    assert_eq!(none.query, None);
}

#[test]
fn proxied_segment_request() {
    let (r, ctx) = enter("/proxy/116.199.5.6:9000/path/file.ts", Some("k=v"));
    assert!(matches!(r, Ok(RequestAction::Forward)));
    assert_eq!(ctx.route_mode, RouteMode::ProxyPath);
    let url = target(&ctx);
    assert_eq!(url.scheme, "http");
    assert_eq!(url.host.as_deref(), Some("116.199.5.6"));
    assert_eq!(url.port, Some(9000));
    assert_eq!(url.path, "/path/file.ts");
    assert_eq!(url.query.as_deref(), Some("k=v"));
    assert!(!ctx.is_m3u8);
    assert!(!ctx.needs_referer);
    assert!(!ctx.needs_rewrite_iptv);
    assert!(ctx.base_url.is_none());
}

#[test]
fn proxied_request_without_port() {
    let (_, ctx) = enter("/proxy/surrit.com/file.m3u8", None);
    let url = target(&ctx);
    assert_eq!(url.host.as_deref(), Some("surrit.com"));
    assert_eq!(url.port, None);
    assert_eq!(url.path, "/file.m3u8");
    assert!(!ctx.is_m3u8);
    assert!(ctx.needs_referer);
}

#[test]
fn proxied_host_is_as_long_as_it_can_be() {
    let (_, ctx) = enter("/proxy/h/surrit.com/c", None);
    let url = target(&ctx);
    assert_eq!(url.host.as_deref(), Some("h"));
    assert_eq!(url.path, "/surrit.com:80/c");
    assert!(ctx.needs_referer);
    let (_, ctx) = enter("/proxy/h/a:b/c", None);
    let url = target(&ctx);
    assert_eq!(url.host.as_deref(), Some("h"));
    assert_eq!(url.path, "/a:b/c");
    let (_, ctx) = enter("/proxy/h:81/a:82/c", None);
    let url = target(&ctx);
    assert_eq!(url.port, Some(81));
    assert_eq!(url.path, "/a:82/c");
}

#[test]
fn proxied_port_out_of_range_is_eighty() {
    let (_, ctx) = enter("/proxy/h:65536/c", None);
    assert_eq!(target(&ctx).port, None);
    let (_, ctx) = enter("/proxy/h:65535/c", None);
    assert_eq!(target(&ctx).port, Some(65535));
    let (_, ctx) = enter("/proxy/h:0081/c", None);
    assert_eq!(target(&ctx).port, Some(81));
    let (_, ctx) = enter("/proxy/h:\u{661}\u{662}/c", None);
    assert_eq!(target(&ctx).port, None);
    assert_eq!(target(&ctx).host.as_deref(), Some("h"));
    assert_eq!(target(&ctx).path, "/c");
}

#[test]
fn proxied_path_of_another_shape() {
    for path in [
        "/proxy/",
        "/proxy/h",
        "/proxy//x",
        "/proxy/h:80",
        "/proxy/h:x/y",
        "/proxy/:80/y",
        "/proxy/h:80/a\nb",
    ] {
        let (r, ctx) = enter(path, None);
        assert_error(&r, ErrorKind::HttpStatus(400), "Invalid proxy path");
        assert_eq!(ctx.route_mode, RouteMode::ProxyPath);
        assert!(ctx.target_url.is_none());
    }
}

#[test]
fn proxied_url_that_does_not_parse() {
    let (r, ctx) = enter("/proxy/a b:80/c", None);
    assert_error(&r, ErrorKind::InternalError, "Bad proxy URL");
    assert_eq!(ctx.route_mode, RouteMode::ProxyPath);
    assert!(ctx.target_url.is_none());
}

#[test]
fn anti_leech_playlist_request() {
    let (r, ctx) = enter("/", Some("url=https://surrit.com/a/b/playlist.m3u8"));
    match r {
        Ok(RequestAction::ForwardAs { raw_path, host }) => {
            assert_eq!(raw_path, "/a/b/playlist.m3u8");
            assert_eq!(host, "surrit.com");
        }
        other => panic!("{:?}", other),
    }
    assert_eq!(ctx.route_mode, RouteMode::AntiLeechQuery);
    assert!(ctx.is_m3u8);
    assert!(ctx.needs_referer);
    assert!(ctx.needs_rewrite_surrit);
    assert!(!ctx.needs_rewrite_iptv);
    assert_eq!(ctx.base_url.as_deref(), Some("https://surrit.com/a/b/"));
    assert_eq!(target(&ctx).path, "/a/b/playlist.m3u8");
}

#[test]
fn anti_leech_url_is_decoded() {
    let (r, ctx) = enter(
        "/any/path",
        Some("a=b&xurl=c&url=https%3A%2F%2Fexample.com%2fv.ts%3Fk%3Dv%26l&url=other"),
    );
    assert!(matches!(r, Ok(RequestAction::ForwardAs { .. })));
    let url = target(&ctx);
    assert_eq!(url.host.as_deref(), Some("example.com"));
    assert_eq!(url.path, "/v.ts");
    assert_eq!(url.query.as_deref(), Some("k=v&l"));
    assert!(!ctx.is_m3u8);
    assert!(!ctx.needs_rewrite_surrit);
    assert!(ctx.needs_referer);
    assert_eq!(ctx.base_url.as_deref(), Some("https://example.com/"));
}

#[test]
fn anti_leech_url_without_host() {
    let (r, ctx) = enter("/", Some("url=mailto:x.m3u8"));
    match r {
        Ok(RequestAction::ForwardAs { raw_path, host }) => {
            assert_eq!(raw_path, "x.m3u8");
            assert_eq!(host, "surrit.com");
        }
        other => panic!("{:?}", other),
    }
    assert_eq!(ctx.base_url.as_deref(), Some("mailto:x.m3u8"));
}

#[test]
fn requests_that_no_entrance_takes() {
    for (path, query) in [
        ("/", Some("xurl=1")),
        ("/other", None),
        ("/other", Some("a=b")),
        ("/", Some("url=")),
        ("/", Some("url=relative")),
        ("/", Some("url=http%3A%2F%2Fh%2F%FF")),
        ("/iptv", None),
        ("/proxy", None),
    ] {
        let (r, ctx) = enter(path, query);
        assert_error(
            &r,
            ErrorKind::HttpStatus(400),
            "Use /iptv/URL, /proxy/host:port/path, or ?url=encoded_target",
        );
        assert_fresh(&ctx);
    }
}

#[test]
fn percent_signs_that_encode_nothing_stay() {
    let (_, ctx) = enter("/", Some("url=http://h/%zz%2%25%2"));
    assert_eq!(target(&ctx).path, "/%zz%2%%2");
}

#[test]
fn encoded_target_is_decoded() {
    assert_eq!(
        decoded_target("a=b&url=http%3A%2F%2Fh%2F%C3%A9&url=c").as_deref(),
        Some("http://h/é")
    );
    assert_eq!(decoded_target("url=").as_deref(), Some(""));
    assert_eq!(decoded_target("url=%FF"), None);
    assert_eq!(decoded_target("xurl=a"), None);
    assert_eq!(
        USAGE,
        "Use /iptv/URL, /proxy/host:port/path, or ?url=encoded_target"
    );
}

#[test]
fn other_parameters_are_kept() {
    let mut url = TargetUrl {
        scheme: "http".to_string(),
        host: None,
        port: None,
        path: "/".to_string(),
        query: Some("a=b+c&real_ext=jpeg&=&&%26=%3D%2B%C3%A9&real_ext=x&d".to_string()),
    };
    assert!(url.take_real_ext());
    assert_eq!(url.query.as_deref(), Some("a=b+c&=&%26=%3D%2B%C3%A9&d="));
    assert!(!url.take_real_ext());
    assert_eq!(url.query.as_deref(), Some("a=b+c&=&%26=%3D%2B%C3%A9&d="));
}
