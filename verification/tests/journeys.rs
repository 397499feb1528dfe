//! Links that the proxy hands out, followed back into the proxy.

use iptv_proxy::playlist::link_to_segment;
use iptv_proxy::{IptvProxy, ProxyConfig, ProxyContext, RequestAction, RouteMode};

const ORIGIN: &str = "http://192.168.1.3:8080";

fn proxy() -> IptvProxy {
    IptvProxy::new(ProxyConfig::new("192.168.1.3".to_string(), 8080))
}

fn visit(place: &str) -> (Option<RequestAction>, ProxyContext) {
    let (path, query) = match place.split_once('?') {
        Some((path, query)) => (path, Some(query)),
        None => (place, None),
    };
    let proxy = proxy();
    let mut ctx = proxy.new_ctx();
    let action = proxy.request_filter(path, query, &mut ctx).ok();
    (action, ctx)
}

fn upstream(ctx: &ProxyContext) -> (String, u16, bool, String) {
    let peer = proxy().upstream_peer(ctx).unwrap();
    let plan = proxy().upstream_request_filter(ctx).unwrap();
    (peer.host, peer.port, peer.tls, plan.uri.unwrap())
}

#[test]
fn encoded_link_leads_back() {
    let url = "https://surrit.com/a/ü b/list.m3u8?k=v&l=%20";
    let link = link_to_segment(ORIGIN, url);
    let (action, ctx) = visit(link.strip_prefix(ORIGIN).unwrap());
    assert!(matches!(action, Some(RequestAction::ForwardAs { .. })));
    assert_eq!(ctx.base_url.as_deref(), Some("https://surrit.com/a/ü b/"));
    assert_eq!(
        upstream(&ctx),
        (
            "surrit.com".to_string(),
            443,
            true,
            "/a/%C3%BC%20b/list.m3u8?k=v&l=%20".to_string()
        )
    );
}

#[test]
fn jpeg_link_leads_back_to_the_original_name() {
    let link = link_to_segment(ORIGIN, "https://surrit.com/v.jpeg/s1.jpeg");
    let (action, ctx) = visit(link.strip_prefix(ORIGIN).unwrap());
    assert!(matches!(action, Some(RequestAction::Forward)));
    assert!(ctx.needs_jpeg_fix);
    assert!(ctx.needs_referer);
    assert_eq!(
        upstream(&ctx),
        (
            "surrit.com".to_string(),
            443,
            true,
            "/v.jpeg/s1.jpeg?".to_string()
        )
    );
}

#[test]
fn name_with_ts_in_it_is_not_restored() {
    let link = link_to_segment(ORIGIN, "https://surrit.com/v.ts/s1.jpeg");
    let (_, ctx) = visit(link.strip_prefix(ORIGIN).unwrap());
    assert_eq!(upstream(&ctx).3, "/v.jpeg/s1.jpeg?");
}

#[test]
fn replaced_link_leads_back() {
    let mut ctx = ProxyContext::new();
    ctx.needs_rewrite_iptv = true;
    let mut body = Some(b"http://116.199.7.8:9000/live/a.ts?t=1".to_vec());
    proxy().response_body_filter(&mut body, &ctx);
    let link = String::from_utf8(body.unwrap()).unwrap();
    let (action, ctx) = visit(link.strip_prefix(ORIGIN).unwrap());
    assert!(matches!(action, Some(RequestAction::Forward)));
    assert_eq!(ctx.route_mode, RouteMode::ProxyPath);
    assert_eq!(
        upstream(&ctx),
        (
            "116.199.7.8".to_string(),
            9000,
            false,
            "/live/a.ts?t=1".to_string()
        )
    );
}

#[test]
fn redirects_lead_to_their_location() {
    for mode in [
        RouteMode::AntiLeechQuery,
        RouteMode::IptvDirect,
        RouteMode::ProxyPath,
    ] {
        let mut ctx = ProxyContext::new();
        ctx.route_mode = mode;
        let place = proxy()
            .response_filter(302, Some("http://h:81/x?y=z&w"), &ctx)
            .location
            .unwrap();
        let (_, ctx) = visit(&place);
        assert_eq!(
            upstream(&ctx),
            ("h".to_string(), 81, false, "/x?y=z&w".to_string())
        );
    }
}

#[test]
fn empty_query_of_a_plain_location_is_lost() {
    let (_, ctx) = visit("/iptv/http://h/x?");
    assert_eq!(upstream(&ctx).3, "/x");
}

#[test]
fn rewriting_again_changes_nothing() {
    let mut ctx = ProxyContext::new();
    ctx.needs_rewrite_iptv = true;
    let mut body = Some(b"a http://116.199.7.8:9000/b http://116.199.".to_vec());
    proxy().response_body_filter(&mut body, &ctx);
    let once = body.clone().unwrap();
    assert!(!String::from_utf8(once.clone()).unwrap().contains("http://116.199."));
    proxy().response_body_filter(&mut body, &ctx);
    assert_eq!(body.unwrap(), once);
}

#[test]
fn own_address_can_make_a_direct_link() {
    let proxy = IptvProxy::new(ProxyConfig::new("116.199.0.1".to_string(), 80));
    let mut ctx = ProxyContext::new();
    ctx.needs_rewrite_iptv = true;
    let mut body = Some(b"http://116.199.7.8/".to_vec());
    proxy.response_body_filter(&mut body, &ctx);
    let text = String::from_utf8(body.unwrap()).unwrap();
    assert_eq!(text, "http://116.199.0.1:80/proxy/116.199.7.8/");
    assert!(text.contains("http://116.199."));
}

#[test]
fn linked_segment_keeps_the_site_headers() {
    let link = link_to_segment(ORIGIN, "https://example.com/key.bin");
    let (_, ctx) = visit(link.strip_prefix(ORIGIN).unwrap());
    let plan = proxy().upstream_request_filter(&ctx).unwrap();
    let names: Vec<&str> = plan.headers.iter().map(|(name, _)| name.as_str()).collect();
    assert_eq!(names, vec!["Host", "Referer", "User-Agent", "Accept"]);
    assert_eq!(plan.headers[0].1, "example.com");
}

#[test]
fn what_is_done_follows_the_entrance() {
    for place in [
        "/health",
        "/iptv/http://116.199.1.1/a.m3u8",
        "/iptv/http://116.199.1.1/a.ts?real_ext=jpeg",
        "/iptv/x",
        "/proxy/116.199.1.1:80/a.m3u8",
        "/proxy/x",
        "/?url=https%3A%2F%2Fsurrit.com%2Fa.m3u8",
        "/?url=https%3A%2F%2Fsurrit.com%2Fa.ts",
        "/?url=x",
    ] {
        let (action, ctx) = visit(place);
        match action {
            Some(RequestAction::Respond { .. }) | None => assert!(ctx.target_url.is_none()),
            Some(_) => assert!(ctx.target_url.is_some()),
        }
        assert!(!ctx.needs_rewrite_surrit || ctx.base_url.is_some());
        assert!(!ctx.needs_rewrite_iptv || ctx.route_mode == RouteMode::IptvDirect);
        assert!(!ctx.needs_jpeg_fix || ctx.route_mode == RouteMode::IptvDirect);
        assert!(!ctx.needs_rewrite_surrit || ctx.route_mode == RouteMode::AntiLeechQuery);
        assert!(ctx.route_mode != RouteMode::AntiLeechQuery || ctx.needs_referer);
        let edits = proxy().response_filter(200, None, &ctx);
        let rewrites = ctx.needs_rewrite_iptv || ctx.needs_rewrite_surrit;
        assert_eq!(edits.remove_content_length, rewrites);
        if let Ok(plan) = proxy().upstream_request_filter(&ctx) {
            assert_eq!(plan.remove_accept_encoding, rewrites);
        }
    }
}

#[test]
fn replaced_link_without_port_leads_to_port_80() {
    let (_, ctx) = visit("/proxy/116.199.7.8/a:b.ts?t=1");
    assert_eq!(
        upstream(&ctx),
        (
            "116.199.7.8".to_string(),
            80,
            false,
            "/a:b.ts?t=1".to_string()
        )
    );
}

#[test]
fn jpeg_link_with_a_query_leads_back_to_the_original_name() {
    let link = link_to_segment(ORIGIN, "https://surrit.com/s1.jpeg?b=c+d&e=f.jpeg");
    let (_, ctx) = visit(link.strip_prefix(ORIGIN).unwrap());
    assert!(ctx.needs_jpeg_fix);
    assert_eq!(upstream(&ctx).3, "/s1.jpeg?b=c+d&e=f.jpeg");
}

#[test]
fn path_without_query_is_restored() {
    let (_, mut ctx) = visit("/iptv/http://h/a.ts");
    ctx.needs_jpeg_fix = true;
    assert_eq!(upstream(&ctx).3, "/a.jpeg");
}
