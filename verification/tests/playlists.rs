use iptv_proxy::playlist::{link_segments, link_to_segment};
use iptv_proxy::{IptvProxy, ProxyConfig, ProxyContext};

const BASE: &str = "https://surrit.com/a/";

fn proxy() -> IptvProxy {
    IptvProxy::new(ProxyConfig::new("192.168.1.3".to_string(), 8080))
}

fn iptv(body: &[u8]) -> Vec<u8> {
    let mut ctx = ProxyContext::new();
    ctx.needs_rewrite_iptv = true;
    let mut piece = Some(body.to_vec());
    proxy().response_body_filter(&mut piece, &ctx);
    piece.unwrap()
}

fn surrit(body: &[u8]) -> Vec<u8> {
    let mut ctx = ProxyContext::new();
    ctx.needs_rewrite_surrit = true;
    ctx.base_url = Some(BASE.to_string());
    let mut piece = Some(body.to_vec());
    proxy().response_body_filter(&mut piece, &ctx);
    piece.unwrap()
}

#[test]
fn configuration_makes_the_replacement() {
    let config = ProxyConfig::new("10.0.0.7".to_string(), 65535);
    assert_eq!(config.local_ip, "10.0.0.7");
    assert_eq!(config.bind_port, 65535);
    assert_eq!(
        config.replacement_pattern,
        "http://10.0.0.7:65535/proxy/116.199."
    );
    assert_eq!(
        ProxyConfig::new("h".to_string(), 0).replacement_pattern,
        "http://h:0/proxy/116.199."
    );
    assert_eq!(config.clone().replacement_pattern, config.replacement_pattern);
}

#[test]
fn direct_links_are_replaced() {
    let out = iptv("#EXTM3U\nhttp://116.199.1.2:90/a.ts\nhttp://116.19.1.2/é\nhttp://116.199.http://116.199.\n".as_bytes());
    assert_eq!(
        String::from_utf8(out).unwrap(),
        "#EXTM3U\nhttp://192.168.1.3:8080/proxy/116.199.1.2:90/a.ts\nhttp://116.19.1.2/é\nhttp://192.168.1.3:8080/proxy/116.199.http://192.168.1.3:8080/proxy/116.199.\n"
    );
}

#[test]
fn bodies_without_direct_links_stay() {
    assert_eq!(iptv(b"#EXTM3U\nfile.ts\n"), b"#EXTM3U\nfile.ts\n");
    assert_eq!(iptv(b""), b"");
    assert_eq!(iptv(b"\xff\xfe"), b"\xff\xfe");
}

#[test]
fn bodies_that_are_not_utf8_stay() {
    assert_eq!(iptv(b"http://116.199.1.1/\xff"), b"http://116.199.1.1/\xff");
    assert_eq!(surrit(b"seg.ts\n\xff"), b"seg.ts\n\xff");
}

#[test]
fn bodies_of_other_responses_stay() {
    let ctx = ProxyContext::new();
    let mut piece = Some(b"http://116.199.1.1/\nseg.ts".to_vec());
    proxy().response_body_filter(&mut piece, &ctx);
    assert_eq!(piece.unwrap(), b"http://116.199.1.1/\nseg.ts");
    let mut nothing: Option<Vec<u8>> = None;
    proxy().response_body_filter(&mut nothing, &ctx);
    assert!(nothing.is_none());
}

#[test]
fn segments_are_linked() {
    let out = surrit(b"#EXTM3U\n#EXTINF:4,\r\nvideo1.jpeg\nvideo2.ts\r\n\n \t\nhttps://h/x?y\nhttp://h/z.jpeg");
    assert_eq!(
        String::from_utf8(out).unwrap(),
        "#EXTM3U#EXTINF:4,\
         http://192.168.1.3:8080/iptv/https://surrit.com/a/video1.ts?real_ext=jpeg\n\
         http://192.168.1.3:8080/?url=https%3A%2F%2Fsurrit.com%2Fa%2Fvideo2.ts\n \t\
         http://192.168.1.3:8080/?url=https%3A%2F%2Fh%2Fx%3Fy\n\
         http://192.168.1.3:8080/iptv/http://h/z.ts?real_ext=jpeg\n"
    );
}

#[test]
fn both_rewritings_in_a_row() {
    let mut ctx = ProxyContext::new();
    ctx.needs_rewrite_iptv = true;
    ctx.needs_rewrite_surrit = true;
    ctx.base_url = Some(BASE.to_string());
    let mut piece = Some(b"http://116.199.1.1/a.jpeg\n".to_vec());
    proxy().response_body_filter(&mut piece, &ctx);
    assert_eq!(
        String::from_utf8(piece.unwrap()).unwrap(),
        "http://192.168.1.3:8080/iptv/http://192.168.1.3:8080/proxy/116.199.1.1/a.ts?real_ext=jpeg\n"
    );
}

#[test]
fn last_line_keeps_a_bare_carriage_return() {
    assert_eq!(
        link_segments("O", "B", "#a\r\n#b\r"),
        "#a#b\r"
    );
    assert_eq!(link_segments("O", "B", ""), "");
}

#[test]
fn jpeg_segment_with_a_query() {
    assert_eq!(
        link_to_segment("O", "http://h/a.jpeg?b=c.jpeg"),
        "O/iptv/http://h/a.ts?b=c.ts&real_ext=jpeg"
    );
    assert_eq!(
        link_to_segment("O", "http://h/a.jpeg?b"),
        "O/?url=http%3A%2F%2Fh%2Fa.jpeg%3Fb"
    );
}

#[test]
fn every_byte_is_encoded() {
    for code in 0u32..0x80 {
        let c = char::from_u32(code).unwrap();
        let expected = if c.is_ascii_alphanumeric() || "-._~".contains(c) {
            format!("O/?url={}", c)
        } else {
            format!("O/?url=%{:02X}", code)
        };
        assert_eq!(link_to_segment("O", &c.to_string()), expected);
    }
    assert_eq!(link_to_segment("O", "é"), "O/?url=%C3%A9");
}

#[test]
fn base_url_is_only_needed_for_text() {
    let mut ctx = ProxyContext::new();
    ctx.needs_rewrite_surrit = true;
    let mut nothing: Option<Vec<u8>> = None;
    proxy().response_body_filter(&mut nothing, &ctx);
    assert!(nothing.is_none());
    let mut piece = Some(b"seg.ts\n\xff".to_vec());
    proxy().response_body_filter(&mut piece, &ctx);
    assert_eq!(piece.unwrap(), b"seg.ts\n\xff");
}

#[test]
fn links_are_found_in_bytes() {
    assert!(proxy().finds_link(b"http://116.199."));
    assert!(proxy().finds_link(b"\xffhttp://116.199.1.1/"));
    assert!(!proxy().finds_link(b"http://116.19"));
    assert!(!proxy().finds_link(b"https://116.199."));
    assert!(!proxy().finds_link(b""));
}

#[test]
fn playlists_are_rewritten_piece_by_piece() {
    let body = "#EXTM3U\r\nhttp://116.199.1.2:90/é.ts\n\nvideo.jpeg\nhttp://116.199.\nx".as_bytes();
    for rewrite in [iptv as fn(&[u8]) -> Vec<u8>, surrit] {
        let whole = rewrite(body);
        for at in 1..=body.len() {
            if body[at - 1] == b'\n' {
                let pieces = [rewrite(&body[..at]), rewrite(&body[at..])].concat();
                assert_eq!(pieces, whole);
            }
        }
    }
}

#[test]
fn pieces_that_are_not_both_text_differ_from_the_whole() {
    assert_eq!(iptv(b"http://116.199.\n\xff"), b"http://116.199.\n\xff");
    assert_eq!(
        iptv(b"http://116.199.\n"),
        b"http://192.168.1.3:8080/proxy/116.199.\n"
    );
    assert_eq!(iptv(b"\xff"), b"\xff");
}
