//! What holds of the proxy as a whole.

use vstd::prelude::*;
use vstd::utf8::*;

use crate::codec::{
    decoding_undoes_encoding, encoding_is_plain, field_name, field_value, form_decoded, form_text,
    is_url_char, lemma_first_pair, lemma_no_pairs, lemma_one_more_pair, percent_decoded, query_pairs,
    url_encoded, utf8_text,
};
use crate::config::{proxy_origin, ProxyConfig};
use crate::context::{Context, RouteMode};
use crate::number::{decimal, decimal_reads_back, is_digit};
use crate::pattern::{
    is_port_char, parts_fit_best, parts_with_port, parts_without_port, proxy_parts, PathParts,
};
use crate::marker::lemma_encode_concat;
use crate::playlist::{
    iptv_playlist, playlist_lines, renamed_segment, rewritten, segment_link, segment_place,
    surrit_playlist,
};
use crate::proxy::M3U8_NEEDLE;
use crate::replacing::{
    replacing_around, replacing_back, replacing_leaves_none, replacing_nothing,
};
use crate::response::{proxied_location, response_edits};
use crate::route::{
    anti_leech_entry, entry, iptv_entry, iptv_url, proxied_entry, proxied_url, proxy_path_entry,
    query_entry, refused, url_parameter, Action, Entry,
};
use crate::target::{
    asks_for_jpeg, query_of, query_reads_back, upstream_pairs, url_parse, UrlParts,
};
use crate::text::{
    has_part, lemma_filter_push, lemma_lines_concat, lemma_one_field, lemma_until,
    lemma_until_concat, lines, occurs_at, replaced, until,
};
use crate::upstream::{
    host_header, inserted_headers, path_and_query, request_edits, site_headers, upstream_uri,
};

verus! {

/// The path of a request for a place: what stands in front of its first question mark.
pub open spec fn request_path(place: Seq<char>) -> Seq<char> {
    place.take(until(place, '?') as int)
}

/// The query of a request for a place; empty if it has no question mark.
pub open spec fn request_query(place: Seq<char>) -> Seq<char> {
    let end = until(place, '?') as int;
    if end < place.len() {
        place.skip(end + 1)
    } else {
        seq![]
    }
}

/// How a request for a place enters the proxy.
pub open spec fn visit(place: Seq<char>, c: Context) -> Entry {
    entry(request_path(place), request_query(place), c)
}

/// A text ends with its first question mark.
pub open spec fn has_empty_query(s: Seq<char>) -> bool {
    until(s, '?') + 1 == s.len()
}

/// The encoded URL is found in the query that was made for it.
proof fn lemma_encoded_query(url: Seq<char>)
    ensures
        has_part("url="@ + url_encoded(url), "url="@),
        url_parameter("url="@ + url_encoded(url)) == Some(url_encoded(url)),
{
    reveal_strlit("url=");
    let encoded = url_encoded(url);
    let query = "url="@ + encoded;
    assert(query.subrange(0, 4) =~= "url="@);
    assert(occurs_at(query, "url="@, 0));
    encoding_is_plain(url);
    assert(!query.contains('&')) by {
        if query.contains('&') {
            let i = query.index_of('&');
            if i >= 4 {
                assert(query[i] == encoded[i - 4]);
                assert(is_url_char(encoded[i - 4]));
            }
        }
    }
    lemma_one_field(query, '&');
    assert("url="@.is_prefix_of(query));
    assert(seq![query][0] == query);
    assert(query.skip(4) =~= encoded);
}

/// The root with a query that names a URL is no other entrance.
proof fn lemma_root_entry(query: Seq<char>, c: Context)
    requires
        has_part(query, "url="@),
    ensures
        entry("/"@, query, c) == query_entry(query, c),
{
    reveal_strlit("/");
    assert("/"@ != "/health"@) by {
        reveal_strlit("/health");
    }
    assert("/"@ != "/favicon.ico"@) by {
        reveal_strlit("/favicon.ico");
    }
    assert(!"/iptv/"@.is_prefix_of("/"@)) by {
        reveal_strlit("/iptv/");
    }
    assert(!"/proxy/"@.is_prefix_of("/"@)) by {
        reveal_strlit("/proxy/");
    }
}

/// A place under `/?url=` leads to the URL that was encoded there.
pub proof fn encoded_place_leads_to_its_url(url: Seq<char>, c: Context)
    ensures
        visit("/?url="@ + url_encoded(url), c) == (match url_parse(url) {
            Ok(parts) => anti_leech_entry(url, parts, c),
            Err(_) => refused(c),
        }),
{
    let place = "/?url="@ + url_encoded(url);
    let query = "url="@ + url_encoded(url);
    assert(request_path(place) == "/"@ && request_query(place) == query) by {
        reveal_strlit("/?url=");
        reveal_strlit("url=");
        reveal_strlit("/");
        assert(place =~= seq!['/'] + (seq!['?'] + query));
        lemma_until_concat(seq!['/'], seq!['?'] + query, '?');
        assert(request_path(place) =~= "/"@);
        assert(request_query(place) =~= query);
    }
    lemma_encoded_query(url);
    lemma_root_entry(query, c);
    decoding_undoes_encoding(url);
}

/// A place under `/iptv/` leads to the URL that stands there, unless that URL ends with its first
/// question mark.
pub proof fn plain_place_leads_to_its_url(url: Seq<char>, c: Context)
    requires
        !has_empty_query(url),
    ensures
        visit("/iptv/"@ + url, c) == iptv_entry(
            request_path("/iptv/"@ + url),
            url_parse(url),
            c,
        ),
{
    reveal_strlit("/iptv/");
    reveal_strlit("/");
    reveal_strlit("/health");
    reveal_strlit("/favicon.ico");
    reveal_strlit("?");
    let place = "/iptv/"@ + url;
    lemma_until_concat("/iptv/"@, url, '?');
    lemma_until(url, '?');
    let path = request_path(place);
    let query = request_query(place);
    assert(path =~= "/iptv/"@ + request_path(url));
    assert(query =~= request_query(url));
    assert("/iptv/"@.is_prefix_of(path)) by {
        assert("/iptv/"@ =~= path.subrange(0, 6));
    }
    assert(path.len() >= 6);
    assert(path[1] == 'i');
    assert("/health"@[1] == 'h');
    assert("/favicon.ico"@[1] == 'f');
    assert("/"@.len() == 1);
    assert(path.skip(6) =~= request_path(url));
    assert(iptv_url(path, query) =~= url);
}

/// A redirect that the proxy hands on leads to the location that the upstream server gave, unless
/// it is handed on unencoded and ends with its first question mark.
pub proof fn redirect_leads_to_its_location(mode: RouteMode, location: Seq<char>, c: Context)
    requires
        mode == RouteMode::AntiLeechQuery || !has_empty_query(location),
    ensures
        ({
            let place = proxied_location(mode, location);
            visit(place, c) == (if mode == RouteMode::AntiLeechQuery {
                match url_parse(location) {
                    Ok(parts) => anti_leech_entry(location, parts, c),
                    Err(_) => refused(c),
                }
            } else {
                iptv_entry(request_path(place), url_parse(location), c)
            })
        }),
{
    if mode == RouteMode::AntiLeechQuery {
        encoded_place_leads_to_its_url(location, c);
    } else {
        plain_place_leads_to_its_url(location, c);
    }
}

/// A link to a segment leads to the segment: under its own URL, or, for a `.jpeg` segment, under
/// the URL that asks for the original name.
pub proof fn segment_link_leads_to_its_segment(origin: Seq<char>, url: Seq<char>, c: Context)
    ensures
        segment_link(origin, url) == origin + segment_place(url),
        visit(segment_place(url), c) == (if ".jpeg"@.is_suffix_of(url) {
            iptv_entry(request_path(segment_place(url)), url_parse(renamed_segment(url)), c)
        } else {
            match url_parse(url) {
                Ok(parts) => anti_leech_entry(url, parts, c),
                Err(_) => refused(c),
            }
        }),
{
    if ".jpeg"@.is_suffix_of(url) {
        reveal_strlit("real_ext=jpeg");
        let renamed = renamed_segment(url);
        lemma_until(renamed, '?');
        assert(renamed.last() == 'g');
        plain_place_leads_to_its_url(renamed, c);
    } else {
        encoded_place_leads_to_its_url(url, c);
    }
}

/// A segment that is linked under its own URL is fetched with the headers of the guarded site,
/// whatever its host.
pub proof fn linked_segments_keep_the_site_headers(url: Seq<char>, c: Context)
    requires
        !".jpeg"@.is_suffix_of(url),
    ensures
        url_parse(url) matches Ok(parts) ==> {
            let context = visit(segment_place(url), c).context;
            &&& context.target_url == Some(parts)
            &&& inserted_headers(context) == seq![("Host"@, host_header(parts))] + site_headers()
        },
{
    encoded_place_leads_to_its_url(url, c);
}

/// What follows the beginning of a direct link: the rest of the host, a port, and a path.
pub open spec fn link_rest(host_rest: Seq<char>, port: u16, tail: Seq<char>) -> Seq<char> {
    host_rest + ":"@ + decimal(port as nat) + "/"@ + tail
}

/// A direct link with a port that has been replaced in a playlist leads to the URL that it linked
/// to, unless its path ends with its first question mark.
pub proof fn replaced_link_leads_to_its_url(
    config: ProxyConfig,
    host_rest: Seq<char>,
    port: u16,
    tail: Seq<char>,
    c: Context,
)
    requires
        config.replacement_pattern@ == config.origin() + "/proxy/116.199."@,
        !host_rest.contains(':'),
        !host_rest.contains('?'),
        !request_path(tail).contains('\n'),
        !has_empty_query(tail),
    ensures
        ({
            let rest = link_rest(host_rest, port, tail);
            let place = "/proxy/116.199."@ + rest;
            &&& config.replacement_pattern@ + rest == config.origin() + place
            &&& visit(place, c) == proxied_entry(
                "116.199."@ + host_rest,
                url_parse(M3U8_NEEDLE@ + rest),
                c,
            )
        }),
{
    let rest = link_rest(host_rest, port, tail);
    let place = "/proxy/116.199."@ + rest;
    let number = decimal(port as nat);
    assert(config.replacement_pattern@ + rest =~= config.origin() + place);
    let parts = PathParts {
        host: "116.199."@ + host_rest,
        port: Some(number),
        rest: request_path(tail),
    };
    let query = request_query(tail);
    decimal_reads_back(port as nat);
    assert(parts.well_formed()) by {
        reveal_strlit("116.199.");
        if parts.host.contains(':') {
            let i = parts.host.index_of(':');
            if i >= 8 {
                assert(host_rest[i - 8] == ':');
            }
        }
        assert forall|i: int| 0 <= i < number.len() implies is_port_char(#[trigger] number[i]) by {
            assert(is_digit(number[i]));
        }
    }
    assert(request_path(place) == parts.joined() && request_query(place) == query) by {
        reveal_strlit("/proxy/116.199.");
        reveal_strlit("116.199.");
        reveal_strlit("/proxy/");
        reveal_strlit(":");
        reveal_strlit("/");
        let front = parts.joined().take(parts.joined().len() - parts.rest.len());
        assert(place =~= front + tail);
        assert(!front.contains('?')) by {
            if front.contains('?') {
                let i = front.index_of('?');
                let n = 15 + host_rest.len();
                assert(front[i] == place[i]);
                if 15 <= i < n {
                    assert(place[i] == host_rest[i - 15]);
                } else if n < i <= n + number.len() {
                    assert(place[i] == number[i - n - 1]);
                    assert(is_digit(number[i - n - 1]));
                }
            }
        }
        lemma_until_concat(front, tail, '?');
        lemma_until(tail, '?');
        assert(request_path(place) =~= front + parts.rest);
        assert(front + parts.rest =~= parts.joined());
        assert(request_query(place) =~= query);
    }
    parts_with_port(parts);
    assert(proxied_url(parts, query) == M3U8_NEEDLE@ + rest) by {
        reveal_strlit("http://116.199.");
        reveal_strlit("http://");
        reveal_strlit("116.199.");
        reveal_strlit("?");
        lemma_until(tail, '?');
        assert(proxied_url(parts, query) =~= M3U8_NEEDLE@ + rest);
    }
    lemma_proxy_entry(parts.joined(), query, c);
}

/// A direct link without port, with a path of one segment, that has been replaced in a playlist
/// leads to the URL that it linked to, with port 80 written out, unless its path ends with its first
/// question mark.
pub proof fn replaced_link_without_port_leads_to_port_80(
    host_rest: Seq<char>,
    tail: Seq<char>,
    c: Context,
)
    requires
        !host_rest.contains(':'),
        !host_rest.contains('?'),
        !request_path(tail).contains('\n'),
        !request_path(tail).contains('/'),
        !has_empty_query(tail),
    ensures
        visit("/proxy/116.199."@ + host_rest + "/"@ + tail, c) == proxied_entry(
            "116.199."@ + host_rest,
            url_parse(M3U8_NEEDLE@ + host_rest + ":80/"@ + tail),
            c,
        ),
{
    let place = "/proxy/116.199."@ + host_rest + "/"@ + tail;
    let parts = PathParts { host: "116.199."@ + host_rest, port: None, rest: request_path(tail) };
    let query = request_query(tail);
    assert(parts.well_formed()) by {
        reveal_strlit("116.199.");
        if parts.host.contains(':') {
            let i = parts.host.index_of(':');
            if i >= 8 {
                assert(host_rest[i - 8] == ':');
            }
        }
    }
    assert(request_path(place) == parts.joined() && request_query(place) == query) by {
        reveal_strlit("/proxy/116.199.");
        reveal_strlit("116.199.");
        reveal_strlit("/proxy/");
        reveal_strlit("/");
        let front = "/proxy/116.199."@ + host_rest + "/"@;
        assert(!front.contains('?')) by {
            if front.contains('?') {
                let i = front.index_of('?');
                if 15 <= i < 15 + host_rest.len() {
                    assert(front[i] == host_rest[i - 15]);
                }
            }
        }
        assert(place =~= front + tail);
        lemma_until_concat(front, tail, '?');
        lemma_until(tail, '?');
        assert(request_path(place) =~= front + parts.rest);
        assert(front + parts.rest =~= parts.joined());
        assert(request_query(place) =~= query);
    }
    parts_without_port(parts);
    assert(proxied_url(parts, query) == M3U8_NEEDLE@ + host_rest + ":80/"@ + tail) by {
        reveal_strlit("http://116.199.");
        reveal_strlit("http://");
        reveal_strlit("116.199.");
        reveal_strlit("?");
        reveal_strlit(":");
        reveal_strlit("/");
        reveal_strlit(":80/");
        lemma_until(tail, '?');
        assert(decimal(8) =~= seq!['8']);
        assert(decimal(80) =~= seq!['8', '0']);
        assert(proxied_url(parts, query) =~= M3U8_NEEDLE@ + host_rest + ":80/"@ + tail);
    }
    lemma_proxy_entry(parts.joined(), query, c);
}

/// A path below `/proxy/` is no other entrance.
proof fn lemma_proxy_entry(path: Seq<char>, query: Seq<char>, c: Context)
    requires
        proxy_parts(path) is Some,
    ensures
        entry(path, query, c) == proxy_path_entry(path, query, c),
{
    parts_fit_best(path);
    reveal_strlit("/proxy/");
    assert(path.subrange(0, 7) =~= "/proxy/"@);
    assert(path != "/health"@) by {
        reveal_strlit("/health");
        assert("/health"@[1] == 'h');
    }
    assert(path != "/"@) by {
        reveal_strlit("/");
    }
    assert(path != "/favicon.ico"@) by {
        reveal_strlit("/favicon.ico");
        assert("/favicon.ico"@[1] == 'f');
    }
    assert(!"/iptv/"@.is_prefix_of(path)) by {
        reveal_strlit("/iptv/");
        if "/iptv/"@.is_prefix_of(path) {
            assert("/iptv/"@[1] == path[1]);
        }
    }
}

/// In a playlist that has been rewritten no direct link is left, if the proxy's own address does
/// not make one.
pub proof fn no_direct_link_is_left(body: Seq<u8>, local_ip: Seq<char>, bind_port: u16)
    requires
        !has_part(proxy_origin(local_ip, bind_port) + "/proxy/116.199."@, M3U8_NEEDLE@),
    ensures
        ({
            let replacement = proxy_origin(local_ip, bind_port) + "/proxy/116.199."@;
            let new_body = iptv_playlist(body, replacement);
            &&& utf8_text(new_body) matches Some(text) ==> !has_part(text, M3U8_NEEDLE@)
            &&& iptv_playlist(new_body, replacement) == new_body
        }),
{
    let replacement = proxy_origin(local_ip, bind_port) + "/proxy/116.199."@;
    if valid_utf8(body) {
        let text = decode_utf8(body);
        let new_text = replaced(text, M3U8_NEEDLE@, replacement);
        reveal_strlit("http://");
        reveal_strlit("http://116.199.");
        reveal_strlit("/proxy/116.199.");
        replacing_leaves_none(text, M3U8_NEEDLE@, replacement);
        encode_utf8_valid_utf8(new_text);
        encode_utf8_decode_utf8(new_text);
        replacing_nothing(new_text, M3U8_NEEDLE@, replacement);
    }
}

/// Entering keeps a context well-formed.
pub proof fn entering_keeps_the_context_well_formed(path: Seq<char>, query: Seq<char>, c: Context)
    requires
        c.well_formed(),
    ensures
        entry(path, query, c).context.well_formed(),
{
}

/// A request that is forwarded has a target, and one that the proxy answers itself leaves the
/// context as it was.
pub proof fn forwarded_requests_have_a_target(path: Seq<char>, query: Seq<char>, c: Context)
    ensures
        match entry(path, query, c).outcome {
            Ok(Action::Respond { .. }) => entry(path, query, c).context == c,
            Ok(_) => entry(path, query, c).context.target_url is Some,
            Err(_) => entry(path, query, c).context == (Context {
                route_mode: entry(path, query, c).context.route_mode,
                ..c
            }),
        },
{
}

/// Of a new request, direct links are replaced and original names restored only behind `/iptv/`;
/// segments are linked only behind `?url=`, where the headers of the guarded site are always sent.
pub proof fn what_is_done_follows_the_entrance(path: Seq<char>, query: Seq<char>)
    ensures
        ({
            let c = entry(path, query, Context::fresh()).context;
            &&& c.needs_rewrite_iptv ==> c.route_mode == RouteMode::IptvDirect && c.is_m3u8
            &&& c.needs_jpeg_fix ==> c.route_mode == RouteMode::IptvDirect
            &&& c.needs_rewrite_surrit ==> c.route_mode == RouteMode::AntiLeechQuery && c.is_m3u8
            &&& c.base_url is Some <==> c.route_mode == RouteMode::AntiLeechQuery
            &&& c.route_mode == RouteMode::AntiLeechQuery ==> c.needs_referer
        }),
{
}

/// A body is only rewritten where compression was declined and its length is not announced.
pub proof fn rewriting_is_prepared(
    body: Seq<u8>,
    config: ProxyConfig,
    status: u16,
    location: Option<Seq<char>>,
    c: Context,
)
    ensures
        rewritten(body, config, c) == body || {
            &&& response_edits(status, location, c).remove_content_length
            &&& request_edits(c) matches Ok(edits) ==> edits.remove_accept_encoding
        },
{
}

proof fn lemma_nothing_to_decode(bytes: Seq<u8>)
    requires
        forall|i: int| 0 <= i < bytes.len() ==> #[trigger] bytes[i] != 0x25,
    ensures
        percent_decoded(bytes) == bytes,
    decreases bytes.len(),
{
    if bytes.len() > 0 {
        assert forall|i: int| 0 <= i < bytes.skip(1).len() implies #[trigger] bytes.skip(1)[i]
            != 0x25 by {
            assert(bytes.skip(1)[i] == bytes[i + 1]);
        }
        lemma_nothing_to_decode(bytes.skip(1));
        assert(bytes =~= seq![bytes[0]] + bytes.skip(1));
    } else {
        assert(bytes =~= seq![]);
    }
}

/// An ASCII text without plus and percent signs stands for itself in a form.
proof fn lemma_plain_form_text(s: Seq<char>)
    requires
        is_ascii_chars(s),
        !s.contains('+'),
        !s.contains('%'),
    ensures
        form_text(s) == s,
{
    let bytes = encode_utf8(s);
    is_ascii_chars_encode_utf8(s);
    assert forall|i: int| 0 <= i < bytes.len() implies #[trigger] bytes[i] != 0x25 && bytes[i]
        != 0x2b by {
        assert(s.contains(s[i]));
        assert(s[i] as u8 == bytes[i]);
    }
    assert(bytes.map_values(
        |b: u8|
            if b == 0x2b {
                0x20u8
            } else {
                b
            },
    ) =~= bytes);
    lemma_nothing_to_decode(bytes);
    assert(form_decoded(s) == bytes);
    encode_utf8_valid_utf8(s);
    encode_utf8_decode_utf8(s);
}

/// The field that asks for the original name.
proof fn lemma_asking_field()
    ensures
        !"real_ext=jpeg"@.contains('&'),
        "real_ext=jpeg"@.len() > 0,
        form_text(field_name("real_ext=jpeg"@)) == "real_ext"@,
        form_text(field_value("real_ext=jpeg"@)) == "jpeg"@,
{
    reveal_strlit("real_ext=jpeg");
    reveal_strlit("real_ext");
    reveal_strlit("jpeg");
    let field = "real_ext=jpeg"@;
    assert(field =~= "real_ext"@ + (seq!['='] + "jpeg"@));
    lemma_until_concat("real_ext"@, seq!['='] + "jpeg"@, '=');
    assert(field_name(field) =~= "real_ext"@);
    assert(field_value(field) =~= "jpeg"@);
    lemma_plain_form_text("real_ext"@);
    lemma_plain_form_text("jpeg"@);
}

/// The request for the original name is one pair, which is not meant for the upstream server.
proof fn lemma_asking_pair(before: Seq<(Seq<char>, Seq<char>)>)
    ensures
        asks_for_jpeg(before.push(("real_ext"@, "jpeg"@))),
        upstream_pairs(before.push(("real_ext"@, "jpeg"@))) == upstream_pairs(before),
{
    let pair = ("real_ext"@, "jpeg"@);
    assert(before.push(pair).last() == pair);
    lemma_filter_push(before, pair, |pair: (Seq<char>, Seq<char>)| pair.0 != "real_ext"@);
}

/// A query to which the request for the original name has been added asks for it, and what is left
/// for the upstream server is what the query held before.
pub proof fn added_request_is_found_and_removed(query: Seq<char>)
    ensures
        asks_for_jpeg(query_pairs(query + "&real_ext=jpeg"@)),
        upstream_pairs(query_pairs(query + "&real_ext=jpeg"@)) == upstream_pairs(query_pairs(query)),
{
    let field = "real_ext=jpeg"@;
    assert(query + "&real_ext=jpeg"@ =~= query + seq!['&'] + field) by {
        reveal_strlit("&real_ext=jpeg");
        reveal_strlit("real_ext=jpeg");
    }
    lemma_asking_field();
    lemma_one_more_pair(query, field);
    lemma_asking_pair(query_pairs(query));
}

/// A query that is the request for the original name asks for it, and leaves nothing for the
/// upstream server.
proof fn lemma_sole_request()
    ensures
        asks_for_jpeg(query_pairs("real_ext=jpeg"@)),
        upstream_pairs(query_pairs("real_ext=jpeg"@)) == upstream_pairs(query_pairs(seq![])),
{
    let none = Seq::<(Seq<char>, Seq<char>)>::empty();
    let pair = ("real_ext"@, "jpeg"@);
    lemma_asking_field();
    lemma_no_pairs();
    lemma_first_pair("real_ext=jpeg"@);
    assert(seq![pair] =~= none.push(pair));
    lemma_asking_pair(none);
}

/// The URL of a `.jpeg` segment under the name that players know asks for the original name, and
/// what its query leaves for the upstream server is what the segment's own query does.
pub proof fn renamed_segment_asks_for_its_name(url: Seq<char>)
    ensures
        ({
            let before = request_query(replaced(url, ".jpeg"@, ".ts"@));
            let query = request_query(renamed_segment(url));
            &&& asks_for_jpeg(query_pairs(query))
            &&& upstream_pairs(query_pairs(query)) == upstream_pairs(query_pairs(before))
        }),
{
    let ts_url = replaced(url, ".jpeg"@, ".ts"@);
    let renamed = renamed_segment(url);
    let end = until(ts_url, '?') as int;
    let front = ts_url.take(end);
    lemma_until(ts_url, '?');
    assert(!front.contains('?'));
    if ts_url.contains('?') {
        let query = ts_url.skip(end + 1);
        assert(end < ts_url.len());
        assert(renamed =~= front + (seq!['?'] + (query + "&real_ext=jpeg"@))) by {
            reveal_strlit("&");
            reveal_strlit("real_ext=jpeg");
            reveal_strlit("&real_ext=jpeg");
        }
        lemma_until_concat(front, seq!['?'] + (query + "&real_ext=jpeg"@), '?');
        assert(request_query(renamed) =~= query + "&real_ext=jpeg"@);
        added_request_is_found_and_removed(query);
    } else {
        assert(end == ts_url.len());
        assert(renamed =~= front + (seq!['?'] + "real_ext=jpeg"@)) by {
            reveal_strlit("?");
        }
        lemma_until_concat(front, seq!['?'] + "real_ext=jpeg"@, '?');
        assert(request_query(renamed) =~= "real_ext=jpeg"@);
        lemma_sole_request();
    }
}

/// A URL from which the request for the original name has been taken has all its other parameters,
/// and no longer asks.
pub proof fn other_parameters_are_kept(url: UrlParts)
    ensures
        url.without_real_ext().pairs() == upstream_pairs(url.pairs()),
        !asks_for_jpeg(url.without_real_ext().pairs()),
{
    let pairs = upstream_pairs(url.pairs());
    query_reads_back(pairs);
    if asks_for_jpeg(pairs) {
        let keep = |pair: (Seq<char>, Seq<char>)| pair.0 != "real_ext"@;
        let i = pairs.index_of(("real_ext"@, "jpeg"@));
        url.pairs().lemma_filter_pred(keep, i);
    }
}

/// A path with `.ts` in place of `.jpeg` becomes the original path again, if that had no `.ts` in it,
/// whatever the query; in the query `.ts` is replaced too.
pub proof fn renamed_path_is_restored(original: Seq<char>, url: UrlParts)
    requires
        !has_part(original, ".ts"@),
        url.path == replaced(original, ".jpeg"@, ".ts"@),
    ensures
        upstream_uri(url, true) == (match url.query {
            Some(query) => original + "?"@ + replaced(query, ".ts"@, ".jpeg"@),
            None => original,
        }),
{
    reveal_strlit("?");
    reveal_strlit(".ts");
    reveal_strlit(".jpeg");
    replacing_back(original, ".jpeg"@, ".ts"@);
    if let Some(query) = url.query {
        assert(path_and_query(url) =~= url.path.push('?') + query);
        replacing_around(url.path, '?', query, ".ts"@, ".jpeg"@);
        assert(original.push('?') =~= original + "?"@);
    }
}

/// The proxy asks the upstream server for a `.jpeg` segment under its original name: of a URL whose
/// path is one with `.ts` in place of `.jpeg`, and whose query asks for the original name, the
/// upstream server gets the original path, if that had no `.ts` in it. Behind the question mark
/// stand the other parameters, in which `.ts` is replaced too.
pub proof fn original_name_is_restored(
    original: Seq<char>,
    url: UrlParts,
    path: Seq<char>,
    c: Context,
)
    requires
        !has_part(original, ".ts"@),
        url.path == replaced(original, ".jpeg"@, ".ts"@),
        asks_for_jpeg(url.pairs()),
    ensures
        ({
            let e = iptv_entry(path, Ok(url), c);
            let query = query_of(upstream_pairs(url.pairs()));
            let target = UrlParts { query: Some(query), ..url };
            &&& e.context.needs_jpeg_fix
            &&& e.context.target_url == Some(target)
            &&& upstream_uri(target, true) == original + "?"@ + replaced(query, ".ts"@, ".jpeg"@)
        }),
{
    renamed_path_is_restored(original, url.without_real_ext());
}

/// The link to a `.jpeg` segment leads to the segment under its original name: if the URL that the
/// link holds has the renamed path and asks for the original name, the upstream server gets the
/// original path, if that had no `.ts` in it, and the other parameters, in which `.ts` is replaced
/// too.
pub proof fn jpeg_segment_is_fetched_under_its_name(url: Seq<char>, original: Seq<char>, c: Context)
    requires
        ".jpeg"@.is_suffix_of(url),
        !has_part(original, ".ts"@),
    ensures
        match url_parse(renamed_segment(url)) {
            Ok(parts) => parts.path == replaced(original, ".jpeg"@, ".ts"@) && asks_for_jpeg(
                parts.pairs(),
            ) ==> {
                let context = visit(segment_place(url), c).context;
                let query = query_of(upstream_pairs(parts.pairs()));
                &&& context.needs_jpeg_fix
                &&& context.target_url matches Some(target)
                &&& upstream_uri(target, context.needs_jpeg_fix) == original + "?"@ + replaced(
                    query,
                    ".ts"@,
                    ".jpeg"@,
                )
            },
            Err(_) => true,
        },
{
    segment_link_leads_to_its_segment(seq![], url, c);
    match url_parse(renamed_segment(url)) {
        Ok(parts) => {
            if parts.path == replaced(original, ".jpeg"@, ".ts"@) && asks_for_jpeg(parts.pairs()) {
                original_name_is_restored(original, parts, request_path(segment_place(url)), c);
            }
        },
        Err(_) => {},
    }
}

/// What stands for some lines and then for others is what stands for all of them.
pub(crate) proof fn lemma_playlist_lines_concat(
    origin: Seq<char>,
    base: Seq<char>,
    left: Seq<Seq<char>>,
    right: Seq<Seq<char>>,
)
    ensures
        playlist_lines(origin, base, left + right) == playlist_lines(origin, base, left)
            + playlist_lines(origin, base, right),
    decreases right.len(),
{
    if right.len() == 0 {
        assert(left + right =~= left);
        assert(playlist_lines(origin, base, left) + playlist_lines(origin, base, right)
            =~= playlist_lines(origin, base, left));
    } else {
        assert((left + right).drop_last() =~= left + right.drop_last());
        lemma_playlist_lines_concat(origin, base, left, right.drop_last());
        assert(playlist_lines(origin, base, left + right) =~= playlist_lines(origin, base, left)
            + playlist_lines(origin, base, right));
    }
}

/// Bytes that are split behind a newline are UTF-8 if both parts are, and only then.
proof fn lemma_texts_of_parts(left: Seq<u8>, right: Seq<u8>)
    requires
        left.len() > 0,
        left.last() == 0x0a,
    ensures
        utf8_text(left + right) == (match (utf8_text(left), utf8_text(right)) {
            (Some(a), Some(b)) => Some(a + b),
            _ => None,
        }),
        utf8_text(left) matches Some(text) ==> text.len() > 0 && text.last() == '\n',
{
    let whole = left + right;
    let n = left.len() as int;
    if valid_utf8(left) {
        decode_utf8_encode_utf8(left);
        lemma_last_newline(decode_utf8(left));
    }
    if valid_utf8(left) && valid_utf8(right) {
        let a = decode_utf8(left);
        let b = decode_utf8(right);
        decode_utf8_encode_utf8(right);
        lemma_encode_concat(a, b);
        encode_utf8_valid_utf8(a + b);
        encode_utf8_decode_utf8(a + b);
    } else if valid_utf8(whole) {
        assert(whole[n - 1] == 0x0a);
        is_char_boundary_iff_not_is_continuation_byte(whole, n - 1);
        valid_utf8_split(whole, n - 1);
        let front = whole.subrange(0, n - 1);
        let line_break = seq![0x0au8];
        assert(valid_utf8(line_break)) by {
            reveal_with_fuel(valid_utf8, 2);
        }
        valid_utf8_concat(front, line_break);
        assert(left =~= front + line_break);
        assert(pop_first_scalar(whole.subrange(n - 1, whole.len() as int)) =~= right);
    }
}

/// A text whose encoding ends with a newline ends with one.
proof fn lemma_last_newline(text: Seq<char>)
    requires
        encode_utf8(text).len() > 0,
        encode_utf8(text).last() == 0x0a,
    ensures
        text.len() > 0,
        text.last() == '\n',
{
    let c = text.last() as u32;
    let last = seq![text.last()];
    lemma_encode_concat(text.drop_last(), last);
    assert(text =~= text.drop_last() + last);
    assert(last.drop_first() =~= Seq::<char>::empty());
    assert(encode_utf8(Seq::<char>::empty()) =~= Seq::<u8>::empty());
    assert(encode_utf8(last) =~= encode_scalar(c));
    char_is_scalar(text.last());
    char_u32_cast(text.last(), c);
    assert(encode_utf8(text).last() == encode_scalar(c).last());
    assert(0x80u8 | (c & 0x3f) as u8 >= 0x80u8) by (bit_vector);
    assert(c <= 0x7f && (c & 0x7f) as u8 == 0x0au8 ==> c == 0x0a) by (bit_vector);
}

/// A playlist whose direct links are replaced may be replaced piece by piece, if the pieces end
/// with their lines.
proof fn lemma_links_in_parts(left: Seq<u8>, right: Seq<u8>, replacement: Seq<char>)
    requires
        left.len() > 0,
        left.last() == 0x0a,
        utf8_text(left) is Some <==> utf8_text(right) is Some,
    ensures
        ({
            let first = iptv_playlist(left, replacement);
            let second = iptv_playlist(right, replacement);
            &&& iptv_playlist(left + right, replacement) == first + second
            &&& first.len() > 0
            &&& first.last() == 0x0a
            &&& utf8_text(first) is Some <==> utf8_text(second) is Some
        }),
{
    lemma_texts_of_parts(left, right);
    if valid_utf8(left) {
        let a = decode_utf8(left);
        let b = decode_utf8(right);
        let front = a.drop_last();
        let new_front = replaced(front, M3U8_NEEDLE@, replacement);
        let new_b = replaced(b, M3U8_NEEDLE@, replacement);
        reveal_strlit("http://116.199.");
        assert(a =~= front.push('\n') + seq![]);
        assert(a + b =~= front.push('\n') + b);
        replacing_around(front, '\n', seq![], M3U8_NEEDLE@, replacement);
        replacing_around(front, '\n', b, M3U8_NEEDLE@, replacement);
        assert(replaced(a, M3U8_NEEDLE@, replacement) =~= new_front.push('\n'));
        lemma_encode_concat(new_front.push('\n'), new_b);
        lemma_encode_concat(new_front, seq!['\n']);
        assert(new_front.push('\n') =~= new_front + seq!['\n']);
        is_ascii_chars_encode_utf8(seq!['\n']);
        encode_utf8_valid_utf8(new_front.push('\n'));
        encode_utf8_valid_utf8(new_b);
    }
}

/// A playlist whose segments are linked may be rewritten piece by piece, if the pieces end with
/// their lines.
proof fn lemma_segments_in_parts(
    left: Seq<u8>,
    right: Seq<u8>,
    origin: Seq<char>,
    base: Seq<char>,
)
    requires
        left.len() > 0,
        left.last() == 0x0a,
        utf8_text(left) is Some <==> utf8_text(right) is Some,
    ensures
        surrit_playlist(left + right, origin, base) == surrit_playlist(left, origin, base)
            + surrit_playlist(right, origin, base),
{
    lemma_texts_of_parts(left, right);
    if valid_utf8(left) {
        let a = lines(decode_utf8(left));
        let b = lines(decode_utf8(right));
        lemma_lines_concat(decode_utf8(left), decode_utf8(right));
        lemma_playlist_lines_concat(origin, base, a, b);
        lemma_encode_concat(playlist_lines(origin, base, a), playlist_lines(origin, base, b));
    }
}

/// A body that arrives in two pieces, of which the first ends with a newline, is rewritten piece by
/// piece to the same bytes as in one piece, unless just one of the pieces is UTF-8 and that one is
/// changed.
pub proof fn playlist_is_rewritten_piece_by_piece(
    left: Seq<u8>,
    right: Seq<u8>,
    config: ProxyConfig,
    c: Context,
)
    requires
        left.len() > 0,
        left.last() == 0x0a,
        ({
            ||| utf8_text(left) is Some <==> utf8_text(right) is Some
            ||| rewritten(left, config, c) == left && rewritten(right, config, c) == right
        }),
    ensures
        rewritten(left + right, config, c) == rewritten(left, config, c) + rewritten(
            right,
            config,
            c,
        ),
{
    let replacement = config.replacement_pattern@;
    let origin = config.origin();
    let base = c.base_url->0;
    if utf8_text(left) is Some <==> utf8_text(right) is Some {
        lemma_links_in_parts(left, right, replacement);
        lemma_segments_in_parts(left, right, origin, base);
        lemma_segments_in_parts(
            iptv_playlist(left, replacement),
            iptv_playlist(right, replacement),
            origin,
            base,
        );
    } else {
        lemma_texts_of_parts(left, right);
    }
}

} // verus!
