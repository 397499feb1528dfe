//! What becomes of a body, line by line and link by link.

use vstd::prelude::*;
use vstd::utf8::*;

use crate::codec::{url_encoded, utf8_text};
use crate::config::ProxyConfig;
use crate::context::{Context, RouteMode};
use crate::entering::iptv_request_is_forwarded;
use crate::forwarding::headers_follow_target_and_site;
use crate::laws::{
    encoded_place_leads_to_its_url, has_empty_query, lemma_playlist_lines_concat,
    no_direct_link_is_left, plain_place_leads_to_its_url, visit,
};
use crate::marker::lemma_encode_concat;
use crate::number::decimal;
use crate::playlist::{playlist_line, playlist_lines, rewritten, segment_link};
use crate::reading::{lines_stand_between_endings, occurrences_are_replaced_in_turn};
use crate::route::entry;
use crate::target::{url_parse, UrlParts};
use crate::text::{has_part, is_blank, lemma_until, lines, replaced};
use crate::upstream::inserted_headers;

verus! {

proof fn lemma_text(text: Seq<char>)
    ensures
        utf8_text(encode_utf8(text)) == Some(text),
{
    encode_utf8_valid_utf8(text);
    encode_utf8_decode_utf8(text);
}

/// A body stays if nothing is to be rewritten, and if it is not UTF-8.
pub proof fn other_bodies_stay(body: Seq<u8>, config: ProxyConfig, c: Context)
    requires
        (!c.needs_rewrite_iptv && !c.needs_rewrite_surrit) || !valid_utf8(body),
    ensures
        rewritten(body, config, c) == body,
{
}

/// Where both is to be done, links are replaced first, and segments are linked in what comes out.
pub proof fn links_are_replaced_before_segments(body: Seq<u8>, config: ProxyConfig, c: Context)
    requires
        c.needs_rewrite_iptv,
        c.needs_rewrite_surrit,
    ensures
        ({
            let first = Context { needs_rewrite_surrit: false, ..c };
            let second = Context { needs_rewrite_iptv: false, ..c };
            rewritten(body, config, c) == rewritten(rewritten(body, config, first), config, second)
        }),
{
}

// ---------------------------------------------------------------------------
// Direct links
// ---------------------------------------------------------------------------

/// Every beginning of a direct link is replaced in turn, and nothing else changes, whatever else is
/// known of the request.
pub proof fn direct_links_are_replaced_in_turn(
    before: Seq<char>,
    after: Seq<char>,
    config: ProxyConfig,
    c: Context,
)
    requires
        c.needs_rewrite_iptv,
        !c.needs_rewrite_surrit,
        !has_part(before, "http://116.199."@),
    ensures
        rewritten(encode_utf8(before), config, c) == encode_utf8(before),
        rewritten(encode_utf8(before + "http://116.199."@ + after), config, c) == encode_utf8(
            before + config.replacement_pattern@,
        ) + rewritten(encode_utf8(after), config, c),
{
    let with = config.replacement_pattern@;
    let whole = before + "http://116.199."@ + after;
    reveal_strlit("http://116.199.");
    lemma_text(before);
    lemma_text(after);
    lemma_text(whole);
    occurrences_are_replaced_in_turn(before, "http://116.199."@, after, with);
    lemma_encode_concat(before + with, replaced(after, "http://116.199."@, with));
}

/// A playlist of an IPTV server that is asked for by `/iptv/` has its direct links replaced by links
/// to the proxy.
pub proof fn iptv_playlist_is_led_through_the_proxy(
    url: Seq<char>,
    query: Seq<char>,
    parts: UrlParts,
    host: Seq<char>,
    before: Seq<char>,
    after: Seq<char>,
    config: ProxyConfig,
    c: Context,
)
    requires
        url_parse(
            if query.len() == 0 {
                url
            } else {
                url + "?"@ + query
            },
        ) == Ok::<UrlParts, Seq<char>>(parts),
        parts.host == Some(host),
        has_part("/iptv/"@ + url, ".m3u8"@),
        has_part(host, "116.199"@),
        config.replacement_pattern@ == config.origin() + "/proxy/116.199."@,
        !c.needs_rewrite_surrit,
        !has_part(before, "http://116.199."@),
    ensures
        ({
            let state = entry("/iptv/"@ + url, query, c).context;
            let origin = "http://"@ + config.local_ip@ + ":"@ + decimal(config.bind_port as nat);
            &&& rewritten(encode_utf8(before), config, state) == encode_utf8(before)
            &&& rewritten(encode_utf8(before + "http://116.199."@ + after), config, state)
                == encode_utf8(before + origin + "/proxy/116.199."@) + rewritten(
                encode_utf8(after),
                config,
                state,
            )
        }),
{
    iptv_request_is_forwarded(url, query, parts, c);
    let state = entry("/iptv/"@ + url, query, c).context;
    direct_links_are_replaced_in_turn(before, after, config, state);
    let origin = "http://"@ + config.local_ip@ + ":"@ + decimal(config.bind_port as nat);
    assert(before + config.replacement_pattern@ =~= before + origin + "/proxy/116.199."@);
}

/// In a playlist of an IPTV server that is asked for by `/iptv/` no direct link is left, if the
/// proxy's own address does not make one.
pub proof fn iptv_playlist_has_no_direct_link(
    url: Seq<char>,
    query: Seq<char>,
    parts: UrlParts,
    host: Seq<char>,
    text: Seq<char>,
    config: ProxyConfig,
    c: Context,
)
    requires
        url_parse(
            if query.len() == 0 {
                url
            } else {
                url + "?"@ + query
            },
        ) == Ok::<UrlParts, Seq<char>>(parts),
        parts.host == Some(host),
        has_part("/iptv/"@ + url, ".m3u8"@),
        has_part(host, "116.199"@),
        config.replacement_pattern@ == config.origin() + "/proxy/116.199."@,
        !has_part(config.replacement_pattern@, "http://116.199."@),
        !c.needs_rewrite_surrit,
    ensures
        ({
            let state = entry("/iptv/"@ + url, query, c).context;
            utf8_text(rewritten(encode_utf8(text), config, state)) matches Some(new_text)
                && !has_part(new_text, "http://116.199."@)
        }),
{
    iptv_request_is_forwarded(url, query, parts, c);
    no_direct_link_is_left(encode_utf8(text), config.local_ip@, config.bind_port);
    lemma_text(text);
    lemma_text(replaced(text, "http://116.199."@, config.replacement_pattern@));
}

// ---------------------------------------------------------------------------
// Segments
// ---------------------------------------------------------------------------

/// A line with its ending, in front of the rest of a text: a newline, a carriage return and a
/// newline, or, at the end of the text, nothing.
pub open spec fn ends_line(line: Seq<char>, ending: Seq<char>, rest: Seq<char>) -> bool {
    &&& !line.contains('\n')
    &&& {
        ||| ending == seq!['\r', '\n']
        ||| ending == seq!['\n'] && (line.len() == 0 || line.last() != '\r')
        ||| ending == Seq::<char>::empty() && rest == Seq::<char>::empty() && line.len() > 0
    }
}

/// Lines are dealt with one by one, whatever the links begin with: a comment, and a line with nothing
/// on it, stays without its ending, and every other line becomes a link and a newline.
pub proof fn lines_are_dealt_with_one_by_one(
    origin: Seq<char>,
    base: Seq<char>,
    line: Seq<char>,
    ending: Seq<char>,
    rest: Seq<char>,
)
    requires
        ends_line(line, ending, rest),
    ensures
        playlist_lines(origin, base, lines(seq![])) == Seq::<char>::empty(),
        playlist_lines(origin, base, lines(line + ending + rest)) == (if "#"@.is_prefix_of(line)
            || is_blank(line) {
            line
        } else if "http://"@.is_prefix_of(line) || "https://"@.is_prefix_of(line) {
            segment_link(origin, line) + "\n"@
        } else {
            segment_link(origin, base + line) + "\n"@
        }) + playlist_lines(origin, base, lines(rest)),
{
    let whole = line + ending + rest;
    let none = Seq::<Seq<char>>::empty();
    lines_stand_between_endings(line, rest);
    if ending == seq!['\r', '\n'] {
        assert(whole =~= line.push('\r').push('\n') + rest);
    } else if ending == seq!['\n'] {
        assert(whole =~= line.push('\n') + rest);
    } else {
        assert(whole =~= line);
        assert(seq![line] + lines(rest) =~= seq![line]);
    }
    assert(lines(whole) == seq![line] + lines(rest));
    lemma_playlist_lines_concat(origin, base, seq![line], lines(rest));
    assert(seq![line].drop_last() =~= none);
    assert(playlist_lines(origin, base, none) =~= Seq::<char>::empty());
    assert(playlist_lines(origin, base, seq![line]) =~= playlist_line(origin, base, line));
}

proof fn lemma_line(
    line: Seq<char>,
    ending: Seq<char>,
    rest: Seq<char>,
    config: ProxyConfig,
    c: Context,
)
    requires
        ends_line(line, ending, rest),
        c.needs_rewrite_surrit,
        !c.needs_rewrite_iptv,
    ensures
        rewritten(encode_utf8(line + ending + rest), config, c) == encode_utf8(
            playlist_line(config.origin(), c.base_url->0, line),
        ) + rewritten(encode_utf8(rest), config, c),
{
    let origin = config.origin();
    let base = c.base_url->0;
    lemma_text(line + ending + rest);
    lemma_text(rest);
    lines_are_dealt_with_one_by_one(origin, base, line, ending, rest);
    lemma_encode_concat(
        playlist_line(origin, base, line),
        playlist_lines(origin, base, lines(rest)),
    );
}

/// An empty playlist stays empty.
pub proof fn empty_playlist_stays(config: ProxyConfig, c: Context)
    ensures
        rewritten(seq![], config, c) == Seq::<u8>::empty(),
{
    let none = Seq::<char>::empty();
    assert(encode_utf8(none) =~= Seq::<u8>::empty());
    lemma_text(none);
    assert(replaced(none, "http://116.199."@, config.replacement_pattern@) == none);
}

/// A comment, and a line with nothing on it, stays, without its ending.
pub proof fn remarks_stay(
    line: Seq<char>,
    ending: Seq<char>,
    rest: Seq<char>,
    config: ProxyConfig,
    c: Context,
)
    requires
        ends_line(line, ending, rest),
        c.needs_rewrite_surrit,
        !c.needs_rewrite_iptv,
        "#"@.is_prefix_of(line) || is_blank(line),
    ensures
        rewritten(encode_utf8(line + ending + rest), config, c) == encode_utf8(line) + rewritten(
            encode_utf8(rest),
            config,
            c,
        ),
{
    lemma_line(line, ending, rest, config, c);
}

/// Every other line becomes a link to the proxy, and a newline: to the line itself, if it begins with
/// `http://` or `https://`, and else, whatever slashes it holds, to the base URL followed by the line.
pub proof fn segments_are_linked(
    line: Seq<char>,
    ending: Seq<char>,
    rest: Seq<char>,
    base: Seq<char>,
    config: ProxyConfig,
    c: Context,
)
    requires
        ends_line(line, ending, rest),
        c.needs_rewrite_surrit,
        !c.needs_rewrite_iptv,
        c.base_url == Some(base),
        !"#"@.is_prefix_of(line),
        !is_blank(line),
    ensures
        ({
            let origin = "http://"@ + config.local_ip@ + ":"@ + decimal(config.bind_port as nat);
            let url = if "http://"@.is_prefix_of(line) || "https://"@.is_prefix_of(line) {
                line
            } else {
                base + line
            };
            rewritten(encode_utf8(line + ending + rest), config, c) == encode_utf8(
                segment_link(origin, url) + "\n"@,
            ) + rewritten(encode_utf8(rest), config, c)
        }),
{
    lemma_line(line, ending, rest, config, c);
}

/// A segment is linked by `?url=` and its URL in percent-encoding. The name of a `.jpeg` segment is
/// changed to `.ts`, and it is linked by `/iptv/` and its URL as it is, with the parameter
/// `real_ext=jpeg` behind the others.
pub proof fn segment_links_hold_their_url(origin: Seq<char>, url: Seq<char>)
    ensures
        segment_link(origin, url) == (if ".jpeg"@.is_suffix_of(url) {
            let ts_url = replaced(url, ".jpeg"@, ".ts"@);
            if ts_url.contains('?') {
                origin + "/iptv/"@ + ts_url + "&real_ext=jpeg"@
            } else {
                origin + "/iptv/"@ + ts_url + "?real_ext=jpeg"@
            }
        } else {
            origin + "/?url="@ + url_encoded(url)
        }),
{
    reveal_strlit("&");
    reveal_strlit("?");
    reveal_strlit("real_ext=jpeg");
    reveal_strlit("&real_ext=jpeg");
    reveal_strlit("?real_ext=jpeg");
    let ts_url = replaced(url, ".jpeg"@, ".ts"@);
    if ".jpeg"@.is_suffix_of(url) {
        if ts_url.contains('?') {
            assert(segment_link(origin, url) =~= origin + "/iptv/"@ + ts_url + "&real_ext=jpeg"@);
        } else {
            assert(segment_link(origin, url) =~= origin + "/iptv/"@ + ts_url + "?real_ext=jpeg"@);
        }
    } else {
        assert(segment_link(origin, url) =~= origin + "/?url="@ + url_encoded(url));
    }
}

/// Changing the name for the players changes every `.jpeg` in turn, and nothing else.
pub proof fn names_are_changed_in_turn(before: Seq<char>, after: Seq<char>)
    requires
        !has_part(before, ".jpeg"@),
    ensures
        replaced(before, ".jpeg"@, ".ts"@) == before,
        replaced(before + ".jpeg"@ + after, ".jpeg"@, ".ts"@) == before + ".ts"@ + replaced(
            after,
            ".jpeg"@,
            ".ts"@,
        ),
{
    reveal_strlit(".jpeg");
    occurrences_are_replaced_in_turn(before, ".jpeg"@, after, ".ts"@);
}

/// A relative line of a playlist, whatever slashes it holds, is rewritten to a link that leads to the
/// base URL followed by the line, with the headers of the guarded site.
pub proof fn relative_segment_is_fetched_from_the_base(
    line: Seq<char>,
    ending: Seq<char>,
    base: Seq<char>,
    parts: UrlParts,
    config: ProxyConfig,
    c: Context,
    next: Context,
)
    requires
        ends_line(line, ending, seq![]),
        c.needs_rewrite_surrit,
        !c.needs_rewrite_iptv,
        c.base_url == Some(base),
        !"#"@.is_prefix_of(line),
        !is_blank(line),
        !"http://"@.is_prefix_of(line),
        !"https://"@.is_prefix_of(line),
        !".jpeg"@.is_suffix_of(base + line),
        url_parse(base + line) == Ok::<UrlParts, Seq<char>>(parts),
    ensures
        ({
            let origin = "http://"@ + config.local_ip@ + ":"@ + decimal(config.bind_port as nat);
            let place = "/?url="@ + url_encoded(base + line);
            let state = visit(place, next).context;
            &&& rewritten(encode_utf8(line + ending), config, c) == encode_utf8(
                origin + place + "\n"@,
            )
            &&& state.target_url == Some(parts)
            &&& state.route_mode == RouteMode::AntiLeechQuery
            &&& state.needs_referer
        }),
{
    let origin = "http://"@ + config.local_ip@ + ":"@ + decimal(config.bind_port as nat);
    let place = "/?url="@ + url_encoded(base + line);
    segments_are_linked(line, ending, seq![], base, config, c);
    segment_links_hold_their_url(origin, base + line);
    empty_playlist_stays(config, c);
    assert(encode_utf8(Seq::<char>::empty()) =~= Seq::<u8>::empty());
    assert(line + ending + seq![] =~= line + ending);
    assert(origin + "/?url="@ + url_encoded(base + line) =~= origin + place);
    assert(encode_utf8(origin + place + "\n"@) + Seq::<u8>::empty() =~= encode_utf8(
        origin + place + "\n"@,
    ));
    encoded_place_leads_to_its_url(base + line, next);
}

/// A `.jpeg` segment of the guarded site, asked for by its link, is fetched with the headers of the
/// site.
pub proof fn jpeg_segments_keep_the_site_headers(
    url: Seq<char>,
    parts: UrlParts,
    host: Seq<char>,
    next: Context,
)
    requires
        ".jpeg"@.is_suffix_of(url),
        parts.host == Some(host),
        has_part(host, "surrit.com"@) || has_part(host, "fourhoi.com"@),
        ({
            let ts_url = replaced(url, ".jpeg"@, ".ts"@);
            url_parse(
                ts_url + (if ts_url.contains('?') {
                    "&real_ext=jpeg"@
                } else {
                    "?real_ext=jpeg"@
                }),
            ) == Ok::<UrlParts, Seq<char>>(parts)
        }),
    ensures
        ({
            let ts_url = replaced(url, ".jpeg"@, ".ts"@);
            let place = "/iptv/"@ + ts_url + (if ts_url.contains('?') {
                "&real_ext=jpeg"@
            } else {
                "?real_ext=jpeg"@
            });
            &&& forall|origin: Seq<char>| #[trigger] segment_link(origin, url) == origin + place
            &&& inserted_headers(visit(place, next).context) == seq![
                (
                    "Host"@,
                    match parts.port {
                        Some(port) => host + ":"@ + decimal(port as nat),
                        None => host,
                    },
                ),
                ("Referer"@, "https://missav.ws/dm242/cn"@),
                (
                    "User-Agent"@,
                    "Mozilla/5.0 (Windows NT 10.0; Win64; x64) AppleWebKit/537.36 (KHTML, like Gecko) Chrome/120.0.0.0 Safari/537.36"@,
                ),
                ("Accept"@, "*/*"@),
            ]
        }),
{
    let ts_url = replaced(url, ".jpeg"@, ".ts"@);
    let renamed = ts_url + (if ts_url.contains('?') {
        "&real_ext=jpeg"@
    } else {
        "?real_ext=jpeg"@
    });
    let place = "/iptv/"@ + ts_url + (if ts_url.contains('?') {
        "&real_ext=jpeg"@
    } else {
        "?real_ext=jpeg"@
    });
    reveal_strlit("&real_ext=jpeg");
    reveal_strlit("?real_ext=jpeg");
    assert forall|origin: Seq<char>| #[trigger] segment_link(origin, url) == origin + place by {
        segment_links_hold_their_url(origin, url);
        assert(segment_link(origin, url) =~= origin + place);
    }
    assert(place =~= "/iptv/"@ + renamed);
    assert(renamed.last() == 'g');
    lemma_until(renamed, '?');
    assert(!has_empty_query(renamed));
    plain_place_leads_to_its_url(renamed, next);
    let state = visit(place, next).context;
    headers_follow_target_and_site(state, state.target_url->0);
}

} // verus!
