//! Rewriting playlists, so that what they link to is fetched through the proxy.

use vstd::prelude::*;
use vstd::string::*;
use vstd::utf8::*;

use crate::codec::{encode_url, text_from_utf8, url_encoded, utf8_text};
use crate::config::ProxyConfig;
use crate::context::{Context, ProxyContext};
use crate::marker::lemma_encoding_has;
use crate::proxy::{IptvProxy, M3U8_NEEDLE};
use crate::replacing::replacing_nothing;
use crate::text::{
    blank, contains, ends_with, has_part, is_blank, lines, occurs_at, replace, replaced,
    split_lines, starts_with, texts,
};

verus! {

/// A playlist with its direct links replaced. What is not UTF-8 stays as it is.
pub open spec fn iptv_playlist(body: Seq<u8>, replacement: Seq<char>) -> Seq<u8> {
    match utf8_text(body) {
        Some(text) => encode_utf8(replaced(text, M3U8_NEEDLE@, replacement)),
        None => body,
    }
}

/// The absolute URL of a segment.
pub open spec fn segment_url(base: Seq<char>, line: Seq<char>) -> Seq<char> {
    if "http://"@.is_prefix_of(line) || "https://"@.is_prefix_of(line) {
        line
    } else {
        base + line
    }
}

/// The URL of a `.jpeg` segment under the name that players know, with the request to undo that.
pub open spec fn renamed_segment(url: Seq<char>) -> Seq<char> {
    let ts_url = replaced(url, ".jpeg"@, ".ts"@);
    ts_url + (if ts_url.contains('?') {
        "&"@
    } else {
        "?"@
    }) + "real_ext=jpeg"@
}

/// The place in the proxy that stands for a segment.
pub open spec fn segment_place(url: Seq<char>) -> Seq<char> {
    if ".jpeg"@.is_suffix_of(url) {
        "/iptv/"@ + renamed_segment(url)
    } else {
        "/?url="@ + url_encoded(url)
    }
}

/// The link to a segment through the proxy whose links begin with `origin`.
pub open spec fn segment_link(origin: Seq<char>, url: Seq<char>) -> Seq<char> {
    origin + segment_place(url)
}

/// The line is a comment or has nothing on it.
pub open spec fn is_remark(line: Seq<char>) -> bool {
    "#"@.is_prefix_of(line) || is_blank(line)
}

/// What stands for one line of a playlist: remarks stay, and a segment becomes a link and a
/// newline.
pub open spec fn playlist_line(origin: Seq<char>, base: Seq<char>, line: Seq<char>) -> Seq<char> {
    if is_remark(line) {
        line
    } else {
        segment_link(origin, segment_url(base, line)) + "\n"@
    }
}

/// What stands for some lines of a playlist.
pub open spec fn playlist_lines(
    origin: Seq<char>,
    base: Seq<char>,
    lines: Seq<Seq<char>>,
) -> Seq<char>
    decreases lines.len(),
{
    if lines.len() == 0 {
        seq![]
    } else {
        playlist_lines(origin, base, lines.drop_last()) + playlist_line(origin, base, lines.last())
    }
}

/// A playlist with its segments linked through the proxy. What is not UTF-8 stays as it is.
pub open spec fn surrit_playlist(body: Seq<u8>, origin: Seq<char>, base: Seq<char>) -> Seq<u8> {
    match utf8_text(body) {
        Some(text) => encode_utf8(playlist_lines(origin, base, lines(text))),
        None => body,
    }
}

/// What becomes of a piece of a response's body.
pub open spec fn rewritten(body: Seq<u8>, config: ProxyConfig, c: Context) -> Seq<u8> {
    let first = if c.needs_rewrite_iptv {
        iptv_playlist(body, config.replacement_pattern@)
    } else {
        body
    };
    if c.needs_rewrite_surrit {
        surrit_playlist(first, config.origin(), c.base_url->0)
    } else {
        first
    }
}

/// The absolute URL of a segment.
fn absolute_url(base: &str, line: &str) -> (r: String)
    ensures
        r@ == segment_url(base@, line@),
{
    if starts_with(line, "http://") || starts_with(line, "https://") {
        line.to_owned()
    } else {
        base.to_owned().concat(line)
    }
}

/// Whether a question mark stands in a text.
fn has_question_mark(s: &str) -> (r: bool)
    ensures
        r == s@.contains('?'),
{
    let r = contains(s, "?");
    proof {
        reveal_strlit("?");
        if r {
            let at = choose|at: int| occurs_at(s@, "?"@, at);
            assert(s@.subrange(at, at + 1)[0] == '?');
            assert(s@[at] == '?');
        }
        if s@.contains('?') {
            let at = s@.index_of('?');
            assert(s@.subrange(at, at + 1) =~= "?"@);
            assert(occurs_at(s@, "?"@, at));
        }
    }
    r
}

/// The link to a segment through the proxy.
pub fn link_to_segment(origin: &str, url: &str) -> (r: String)
    ensures
        r@ == segment_link(origin@, url@),
{
    let mut r = origin.to_owned();
    if ends_with(url, ".jpeg") {
        proof {
            reveal_strlit(".jpeg");
        }
        let ts_url = replace(url, ".jpeg", ".ts");
        r.append("/iptv/");
        r.append(ts_url.as_str());
        if has_question_mark(ts_url.as_str()) {
            r.append("&");
        } else {
            r.append("?");
        }
        r.append("real_ext=jpeg");
    } else {
        r.append("/?url=");
        r.append(encode_url(url).as_str());
    }
    assert(r@ =~= segment_link(origin@, url@));
    r
}

/// Rewrites the text of a playlist line by line.
pub fn link_segments(origin: &str, base: &str, text: &str) -> (r: String)
    ensures
        r@ == playlist_lines(origin@, base@, lines(text@)),
{
    let parts = split_lines(text);
    let ghost all = texts(parts@);
    let mut r = String::new();
    let mut i: usize = 0;
    assert(all.take(0) =~= seq![]);
    while i < parts.len()
        invariant
            i <= parts@.len(),
            all == texts(parts@),
            r@ == playlist_lines(origin@, base@, all.take(i as int)),
        decreases parts@.len() - i,
    {
        let line = parts[i].as_str();
        proof {
            assert(all.take(i + 1).drop_last() =~= all.take(i as int));
            assert(all.take(i + 1).last() == line@);
        }
        let ghost before = r@;
        if starts_with(line, "#") || blank(line) {
            r.append(line);
        } else {
            let url = absolute_url(base, line);
            r.append(link_to_segment(origin, url.as_str()).as_str());
            r.append("\n");
        }
        assert(r@ =~= before + playlist_line(origin@, base@, line@));
        i += 1;
    }
    assert(all.take(i as int) =~= all);
    r
}

impl IptvProxy {
    /// Rewrites a piece of a response's body, if the response is a playlist.
    pub fn response_body_filter(&self, body: &mut Option<Vec<u8>>, ctx: &ProxyContext)
        requires
            *old(body) matches Some(bytes) ==> utf8_text(bytes@) is Some
                && ctx@.needs_rewrite_surrit ==> ctx@.base_url is Some,
        ensures
            match *old(body) {
                Some(bytes) => *final(body) is Some && (*final(body))->0@ == rewritten(
                    bytes@,
                    self.config(),
                    ctx@,
                ),
                None => *final(body) is None,
            },
    {
        let mut bytes = match body.take() {
            Some(bytes) => bytes,
            None => {
                return ;
            },
        };
        let ghost original = bytes@;
        if ctx.needs_rewrite_iptv {
            proof {
                if valid_utf8(original) {
                    encode_utf8_valid_utf8(
                        replaced(
                            decode_utf8(original),
                            M3U8_NEEDLE@,
                            self.config().replacement_pattern@,
                        ),
                    );
                }
            }
            if let Some(rewritten) = self.replace_links(bytes.as_slice()) {
                bytes = rewritten;
            }
        }
        assert(valid_utf8(bytes@) == valid_utf8(original));
        if ctx.needs_rewrite_surrit {
            if let Some(text) = text_from_utf8(bytes.as_slice()) {
                if let Some(base) = &ctx.base_url {
                    let origin = self.link_start();
                    bytes = link_segments(origin.as_str(), base.as_str(), text.as_str()).as_str()
                        .as_bytes_vec();
                }
            }
        }
        *body = Some(bytes);
    }

    /// A playlist with its direct links replaced; `None` if it has none or is not UTF-8.
    fn replace_links(&self, bytes: &[u8]) -> (r: Option<Vec<u8>>)
        ensures
            iptv_playlist(bytes@, self.config().replacement_pattern@) == (match r {
                Some(v) => v@,
                None => bytes@,
            }),
    {
        let found = self.finds_link(bytes);
        if !found {
            proof {
                if valid_utf8(bytes@) {
                    let text = decode_utf8(bytes@);
                    decode_utf8_encode_utf8(bytes@);
                    if has_part(text, M3U8_NEEDLE@) {
                        lemma_encoding_has(text, M3U8_NEEDLE@);
                    }
                    replacing_nothing(
                        text,
                        M3U8_NEEDLE@,
                        self.config().replacement_pattern@,
                    );
                }
            }
            return None;
        }
        match text_from_utf8(bytes) {
            Some(text) => {
                proof {
                    reveal_strlit("http://116.199.");
                }
                Some(
                    replace(text.as_str(), M3U8_NEEDLE, self.replacement()).as_str().as_bytes_vec(),
                )
            },
            None => None,
        }
    }
}

} // verus!
