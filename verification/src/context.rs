//! What the proxy remembers of a request while it serves it.

use vstd::prelude::*;

use crate::target::{TargetUrl, UrlParts};
use crate::text::opt_text;

verus! {

/// By which entrance a request came in.
#[derive(Debug, Clone, Copy, PartialEq, Eq, Structural)]
pub enum RouteMode {
    /// `/iptv/<URL>`
    IptvDirect,
    /// `/proxy/<host>:<port>/<path>`
    ProxyPath,
    /// `/?url=<encoded URL>`
    AntiLeechQuery,
}

/// The state of one request.
pub struct ProxyContext {
    pub route_mode: RouteMode,
    pub target_url: Option<TargetUrl>,
    pub is_m3u8: bool,
    /// The upstream server wants the headers of its own site.
    pub needs_referer: bool,
    /// Direct links in the playlist are to be replaced.
    pub needs_rewrite_iptv: bool,
    /// Segment links in the playlist are to be rewritten.
    pub needs_rewrite_surrit: bool,
    /// What relative segment links are relative to.
    pub base_url: Option<String>,
    /// The upstream name of the file ends with `.jpeg` instead of `.ts`.
    pub needs_jpeg_fix: bool,
}

/// What a [`ProxyContext`] holds.
pub struct Context {
    pub route_mode: RouteMode,
    pub target_url: Option<UrlParts>,
    pub is_m3u8: bool,
    pub needs_referer: bool,
    pub needs_rewrite_iptv: bool,
    pub needs_rewrite_surrit: bool,
    pub base_url: Option<Seq<char>>,
    pub needs_jpeg_fix: bool,
}

/// What an optional URL holds.
pub open spec fn opt_url(url: Option<TargetUrl>) -> Option<UrlParts> {
    match url {
        Some(u) => Some(u@),
        None => None,
    }
}

impl View for ProxyContext {
    type V = Context;

    open spec fn view(&self) -> Context {
        Context {
            route_mode: self.route_mode,
            target_url: opt_url(self.target_url),
            is_m3u8: self.is_m3u8,
            needs_referer: self.needs_referer,
            needs_rewrite_iptv: self.needs_rewrite_iptv,
            needs_rewrite_surrit: self.needs_rewrite_surrit,
            base_url: opt_text(self.base_url),
            needs_jpeg_fix: self.needs_jpeg_fix,
        }
    }
}

impl Context {
    /// Nothing is known of the request yet.
    pub open spec fn fresh() -> Context {
        Context {
            route_mode: RouteMode::IptvDirect,
            target_url: None,
            is_m3u8: false,
            needs_referer: false,
            needs_rewrite_iptv: false,
            needs_rewrite_surrit: false,
            base_url: None,
            needs_jpeg_fix: false,
        }
    }

    /// Where segment links are to be rewritten, it is known what they are relative to.
    pub open spec fn well_formed(self) -> bool {
        self.needs_rewrite_surrit ==> self.base_url is Some
    }
}

impl ProxyContext {
    pub fn new() -> (r: Self)
        ensures
            r@ == Context::fresh(),
            r@.well_formed(),
    {
        ProxyContext {
            route_mode: RouteMode::IptvDirect,
            target_url: None,
            is_m3u8: false,
            needs_referer: false,
            needs_rewrite_iptv: false,
            needs_rewrite_surrit: false,
            base_url: None,
            needs_jpeg_fix: false,
        }
    }
}

} // verus!
