//! The proxy.

use vstd::prelude::*;
use vstd::utf8::*;

use crate::config::ProxyConfig;
use crate::context::{Context, ProxyContext};
use crate::marker::Marker;
use crate::pattern::{proxy_parts, PathPattern, ProxyParts, PROXY_PATH};
use crate::text::has_part;

verus! {

/// How a direct link in a playlist begins.
pub const M3U8_NEEDLE: &'static str = "http://116.199.";

/// The proxy: it decides about requests and rewrites playlists.
pub struct IptvProxy {
    config: ProxyConfig,
    finder: Marker,
    pattern: PathPattern,
}

impl IptvProxy {
    /// The configuration that the proxy was made with.
    pub closed spec fn config(self) -> ProxyConfig {
        self.config
    }

    /// The proxy looks for direct links and knows the shape of a proxied path.
    #[verifier::type_invariant]
    spec fn well_formed(self) -> bool {
        &&& self.finder.text() == M3U8_NEEDLE@
        &&& self.pattern.text() == PROXY_PATH@
    }

    pub fn new(config: ProxyConfig) -> (r: Self)
        ensures
            r.config() == config,
    {
        IptvProxy { config, finder: Marker::new(), pattern: PathPattern::new() }
    }

    /// The state of a new request.
    pub fn new_ctx(&self) -> (r: ProxyContext)
        ensures
            r@ == Context::fresh(),
            r@.well_formed(),
    {
        ProxyContext::new()
    }

    /// Host, port and the rest of a proxied path.
    pub(crate) fn path_parts(&self, path: &str) -> (r: Option<ProxyParts>)
        ensures
            match r {
                Some(parts) => proxy_parts(path@) == Some(parts@),
                None => proxy_parts(path@) is None,
            },
    {
        proof {
            use_type_invariant(self);
        }
        self.pattern.parts(path)
    }

    /// Whether a direct link stands in some bytes.
    pub fn finds_link(&self, bytes: &[u8]) -> (r: bool)
        ensures
            r == has_part(bytes@, encode_utf8(M3U8_NEEDLE@)),
    {
        proof {
            use_type_invariant(self);
        }
        self.finder.find(bytes).is_some()
    }

    /// What is put in place of the beginning of a direct link.
    pub(crate) fn replacement(&self) -> (r: &str)
        ensures
            r@ == self.config().replacement_pattern@,
    {
        self.config.replacement_pattern.as_str()
    }

    /// The beginning of every link to this proxy.
    pub(crate) fn link_start(&self) -> (r: String)
        ensures
            r@ == self.config().origin(),
    {
        self.config.link_start()
    }
}

} // verus!
