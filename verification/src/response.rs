//! What becomes of the upstream server's response headers, and the line that is logged.

use vstd::prelude::*;
use vstd::string::*;

use crate::codec::{encode_url, url_encoded};
use crate::context::{Context, ProxyContext, RouteMode};
use crate::number::{decimal, to_decimal};
use crate::proxy::IptvProxy;
use crate::text::opt_text;

verus! {

/// The response for the client: its header `Location`, where it is to be changed, and whether the
/// header `Content-Length` is removed.
#[derive(Debug)]
pub struct ResponsePlan {
    pub location: Option<String>,
    pub remove_content_length: bool,
}

/// What a [`ResponsePlan`] holds.
pub struct ResponseEdits {
    pub location: Option<Seq<char>>,
    pub remove_content_length: bool,
}

impl View for ResponsePlan {
    type V = ResponseEdits;

    open spec fn view(&self) -> ResponseEdits {
        ResponseEdits {
            location: opt_text(self.location),
            remove_content_length: self.remove_content_length,
        }
    }
}

/// The statuses of a redirect that is led back to the proxy.
pub open spec fn is_redirect(status: u16) -> bool {
    status == 301 || status == 302 || status == 307 || status == 308
}

/// The place in the proxy that stands for a place elsewhere.
pub open spec fn proxied_location(mode: RouteMode, location: Seq<char>) -> Seq<char> {
    match mode {
        RouteMode::AntiLeechQuery => "/?url="@ + url_encoded(location),
        RouteMode::IptvDirect => "/iptv/"@ + location,
        RouteMode::ProxyPath => "/iptv/"@ + location,
    }
}

/// What becomes of a response with a status and perhaps a location.
pub open spec fn response_edits(
    status: u16,
    location: Option<Seq<char>>,
    c: Context,
) -> ResponseEdits {
    ResponseEdits {
        location: match location {
            Some(place) => if is_redirect(status) {
                Some(proxied_location(c.route_mode, place))
            } else {
                None
            },
            None => None,
        },
        remove_content_length: c.needs_rewrite_iptv || c.needs_rewrite_surrit,
    }
}

/// The characters behind an optional string slice.
pub open spec fn opt_str(s: Option<&str>) -> Option<Seq<char>> {
    match s {
        Some(t) => Some(t@),
        None => None,
    }
}

impl IptvProxy {
    /// What becomes of a response, by its status and the text of its header `Location`.
    pub fn response_filter(&self, status: u16, location: Option<&str>, ctx: &ProxyContext) -> (r:
        ResponsePlan)
        ensures
            r@ == response_edits(status, opt_str(location), ctx@),
    {
        let mut new_location: Option<String> = None;
        if status == 301 || status == 302 || status == 307 || status == 308 {
            if let Some(place) = location {
                let text = match ctx.route_mode {
                    RouteMode::AntiLeechQuery => {
                        "/?url=".to_owned().concat(encode_url(place).as_str())
                    },
                    RouteMode::IptvDirect => "/iptv/".to_owned().concat(place),
                    RouteMode::ProxyPath => "/iptv/".to_owned().concat(place),
                };
                new_location = Some(text);
            }
        }
        ResponsePlan {
            location: new_location,
            remove_content_length: ctx.needs_rewrite_iptv || ctx.needs_rewrite_surrit,
        }
    }

    /// The line that is logged when a request is done: the client, or `unknown`, the method, the
    /// path, the status of the response, or 0 if there was none, and the error if there was one.
    pub fn logging(
        client: Option<&str>,
        method: &str,
        path: &str,
        status: Option<u16>,
        error: Option<&str>,
    ) -> (r: String)
        ensures
            r@ == log_line(opt_str(client), method@, path@, status, opt_str(error)),
    {
        let mut r = match client {
            Some(client) => client.to_owned(),
            None => "unknown".to_owned(),
        };
        r.append(" ");
        r.append(method);
        r.append(" ");
        r.append(path);
        r.append(" - Status:");
        let status: u16 = match status {
            Some(status) => status,
            None => 0,
        };
        r.append(to_decimal(status).as_str());
        if let Some(error) = error {
            r.append(" Error:");
            r.append(error);
        }
        r
    }
}

/// The line that is logged when a request is done.
pub open spec fn log_line(
    client: Option<Seq<char>>,
    method: Seq<char>,
    path: Seq<char>,
    status: Option<u16>,
    error: Option<Seq<char>>,
) -> Seq<char> {
    let client = match client {
        Some(client) => client,
        None => "unknown"@,
    };
    let status: nat = match status {
        Some(status) => status as nat,
        None => 0,
    };
    let line = client + " "@ + method + " "@ + path + " - Status:"@ + decimal(status);
    match error {
        Some(error) => line + " Error:"@ + error,
        None => line,
    }
}

} // verus!
