//! The proxy's configuration and the settings that it is made from.

use vstd::prelude::*;
use vstd::string::*;

use crate::number::{bounded_value, decimal, parse_count, parse_port, to_decimal};
use crate::text::{fields, opt_text, split, texts};
use crate::target::text_or;

verus! {

/// The address under which clients reach the proxy, and what is put in place of a direct link.
#[derive(Clone)]
pub struct ProxyConfig {
    pub local_ip: String,
    pub bind_port: u16,
    pub replacement_pattern: String,
}

/// The beginning of every link to the proxy.
pub open spec fn proxy_origin(local_ip: Seq<char>, bind_port: u16) -> Seq<char> {
    "http://"@ + local_ip + ":"@ + decimal(bind_port as nat)
}

impl ProxyConfig {
    /// The beginning of every link to this proxy.
    pub open spec fn origin(self) -> Seq<char> {
        proxy_origin(self.local_ip@, self.bind_port)
    }

    pub fn new(local_ip: String, bind_port: u16) -> (r: Self)
        ensures
            r.local_ip@ == local_ip@,
            r.bind_port == bind_port,
            r.replacement_pattern@ == r.origin() + "/proxy/116.199."@,
    {
        let mut replacement_pattern = String::new();
        replacement_pattern.append("http://");
        replacement_pattern.append(local_ip.as_str());
        replacement_pattern.append(":");
        replacement_pattern.append(to_decimal(bind_port).as_str());
        replacement_pattern.append("/proxy/116.199.");
        assert(replacement_pattern@ =~= proxy_origin(local_ip@, bind_port) + "/proxy/116.199."@);
        ProxyConfig { local_ip, bind_port, replacement_pattern }
    }

    /// The beginning of every link to this proxy.
    pub fn link_start(&self) -> (r: String)
        ensures
            r@ == self.origin(),
    {
        let mut r = String::new();
        r.append("http://");
        r.append(self.local_ip.as_str());
        r.append(":");
        r.append(to_decimal(self.bind_port).as_str());
        assert(r@ =~= self.origin());
        r
    }
}

/// The port in an address: the second of its pieces between colons, or 8080 if that is no port.
pub open spec fn port_of(bind_addr: Seq<char>) -> u16 {
    let pieces = fields(bind_addr, ':');
    if pieces.len() < 2 {
        8080
    } else {
        match bounded_value(pieces[1], 65535) {
            Some(port) => port as u16,
            None => 8080,
        }
    }
}

/// The port in an address to listen on.
pub fn bind_port(bind_addr: &str) -> (r: u16)
    ensures
        r == port_of(bind_addr@),
{
    let pieces = split(bind_addr, ':');
    assert(texts(pieces@).len() == pieces@.len());
    if pieces.len() < 2 {
        return 8080;
    }
    assert(texts(pieces@)[1] == pieces@[1]@);
    match parse_port(pieces[1].as_str()) {
        Some(port) => port,
        None => 8080,
    }
}

/// How the server is set up.
pub struct Settings {
    pub local_ip: String,
    pub bind_addr: String,
    pub workers: usize,
    pub bind_port: u16,
}

/// The number of workers that a setting asks for, or `cpus`.
pub open spec fn workers_of(setting: Option<Seq<char>>, cpus: usize) -> usize {
    match setting {
        Some(text) => match bounded_value(text, usize::MAX as nat) {
            Some(n) => n as usize,
            None => cpus,
        },
        None => cpus,
    }
}

impl Settings {
    /// The settings from what the environment gives; `cpus` is the number of processors.
    pub fn new(
        local_ip: Option<String>,
        bind_addr: Option<String>,
        workers: Option<String>,
        cpus: usize,
    ) -> (r: Self)
        ensures
            r.local_ip@ == text_or(opt_text(local_ip), "192.168.1.3"@),
            r.bind_addr@ == text_or(opt_text(bind_addr), "0.0.0.0:8080"@),
            r.workers == workers_of(opt_text(workers), cpus),
            r.bind_port == port_of(r.bind_addr@),
    {
        let local_ip = match local_ip {
            Some(text) => text,
            None => "192.168.1.3".to_owned(),
        };
        let bind_addr = match bind_addr {
            Some(text) => text,
            None => "0.0.0.0:8080".to_owned(),
        };
        let workers: usize = match workers {
            Some(text) => match parse_count(text.as_str()) {
                Some(n) => n,
                None => cpus,
            },
            None => cpus,
        };
        let bind_port: u16 = bind_port(bind_addr.as_str());
        Settings { local_ip, bind_addr, workers, bind_port }
    }
}

} // verus!
