//! The shape of a proxied path: `/proxy/<host>:<port>/<path>`, where the port may be missing.

use regex::Regex;
use vstd::prelude::*;

use crate::number::is_digit;
use crate::text::opt_text;

verus! {

/// The shape as a regular expression, with groups for host, port and the rest of the path.
pub const PROXY_PATH: &'static str = r"^/proxy/([^:]+)(?::(\d+))?/(.*)$";

#[verifier::external_type_specification]
#[verifier::external_body]
pub struct ExRegex(Regex);

/// Host, port and the rest of a proxied path.
#[derive(Debug)]
pub struct ProxyParts {
    pub host: String,
    pub port: Option<String>,
    pub rest: String,
}

/// What a [`ProxyParts`] holds.
pub struct PathParts {
    pub host: Seq<char>,
    pub port: Option<Seq<char>>,
    pub rest: Seq<char>,
}

impl View for ProxyParts {
    type V = PathParts;

    open spec fn view(&self) -> PathParts {
        PathParts { host: self.host@, port: opt_text(self.port), rest: self.rest@ }
    }
}

/// Whether the class `\d` of a regular expression holds a character that is not ASCII.
pub uninterp spec fn is_unicode_digit(c: char) -> bool;

/// A character that may stand in a port.
pub open spec fn is_port_char(c: char) -> bool {
    if c <= '\u{7f}' {
        is_digit(c)
    } else {
        is_unicode_digit(c)
    }
}

impl PathParts {
    /// The path that the parts make.
    pub open spec fn joined(self) -> Seq<char> {
        "/proxy/"@ + self.host + (match self.port {
            Some(port) => seq![':'] + port,
            None => seq![],
        }) + seq!['/'] + self.rest
    }

    /// The host is not empty and has no colon, a port is a row of digits, and the rest is one line.
    pub open spec fn well_formed(self) -> bool {
        &&& self.host.len() > 0
        &&& !self.host.contains(':')
        &&& self.port matches Some(port) ==> port.len() > 0 && forall|i: int|
            0 <= i < port.len() ==> is_port_char(#[trigger] port[i])
        &&& !self.rest.contains('\n')
    }

    /// The parts are those of `path`.
    pub open spec fn fits(self, path: Seq<char>) -> bool {
        self.well_formed() && path == self.joined()
    }

    /// The parts are those of `path`, and no other parts of it have a longer host.
    pub open spec fn fits_best(self, path: Seq<char>) -> bool {
        self.fits(path) && forall|other: PathParts| #[trigger]
            other.fits(path) ==> other.host.len() <= self.host.len()
    }
}

/// The parts of a proxied path, with the longest host that the shape admits.
pub open spec fn proxy_parts(path: Seq<char>) -> Option<PathParts> {
    if exists|parts: PathParts| parts.fits(path) {
        Some(choose|parts: PathParts| parts.fits_best(path))
    } else {
        None
    }
}

/// `Regex::new` compiles the shape.
#[verifier::external_body]
fn compile(pattern: &str) -> (r: Regex)
    requires
        pattern@ == PROXY_PATH@,
{
    Regex::new(pattern).expect("Invalid proxy regex")
}

/// A regular expression, with its compiled form.
pub struct PathPattern {
    text: &'static str,
    regex: Regex,
}

impl PathPattern {
    /// The regular expression's text.
    pub closed spec fn text(self) -> Seq<char> {
        self.text@
    }

    /// The shape of a proxied path.
    pub(crate) fn new() -> (r: Self)
        ensures
            r.text() == PROXY_PATH@,
    {
        PathPattern { text: PROXY_PATH, regex: compile(PROXY_PATH) }
    }

    /// `Regex::captures`, on the form that [`PathPattern::new`] compiled from [`PROXY_PATH`], gives
    /// the groups of the match that prefers the longest host, and nothing if there is no match. Which
    /// characters beyond ASCII count as digits is left to the regular expression's class `\d`.
    #[verifier::external_body]
    pub(crate) fn parts(&self, path: &str) -> (r: Option<ProxyParts>)
        requires
            self.text() == PROXY_PATH@,
        ensures
            match r {
                Some(parts) => proxy_parts(path@) == Some(parts@),
                None => proxy_parts(path@) is None,
            },
            r matches Some(parts) ==> (opt_text(parts.port) matches Some(port) ==> forall|i: int|
                0 <= i < port.len() && port[i] > '\u{7f}' ==> is_unicode_digit(
                    #[trigger] port[i],
                )),
    {
        let groups = self.regex.captures(path)?;
        Some(
            ProxyParts {
                host: groups[1].to_owned(),
                port: groups.get(2).map(|group| group.as_str().to_owned()),
                rest: groups[3].to_owned(),
            },
        )
    }
}

/// Two best parts of one path are the same.
pub(crate) proof fn lemma_best_is_unique(path: Seq<char>, a: PathParts, b: PathParts)
    requires
        a.fits_best(path),
        b.fits_best(path),
    ensures
        a == b,
{
    reveal_strlit("/proxy/");
    let n = a.host.len() as int;
    assert(a.fits(path) && b.fits(path));
    assert(a.host.len() == b.host.len());
    assert(a.host =~= path.subrange(7, 7 + n));
    assert(b.host =~= path.subrange(7, 7 + n));
    assert(path[7 + n] == (if a.port is Some { ':' } else { '/' }));
    assert(path[7 + n] == (if b.port is Some { ':' } else { '/' }));
    if a.port is Some {
        let pa = a.port->0;
        let pb = b.port->0;
        assert forall|i: int| 0 <= i < pa.len() implies path[8 + n + i] == pa[i] by {}
        assert forall|i: int| 0 <= i < pb.len() implies path[8 + n + i] == pb[i] by {}
        assert(path[8 + n + pa.len()] == '/');
        assert(path[8 + n + pb.len()] == '/');
        if pa.len() < pb.len() {
            assert(is_port_char(pb[pa.len() as int]));
        }
        if pb.len() < pa.len() {
            assert(is_port_char(pa[pb.len() as int]));
        }
        assert(pa =~= pb);
        assert(a.rest =~= path.skip(9 + n + pa.len()));
        assert(b.rest =~= path.skip(9 + n + pa.len()));
    } else {
        assert(a.rest =~= path.skip(8 + n));
        assert(b.rest =~= path.skip(8 + n));
    }
}

/// Some parts are best, wherever some fit.
proof fn lemma_best_exists(path: Seq<char>, parts: PathParts)
    requires
        parts.fits(path),
    ensures
        exists|best: PathParts| best.fits_best(path),
    decreases path.len() - parts.host.len(),
{
    if !parts.fits_best(path) {
        let longer = choose|other: PathParts| #[trigger]
            other.fits(path) && other.host.len() > parts.host.len();
        assert(longer.host.len() <= path.len());
        lemma_best_exists(path, longer);
    }
}

/// The parts of a path fit it, with the longest host of all that do; a path has none only if
/// nothing fits.
pub proof fn parts_fit_best(path: Seq<char>)
    ensures
        match proxy_parts(path) {
            Some(parts) => parts.fits_best(path),
            None => forall|parts: PathParts| !parts.fits(path),
        },
{
    if exists|parts: PathParts| parts.fits(path) {
        lemma_best_exists(path, choose|parts: PathParts| parts.fits(path));
    }
}

/// A path that names a port has the parts that it was made of.
pub proof fn parts_with_port(parts: PathParts)
    requires
        parts.well_formed(),
        parts.port is Some,
    ensures
        proxy_parts(parts.joined()) == Some(parts),
{
    let path = parts.joined();
    reveal_strlit("/proxy/");
    assert forall|other: PathParts| #[trigger] other.fits(path) implies other.host.len()
        <= parts.host.len() by {
        if other.host.len() > parts.host.len() {
            let n = parts.host.len() as int;
            assert(path[7 + n] == ':');
            assert(path[7 + n] == other.host[n]);
        }
    }
    assert(parts.fits_best(path));
    lemma_best_is_unique(path, parts, choose|best: PathParts| best.fits_best(path));
}

/// In a path without port the host reaches up to the last slash.
pub proof fn parts_without_port(parts: PathParts)
    requires
        parts.well_formed(),
        parts.port is None,
        !parts.rest.contains('/'),
    ensures
        proxy_parts(parts.joined()) == Some(parts),
{
    let path = parts.joined();
    reveal_strlit("/proxy/");
    assert forall|other: PathParts| #[trigger] other.fits(path) implies other.host.len()
        <= parts.host.len() by {
        if other.host.len() > parts.host.len() {
            let n = parts.host.len() as int;
            let slash = path.len() - other.rest.len() - 1;
            assert(path[slash] == '/');
            assert(path[slash] == parts.rest[slash - 8 - n]);
            assert(parts.rest.contains(parts.rest[slash - 8 - n]));
        }
    }
    assert(parts.fits_best(path));
    lemma_best_is_unique(path, parts, choose|best: PathParts| best.fits_best(path));
}

} // verus!
