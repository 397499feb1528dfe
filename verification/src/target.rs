//! The URL that a request is forwarded to.

use vstd::prelude::*;

use crate::codec::{
    append_pair, form_pair, lemma_first_pair, lemma_form_pair, lemma_no_pairs, lemma_one_more_pair,
    pair_texts, parse_query, query_pairs, with_pair,
};
use crate::text::{opt_text, same_text};

verus! {

/// A parsed URL.
#[derive(Debug)]
pub struct TargetUrl {
    pub scheme: String,
    pub host: Option<String>,
    /// The port, unless it is the scheme's own.
    pub port: Option<u16>,
    pub path: String,
    pub query: Option<String>,
}

/// What a [`TargetUrl`] holds.
pub struct UrlParts {
    pub scheme: Seq<char>,
    pub host: Option<Seq<char>>,
    pub port: Option<u16>,
    pub path: Seq<char>,
    pub query: Option<Seq<char>>,
}

impl View for TargetUrl {
    type V = UrlParts;

    open spec fn view(&self) -> UrlParts {
        UrlParts {
            scheme: self.scheme@,
            host: opt_text(self.host),
            port: self.port,
            path: self.path@,
            query: opt_text(self.query),
        }
    }
}

/// What `Url::parse` makes of a text: the parts of the URL, or the error's message.
pub uninterp spec fn url_parse(text: Seq<char>) -> Result<UrlParts, Seq<char>>;

/// What the outcome of parsing holds.
pub open spec fn parse_outcome(r: Result<TargetUrl, String>) -> Result<UrlParts, Seq<char>> {
    match r {
        Ok(url) => Ok(url@),
        Err(message) => Err(message@),
    }
}

/// `url::Url::parse` reads a URL by the rules of the URL Standard; the text alone decides about the
/// outcome. What its parts are, or the message of its error, is not said beyond that.
#[verifier::external_body]
pub(crate) fn parse_url(text: &str) -> (r: Result<TargetUrl, String>)
    ensures
        parse_outcome(r) == url_parse(text@),
{
    match url::Url::parse(text) {
        Ok(url) => Ok(
            TargetUrl {
                scheme: url.scheme().to_owned(),
                host: url.host_str().map(str::to_owned),
                port: url.port(),
                path: url.path().to_owned(),
                query: url.query().map(str::to_owned),
            },
        ),
        Err(error) => Err(error.to_string()),
    }
}

/// The characters of an optional text, or of `default`.
pub open spec fn text_or(s: Option<Seq<char>>, default: Seq<char>) -> Seq<char> {
    match s {
        Some(t) => t,
        None => default,
    }
}

/// A copy of the text, or of `default`.
pub fn copy_or(s: &Option<String>, default: &str) -> (r: String)
    ensures
        r@ == text_or(opt_text(*s), default@),
{
    match s {
        Some(t) => t.clone(),
        None => default.to_owned(),
    }
}

/// Some pair asks for the original `.jpeg` name.
pub open spec fn asks_for_jpeg(pairs: Seq<(Seq<char>, Seq<char>)>) -> bool {
    pairs.contains(("real_ext"@, "jpeg"@))
}

/// The pairs that are meant for the upstream server.
pub open spec fn upstream_pairs(pairs: Seq<(Seq<char>, Seq<char>)>) -> Seq<(Seq<char>, Seq<char>)> {
    pairs.filter(|pair: (Seq<char>, Seq<char>)| pair.0 != "real_ext"@)
}

/// The query string of some pairs.
pub open spec fn query_of(pairs: Seq<(Seq<char>, Seq<char>)>) -> Seq<char>
    decreases pairs.len(),
{
    if pairs.len() == 0 {
        seq![]
    } else {
        with_pair(query_of(pairs.drop_last()), pairs.last().0, pairs.last().1)
    }
}

/// The query string of some pairs reads as those pairs.
pub proof fn query_reads_back(pairs: Seq<(Seq<char>, Seq<char>)>)
    ensures
        query_pairs(query_of(pairs)) == pairs,
    decreases pairs.len(),
{
    if pairs.len() == 0 {
        lemma_no_pairs();
        assert(pairs =~= Seq::empty());
    } else {
        let before = pairs.drop_last();
        let field = form_pair(pairs.last().0, pairs.last().1);
        query_reads_back(before);
        lemma_form_pair(pairs.last().0, pairs.last().1);
        if query_of(before).len() == 0 {
            assert(query_of(before) =~= Seq::<char>::empty());
            lemma_no_pairs();
            lemma_first_pair(field);
        } else {
            lemma_one_more_pair(query_of(before), field);
        }
        assert(pairs =~= before.push(pairs.last()));
    }
}

impl UrlParts {
    /// The names and values of the query.
    pub open spec fn pairs(self) -> Seq<(Seq<char>, Seq<char>)> {
        query_pairs(text_or(self.query, seq![]))
    }

    /// The URL without the request for the original name.
    pub open spec fn without_real_ext(self) -> UrlParts {
        UrlParts { query: Some(query_of(upstream_pairs(self.pairs()))), ..self }
    }

    /// The host, or `default` if the URL has none.
    pub open spec fn host_or(self, default: Seq<char>) -> Seq<char> {
        text_or(self.host, default)
    }
}

impl TargetUrl {
    /// The host, or `default` if the URL has none.
    pub fn host_or(&self, default: &str) -> (r: String)
        ensures
            r@ == self@.host_or(default@),
    {
        copy_or(&self.host, default)
    }

    /// Takes the parameter `real_ext` out of the query if it asks for `jpeg`, and tells whether it
    /// did.
    pub fn take_real_ext(&mut self) -> (r: bool)
        ensures
            r == asks_for_jpeg(old(self)@.pairs()),
            final(self)@ == (if r {
                old(self)@.without_real_ext()
            } else {
                old(self)@
            }),
    {
        let query = copy_or(&self.query, "");
        proof {
            reveal_strlit("");
            assert(""@ =~= Seq::<char>::empty());
        }
        let pairs = parse_query(query.as_str());
        let ghost all = pair_texts(pairs@);
        assert(all == self@.pairs());
        if !has_real_ext(&pairs) {
            return false;
        }
        self.query = Some(rebuild_query(&pairs));
        true
    }
}

/// Whether some pair asks for the original `.jpeg` name.
fn has_real_ext(pairs: &Vec<(String, String)>) -> (r: bool)
    ensures
        r == asks_for_jpeg(pair_texts(pairs@)),
{
    let ghost all = pair_texts(pairs@);
    let mut i: usize = 0;
    while i < pairs.len()
        invariant
            all == pair_texts(pairs@),
            i <= pairs@.len(),
            forall|j: int| 0 <= j < i ==> #[trigger] all[j] != ("real_ext"@, "jpeg"@),
        decreases pairs@.len() - i,
    {
        assert(all[i as int] == (pairs@[i as int].0@, pairs@[i as int].1@));
        if same_text(pairs[i].0.as_str(), "real_ext") && same_text(pairs[i].1.as_str(), "jpeg") {
            return true;
        }
        i += 1;
    }
    false
}

/// The query string of the pairs that are meant for the upstream server.
fn rebuild_query(pairs: &Vec<(String, String)>) -> (r: String)
    ensures
        r@ == query_of(upstream_pairs(pair_texts(pairs@))),
{
    let ghost all = pair_texts(pairs@);
    let mut r = String::new();
    let mut i: usize = 0;
    proof {
        reveal(Seq::filter);
        assert(all.take(0) =~= seq![]);
    }
    while i < pairs.len()
        invariant
            all == pair_texts(pairs@),
            i <= pairs@.len(),
            r@ == query_of(upstream_pairs(all.take(i as int))),
        decreases pairs@.len() - i,
    {
        proof {
            reveal(Seq::filter);
            assert(all.take(i + 1).drop_last() =~= all.take(i as int));
            assert(all.take(i + 1).last() == (pairs@[i as int].0@, pairs@[i as int].1@));
            let kept = upstream_pairs(all.take(i as int));
            assert(kept.push(all[i as int]).drop_last() =~= kept);
        }
        if !same_text(pairs[i].0.as_str(), "real_ext") {
            append_pair(&mut r, pairs[i].0.as_str(), pairs[i].1.as_str());
        }
        i += 1;
    }
    assert(all.take(i as int) =~= all);
    r
}

} // verus!
