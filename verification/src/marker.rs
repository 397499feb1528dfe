//! Searching bytes for direct links.

use memchr::memmem::Finder;
use vstd::prelude::*;
use vstd::string::*;
use vstd::utf8::*;

use crate::proxy::M3U8_NEEDLE;
use crate::text::{has_part, occurs_at};

verus! {

#[verifier::external_type_specification]
#[verifier::external_body]
pub struct ExFinder<'n>(Finder<'n>);

/// A marker, with a searcher built for it.
pub struct Marker {
    text: &'static str,
    finder: Finder<'static>,
}

/// `memchr::memmem::Finder::new` builds a searcher for the bytes with which a direct link begins.
#[verifier::external_body]
fn build(needle: &'static [u8]) -> (r: Finder<'static>)
    requires
        needle@ == encode_utf8(M3U8_NEEDLE@),
{
    Finder::new(needle)
}

impl Marker {
    /// The marker's text.
    pub closed spec fn text(self) -> Seq<char> {
        self.text@
    }

    /// The beginning of a direct link.
    pub(crate) fn new() -> (r: Self)
        ensures
            r.text() == M3U8_NEEDLE@,
    {
        Marker { text: M3U8_NEEDLE, finder: build(M3U8_NEEDLE.as_bytes()) }
    }

    /// `memchr::memmem::Finder::find`, on the searcher that [`Marker::new`] built for the bytes of
    /// [`M3U8_NEEDLE`], gives the index of their first occurrence.
    #[verifier::external_body]
    pub(crate) fn find(&self, hay: &[u8]) -> (r: Option<usize>)
        requires
            self.text() == M3U8_NEEDLE@,
        ensures
            match r {
                Some(at) => {
                    &&& occurs_at(hay@, encode_utf8(M3U8_NEEDLE@), at as int)
                    &&& forall|i: int| 0 <= i < at ==> !occurs_at(hay@, encode_utf8(M3U8_NEEDLE@), i)
                },
                None => !has_part(hay@, encode_utf8(M3U8_NEEDLE@)),
            },
    {
        self.finder.find(hay)
    }
}

/// The encoding of two texts in a row is the one of the first and then the one of the second.
pub(crate) proof fn lemma_encode_concat(a: Seq<char>, b: Seq<char>)
    ensures
        encode_utf8(a + b) == encode_utf8(a) + encode_utf8(b),
    decreases a.len(),
{
    if a.len() == 0 {
        assert(a + b =~= b);
        assert(encode_utf8(a) + encode_utf8(b) =~= encode_utf8(b));
    } else {
        assert((a + b).drop_first() =~= a.drop_first() + b);
        lemma_encode_concat(a.drop_first(), b);
        assert(encode_utf8(a + b) =~= encode_utf8(a) + encode_utf8(b));
    }
}

/// What stands in a text stands in its encoding.
pub(crate) proof fn lemma_encoding_has(hay: Seq<char>, needle: Seq<char>)
    requires
        has_part(hay, needle),
    ensures
        has_part(encode_utf8(hay), encode_utf8(needle)),
{
    let at = choose|at: int| occurs_at(hay, needle, at);
    let before = hay.take(at);
    let after = hay.skip(at + needle.len());
    assert(hay =~= before + (needle + after));
    lemma_encode_concat(before, needle + after);
    lemma_encode_concat(needle, after);
    let k = encode_utf8(before).len() as int;
    assert(encode_utf8(hay).subrange(k, k + encode_utf8(needle).len()) =~= encode_utf8(needle));
    assert(occurs_at(encode_utf8(hay), encode_utf8(needle), k));
}

} // verus!
