//! What holds of a text in which every occurrence of a needle has been replaced.

use vstd::prelude::*;

use crate::text::{has_part, occurs_at, replaced};

verus! {

/// Where nothing is found, nothing is replaced.
pub proof fn replacing_nothing(hay: Seq<char>, needle: Seq<char>, with: Seq<char>)
    requires
        !has_part(hay, needle),
    ensures
        replaced(hay, needle, with) == hay,
    decreases hay.len(),
{
    if needle.len() > 0 && hay.len() >= needle.len() {
        if needle.is_prefix_of(hay) {
            assert(occurs_at(hay, needle, 0));
        }
        let rest = hay.skip(1);
        assert forall|at: int| !occurs_at(rest, needle, at) by {
            if occurs_at(rest, needle, at) {
                assert(hay.subrange(at + 1, at + 1 + needle.len()) =~= rest.subrange(
                    at,
                    at + needle.len(),
                ));
                assert(occurs_at(hay, needle, at + 1));
            }
        }
        replacing_nothing(rest, needle, with);
        assert(hay =~= seq![hay[0]] + rest);
    }
}

/// The text in front of the first occurrence stays, and what follows it is dealt with by itself.
pub proof fn replacing_first(hay: Seq<char>, needle: Seq<char>, with: Seq<char>, at: int)
    requires
        needle.len() > 0,
        occurs_at(hay, needle, at),
        forall|i: int| 0 <= i < at ==> !occurs_at(hay, needle, i),
    ensures
        replaced(hay, needle, with) == hay.take(at) + with + replaced(
            hay.skip(at + needle.len()),
            needle,
            with,
        ),
    decreases hay.len(),
{
    if at == 0 {
        assert(needle.is_prefix_of(hay));
        assert(hay.take(0) + with =~= with);
    } else {
        let rest = hay.skip(1);
        assert(!needle.is_prefix_of(hay)) by {
            if needle.is_prefix_of(hay) {
                assert(occurs_at(hay, needle, 0));
            }
        }
        assert(rest.subrange(at - 1, at - 1 + needle.len()) =~= hay.subrange(at, at + needle.len()));
        assert forall|i: int| 0 <= i < at - 1 implies !occurs_at(rest, needle, i) by {
            if occurs_at(rest, needle, i) {
                assert(rest.subrange(i, i + needle.len()) =~= hay.subrange(
                    i + 1,
                    i + 1 + needle.len(),
                ));
                assert(occurs_at(hay, needle, i + 1));
            }
        }
        replacing_first(rest, needle, with, at - 1);
        assert(rest.skip(at - 1 + needle.len()) =~= hay.skip(at + needle.len()));
        assert(seq![hay[0]] + rest.take(at - 1) =~= hay.take(at));
        assert(replaced(hay, needle, with) =~= hay.take(at) + with + replaced(
            hay.skip(at + needle.len()),
            needle,
            with,
        ));
    }
}

/// A beginning is one of a text if its first character is, and the rest is one of the rest.
proof fn lemma_prefix_step(prefix: Seq<char>, s: Seq<char>)
    requires
        prefix.len() > 0,
        s.len() > 0,
        prefix[0] == s[0],
        prefix.skip(1).is_prefix_of(s.skip(1)),
    ensures
        prefix.is_prefix_of(s),
{
    assert forall|i: int| 0 <= i < prefix.len() implies prefix[i] == s[i] by {
        if i > 0 {
            assert(prefix.skip(1)[i - 1] == s.skip(1).subrange(0, prefix.len() - 1)[i - 1]);
        }
    }
    assert(prefix =~= s.subrange(0, prefix.len() as int));
}

/// A beginning that holds nothing of the replacement's first character has not been touched.
proof fn lemma_prefix_survives(hay: Seq<char>, needle: Seq<char>, with: Seq<char>, prefix: Seq<char>)
    requires
        with.len() > 0,
        !prefix.contains(with[0]),
        prefix.is_prefix_of(replaced(hay, needle, with)),
    ensures
        prefix.is_prefix_of(hay),
    decreases prefix.len(),
{
    let out = replaced(hay, needle, with);
    if prefix.len() > 0 && needle.len() > 0 && hay.len() >= needle.len() {
        assert(prefix[0] == out[0]);
        assert(prefix.contains(prefix[0]));
        if needle.is_prefix_of(hay) {
            assert(out[0] == with[0]);
        } else {
            let rest = hay.skip(1);
            let tail = prefix.skip(1);
            assert(tail =~= replaced(rest, needle, with).take(tail.len() as int)) by {
                assert(prefix =~= out.take(prefix.len() as int));
            }
            assert(!tail.contains(with[0])) by {
                if tail.contains(with[0]) {
                    let i = tail.index_of(with[0]);
                    assert(prefix[i + 1] == with[0]);
                }
            }
            lemma_prefix_survives(rest, needle, with, tail);
            lemma_prefix_step(prefix, hay);
        }
    }
}

/// After replacing, the needle is gone: if the replacement does not hold it, if the needle has its
/// first character nowhere else, and if the replacement begins with that character and does not
/// have it near its end, so that no new occurrence can arise at a seam.
pub proof fn replacing_leaves_none(hay: Seq<char>, needle: Seq<char>, with: Seq<char>)
    requires
        0 < needle.len() <= with.len(),
        !has_part(with, needle),
        forall|i: int| 0 < i < needle.len() ==> #[trigger] needle[i] != needle[0],
        with[0] == needle[0],
        forall|i: int| with.len() - needle.len() < i < with.len() ==> #[trigger] with[i] != needle[0],
    ensures
        !has_part(replaced(hay, needle, with), needle),
    decreases hay.len(),
{
    let out = replaced(hay, needle, with);
    if hay.len() < needle.len() {
        assert(out == hay);
    } else if needle.is_prefix_of(hay) {
        let rest = replaced(hay.skip(needle.len() as int), needle, with);
        replacing_leaves_none(hay.skip(needle.len() as int), needle, with);
        assert forall|at: int| !occurs_at(out, needle, at) by {
            if occurs_at(out, needle, at) {
                let found = out.subrange(at, at + needle.len());
                assert(found[0] == out[at]);
                if at >= with.len() {
                    assert(rest.subrange(at - with.len(), at - with.len() + needle.len()) =~= found);
                    assert(occurs_at(rest, needle, at - with.len()));
                } else if at + needle.len() <= with.len() {
                    assert(with.subrange(at, at + needle.len()) =~= found);
                    assert(occurs_at(with, needle, at));
                } else {
                    assert(out[at] == with[at]);
                }
            }
        }
    } else {
        let rest = replaced(hay.skip(1), needle, with);
        replacing_leaves_none(hay.skip(1), needle, with);
        assert forall|at: int| !occurs_at(out, needle, at) by {
            if occurs_at(out, needle, at) {
                let found = out.subrange(at, at + needle.len());
                if at > 0 {
                    assert(rest.subrange(at - 1, at - 1 + needle.len()) =~= found);
                    assert(occurs_at(rest, needle, at - 1));
                } else {
                    let tail = needle.skip(1);
                    assert(tail =~= rest.take(tail.len() as int)) by {
                        assert forall|i: int| 0 <= i < tail.len() implies tail[i] == rest[i] by {
                            assert(found[i + 1] == out[i + 1]);
                        }
                    }
                    lemma_prefix_survives(hay.skip(1), needle, with, tail);
                    assert(found[0] == hay[0]);
                    lemma_prefix_step(needle, hay);
                }
            }
        }
    }
}

/// Replacing `a` by `b` and then `b` by `a` gives back a text that did not hold `b`, if `b` has its
/// first character nowhere else.
pub proof fn replacing_back(s: Seq<char>, a: Seq<char>, b: Seq<char>)
    requires
        a.len() > 0,
        b.len() > 0,
        forall|i: int| 0 < i < b.len() ==> #[trigger] b[i] != b[0],
        !has_part(s, b),
    ensures
        replaced(replaced(s, a, b), b, a) == s,
    decreases s.len(),
{
    let out = replaced(s, a, b);
    if s.len() < a.len() {
        replacing_nothing(s, b, a);
    } else if a.is_prefix_of(s) {
        let rest = s.skip(a.len() as int);
        lemma_part_of_rest(s, b, a.len() as int);
        replacing_back(rest, a, b);
        assert(b.is_prefix_of(out));
        assert(out.skip(b.len() as int) =~= replaced(rest, a, b));
        assert(a + rest =~= s);
    } else {
        let rest = s.skip(1);
        let tail = replaced(rest, a, b);
        lemma_part_of_rest(s, b, 1);
        replacing_back(rest, a, b);
        assert(out =~= seq![s[0]] + tail);
        assert(out.skip(1) =~= tail);
        assert(seq![s[0]] + rest =~= s);
        if out.len() >= b.len() && b.is_prefix_of(out) {
            let m = b.skip(1);
            assert(b =~= out.take(b.len() as int));
            assert(m =~= tail.take(m.len() as int)) by {
                assert forall|i: int| 0 <= i < m.len() implies m[i] == tail[i] by {
                    assert(b[i + 1] == out[i + 1]);
                }
            }
            lemma_prefix_survives(rest, a, b, m);
            lemma_prefix_step(b, s);
            assert(occurs_at(s, b, 0));
        }
        if out.len() < b.len() {
            assert(replaced(tail, b, a) == tail);
        }
    }
}

/// What does not stand in a text does not stand in an end of it.
proof fn lemma_part_of_rest(s: Seq<char>, needle: Seq<char>, from: int)
    requires
        0 <= from <= s.len(),
        !has_part(s, needle),
    ensures
        !has_part(s.skip(from), needle),
{
    assert forall|at: int| !occurs_at(s.skip(from), needle, at) by {
        if occurs_at(s.skip(from), needle, at) {
            assert(s.subrange(from + at, from + at + needle.len()) =~= s.skip(from).subrange(
                at,
                at + needle.len(),
            ));
            assert(occurs_at(s, needle, from + at));
        }
    }
}

/// A character that the needle does not hold stays where it is, and what stands on either side of
/// it is dealt with by itself.
pub proof fn replacing_around(
    left: Seq<char>,
    c: char,
    right: Seq<char>,
    needle: Seq<char>,
    with: Seq<char>,
)
    requires
        needle.len() > 0,
        !needle.contains(c),
    ensures
        replaced(left.push(c) + right, needle, with) == replaced(left, needle, with).push(c)
            + replaced(right, needle, with),
    decreases left.len(),
{
    let whole = left.push(c) + right;
    let n = needle.len() as int;
    if whole.len() < n {
    } else if needle.is_prefix_of(whole) {
        assert(n <= left.len()) by {
            if left.len() < n {
                assert(needle[left.len() as int] == whole[left.len() as int]);
            }
        }
        assert(whole.take(n) =~= left.take(n));
        let rest = left.skip(n);
        assert(whole.skip(n) =~= rest.push(c) + right);
        replacing_around(rest, c, right, needle, with);
        assert(replaced(whole, needle, with) =~= replaced(left, needle, with).push(c) + replaced(
            right,
            needle,
            with,
        ));
    } else if left.len() == 0 {
        assert(whole.skip(1) =~= right);
        assert(replaced(whole, needle, with) =~= replaced(left, needle, with).push(c) + replaced(
            right,
            needle,
            with,
        ));
    } else {
        let rest = left.skip(1);
        assert(whole.skip(1) =~= rest.push(c) + right);
        replacing_around(rest, c, right, needle, with);
        assert(replaced(left, needle, with) =~= seq![left[0]] + replaced(rest, needle, with)) by {
            if left.len() >= n {
                assert(whole.take(n) =~= left.take(n));
            }
        }
        assert(replaced(whole, needle, with) =~= replaced(left, needle, with).push(c) + replaced(
            right,
            needle,
            with,
        ));
    }
}

} // verus!
