//! Character sequences: the searching, splitting and replacing that requests and playlists need.
//!
//! Specifications see a string as the sequence of its characters.

use vstd::prelude::*;
use vstd::string::*;

verus! {

/// `String::push` appends one character.
pub assume_specification[ String::push ](s: &mut String, c: char)
    ensures
        final(s)@ == old(s)@.push(c),
;

// ---------------------------------------------------------------------------
// What the operations mean
// ---------------------------------------------------------------------------

/// `needle` stands in `hay` at index `at`.
pub open spec fn occurs_at<T>(hay: Seq<T>, needle: Seq<T>, at: int) -> bool {
    &&& 0 <= at
    &&& at + needle.len() <= hay.len()
    &&& hay.subrange(at, at + needle.len()) == needle
}

/// `needle` stands somewhere in `hay`.
pub open spec fn has_part<T>(hay: Seq<T>, needle: Seq<T>) -> bool {
    exists|at: int| occurs_at(hay, needle, at)
}

/// `hay` with every occurrence of `needle`, taken from the left without overlap, replaced by
/// `with`.
pub open spec fn replaced(hay: Seq<char>, needle: Seq<char>, with: Seq<char>) -> Seq<char>
    decreases hay.len(),
{
    if needle.len() == 0 || hay.len() < needle.len() {
        hay
    } else if needle.is_prefix_of(hay) {
        with + replaced(hay.skip(needle.len() as int), needle, with)
    } else {
        seq![hay[0]] + replaced(hay.skip(1), needle, with)
    }
}

/// The number of characters in front of the first `mark`, or of all characters if there is none.
pub open spec fn until(s: Seq<char>, mark: char) -> nat
    decreases s.len(),
{
    if s.len() == 0 || s[0] == mark {
        0
    } else {
        1 + until(s.skip(1), mark)
    }
}

/// The pieces of `s` between its separators; a text without separator is one piece.
pub open spec fn fields(s: Seq<char>, sep: char) -> Seq<Seq<char>>
    decreases s.len(),
{
    let end = until(s, sep) as int;
    if end < s.len() {
        seq![s.take(end)] + fields(s.skip(end + 1), sep)
    } else {
        seq![s]
    }
}

/// A line without the carriage return that stood in front of its newline.
pub open spec fn without_return(line: Seq<char>) -> Seq<char> {
    if line.len() > 0 && line.last() == '\r' {
        line.drop_last()
    } else {
        line
    }
}

/// The lines of `s`, without their endings. A line ends with a newline or with a carriage return
/// and a newline; the ending of the last line is optional.
pub open spec fn lines(s: Seq<char>) -> Seq<Seq<char>>
    decreases s.len(),
{
    let end = until(s, '\n') as int;
    if s.len() == 0 {
        seq![]
    } else if end < s.len() {
        seq![without_return(s.take(end))] + lines(s.skip(end + 1))
    } else {
        seq![s]
    }
}

/// Unicode's white space characters.
pub open spec fn is_white_space(c: char) -> bool {
    ||| '\u{9}' <= c <= '\u{d}'
    ||| c == ' '
    ||| c == '\u{85}'
    ||| c == '\u{a0}'
    ||| c == '\u{1680}'
    ||| '\u{2000}' <= c <= '\u{200a}'
    ||| c == '\u{2028}'
    ||| c == '\u{2029}'
    ||| c == '\u{202f}'
    ||| c == '\u{205f}'
    ||| c == '\u{3000}'
}

/// Nothing but white space.
pub open spec fn is_blank(s: Seq<char>) -> bool {
    forall|i: int| 0 <= i < s.len() ==> is_white_space(#[trigger] s[i])
}

/// `s` up to and including its last `mark`; all of `s` if it has none.
pub open spec fn through_last(s: Seq<char>, mark: char) -> Seq<char> {
    if s.contains(mark) {
        cut_after_last(s, mark)
    } else {
        s
    }
}

/// `s` without what follows its last `mark`.
pub open spec fn cut_after_last(s: Seq<char>, mark: char) -> Seq<char>
    decreases s.len(),
{
    if s.len() == 0 || s.last() == mark {
        s
    } else {
        cut_after_last(s.drop_last(), mark)
    }
}

/// The first of `parts` that begins with `prefix`.
pub open spec fn first_with_prefix(parts: Seq<Seq<char>>, prefix: Seq<char>) -> Option<Seq<char>>
    decreases parts.len(),
{
    if parts.len() == 0 {
        None
    } else if prefix.is_prefix_of(parts[0]) {
        Some(parts[0])
    } else {
        first_with_prefix(parts.skip(1), prefix)
    }
}

/// The characters behind an optional string.
pub open spec fn opt_text(s: Option<String>) -> Option<Seq<char>> {
    match s {
        Some(t) => Some(t@),
        None => None,
    }
}

/// The characters behind each of some strings.
pub open spec fn texts(v: Seq<String>) -> Seq<Seq<char>> {
    v.map_values(|s: String| s@)
}

pub proof fn lemma_until(s: Seq<char>, mark: char)
    ensures
        until(s, mark) <= s.len(),
        until(s, mark) < s.len() ==> s[until(s, mark) as int] == mark,
        forall|i: int| 0 <= i < until(s, mark) ==> s[i] != mark,
    decreases s.len(),
{
    if s.len() != 0 && s[0] != mark {
        lemma_until(s.skip(1), mark);
        assert forall|i: int| 0 <= i < until(s, mark) implies s[i] != mark by {
            if i > 0 {
                assert(s[i] == s.skip(1)[i - 1]);
            }
        }
    }
}

pub(crate) proof fn lemma_until_concat(a: Seq<char>, b: Seq<char>, mark: char)
    requires
        !a.contains(mark),
    ensures
        until(a + b, mark) == a.len() + until(b, mark),
    decreases a.len(),
{
    if a.len() == 0 {
        assert(a + b =~= b);
    } else {
        assert(a.contains(a[0]));
        assert((a + b).skip(1) =~= a.skip(1) + b);
        assert(!a.skip(1).contains(mark)) by {
            if a.skip(1).contains(mark) {
                let i = a.skip(1).index_of(mark);
                assert(a[i + 1] == mark);
            }
        }
        lemma_until_concat(a.skip(1), b, mark);
    }
}

pub(crate) proof fn lemma_one_field(s: Seq<char>, sep: char)
    requires
        !s.contains(sep),
    ensures
        fields(s, sep) == seq![s],
{
    lemma_until_concat(s, seq![], sep);
    assert(s + seq![] =~= s);
}

/// A last field without separators is the last of the fields.
pub(crate) proof fn lemma_fields_push(s: Seq<char>, sep: char, last: Seq<char>)
    requires
        !last.contains(sep),
    ensures
        fields(s + seq![sep] + last, sep) == fields(s, sep).push(last),
    decreases s.len(),
{
    lemma_until(s, sep);
    let end = until(s, sep) as int;
    let whole = s + seq![sep] + last;
    let head = s.take(end);
    assert(!head.contains(sep)) by {
        if head.contains(sep) {
            let i = head.index_of(sep);
            assert(s[i] == sep);
        }
    }
    if end < s.len() {
        let tail = s.skip(end + 1);
        assert(whole =~= head + (seq![sep] + (tail + seq![sep] + last)));
        lemma_until_concat(head, seq![sep] + (tail + seq![sep] + last), sep);
        assert(whole.take(end) =~= head);
        assert(whole.skip(end + 1) =~= tail + seq![sep] + last);
        lemma_fields_push(tail, sep, last);
        assert(seq![head] + fields(tail, sep).push(last) =~= (seq![head] + fields(tail, sep)).push(
            last,
        ));
    } else {
        assert(head =~= s);
        assert(whole =~= s + (seq![sep] + last));
        lemma_until_concat(s, seq![sep] + last, sep);
        assert(whole.take(end) =~= s);
        assert(whole.skip(end + 1) =~= last);
        lemma_one_field(last, sep);
        assert(seq![s] + seq![last] =~= seq![s].push(last));
    }
}

pub(crate) proof fn lemma_filter_push<A>(s: Seq<A>, x: A, keep: spec_fn(A) -> bool)
    ensures
        s.push(x).filter(keep) == (if keep(x) {
            s.filter(keep).push(x)
        } else {
            s.filter(keep)
        }),
        Seq::<A>::empty().filter(keep) == Seq::<A>::empty(),
{
    reveal(Seq::filter);
    assert(s.push(x).drop_last() =~= s);
}

/// The lines of a text that is split behind a newline are the lines of both parts.
pub(crate) proof fn lemma_lines_concat(left: Seq<char>, right: Seq<char>)
    requires
        left.len() > 0,
        left.last() == '\n',
    ensures
        lines(left + right) == lines(left) + lines(right),
    decreases left.len(),
{
    lemma_until(left, '\n');
    let end = until(left, '\n') as int;
    let whole = left + right;
    let head = left.take(end);
    let rest = left.skip(end + 1);
    assert(!head.contains('\n'));
    assert(whole =~= head + (seq!['\n'] + (rest + right)));
    lemma_until_concat(head, seq!['\n'] + (rest + right), '\n');
    assert(whole.take(end) =~= head);
    assert(whole.skip(end + 1) =~= rest + right);
    if rest.len() == 0 {
        assert(rest + right =~= right);
        assert(lines(rest) =~= seq![]);
        assert(lines(whole) =~= lines(left) + lines(right));
    } else {
        lemma_lines_concat(rest, right);
        assert(lines(whole) =~= lines(left) + lines(right));
    }
}

// ---------------------------------------------------------------------------
// The operations
// ---------------------------------------------------------------------------

/// The characters of a string.
pub fn chars_of(s: &str) -> (v: Vec<char>)
    ensures
        v@ == s@,
{
    let mut v: Vec<char> = Vec::new();
    for c in it: s.chars()
        invariant
            v@ == it.seq().take(it.index() as int),
            it.seq() == s@,
    {
        v.push(c);
    }
    v
}

/// The characters from index `from` up to index `to`, as a string.
pub fn text_between(v: &Vec<char>, from: usize, to: usize) -> (s: String)
    requires
        from <= to <= v@.len(),
    ensures
        s@ == v@.subrange(from as int, to as int),
{
    let mut s = String::new();
    let mut i: usize = from;
    while i < to
        invariant
            from <= i <= to <= v@.len(),
            s@ == v@.subrange(from as int, i as int),
        decreases to - i,
    {
        s.push(v[i]);
        i += 1;
    }
    s
}

/// Whether two strings hold the same characters.
pub fn same_text(a: &str, b: &str) -> (r: bool)
    ensures
        r == (a@ == b@),
{
    let left = chars_of(a);
    let right = chars_of(b);
    assert(left@.subrange(0, left@.len() as int) =~= left@);
    left.len() == right.len() && matches_at(&left, &right, 0)
}

/// Whether `needle` stands in `hay` at index `at`.
fn matches_at(hay: &Vec<char>, needle: &Vec<char>, at: usize) -> (r: bool)
    requires
        at <= hay@.len(),
    ensures
        r == occurs_at(hay@, needle@, at as int),
{
    if hay.len() - at < needle.len() {
        return false;
    }
    let mut i: usize = 0;
    while i < needle.len()
        invariant
            at + needle.len() <= hay.len(),
            i <= needle@.len(),
            forall|j: int| 0 <= j < i ==> hay@[at + j] == needle@[j],
        decreases needle@.len() - i,
    {
        if hay[at + i] != needle[i] {
            proof {
                assert(hay@.subrange(at as int, at + needle@.len())[i as int] == hay@[at + i]);
            }
            return false;
        }
        i += 1;
    }
    assert(hay@.subrange(at as int, at + needle@.len()) =~= needle@);
    true
}

/// Whether `needle` stands somewhere in `hay`.
pub fn contains(hay: &str, needle: &str) -> (r: bool)
    ensures
        r == has_part(hay@, needle@),
{
    let h = chars_of(hay);
    let n = chars_of(needle);
    let mut i: usize = 0;
    while i < h.len()
        invariant
            h@ == hay@,
            n@ == needle@,
            i <= h@.len(),
            forall|at: int| 0 <= at < i ==> !occurs_at(h@, n@, at),
        decreases h@.len() - i,
    {
        if matches_at(&h, &n, i) {
            return true;
        }
        i += 1;
    }
    matches_at(&h, &n, i)
}

/// Whether `s` begins with `prefix`.
pub fn starts_with(s: &str, prefix: &str) -> (r: bool)
    ensures
        r == prefix@.is_prefix_of(s@),
{
    let s = chars_of(s);
    let prefix = chars_of(prefix);
    matches_at(&s, &prefix, 0)
}

/// Whether `s` ends with `suffix`.
pub fn ends_with(s: &str, suffix: &str) -> (r: bool)
    ensures
        r == suffix@.is_suffix_of(s@),
{
    let s = chars_of(s);
    let suffix = chars_of(suffix);
    if s.len() < suffix.len() {
        return false;
    }
    matches_at(&s, &suffix, s.len() - suffix.len())
}

/// What follows the first `count` characters of `s`.
pub fn after(s: &str, count: usize) -> (r: String)
    requires
        count <= s@.len(),
    ensures
        r@ == s@.skip(count as int),
{
    let v = chars_of(s);
    text_between(&v, count, v.len())
}

/// `hay` with every occurrence of `needle` replaced by `with`.
pub fn replace(hay: &str, needle: &str, with: &str) -> (r: String)
    requires
        needle@.len() > 0,
    ensures
        r@ == replaced(hay@, needle@, with@),
{
    let hay = chars_of(hay);
    let needle = chars_of(needle);
    let mut r = String::new();
    let mut i: usize = 0;
    assert(hay@.skip(0) =~= hay@);
    while i < hay.len()
        invariant
            i <= hay@.len(),
            needle@.len() > 0,
            r@ + replaced(hay@.skip(i as int), needle@, with@) == replaced(hay@, needle@, with@),
        decreases hay@.len() - i,
    {
        let ghost rest = hay@.skip(i as int);
        let ghost before = r@;
        if matches_at(&hay, &needle, i) {
            assert(needle@.is_prefix_of(rest)) by {
                assert(rest.subrange(0, needle@.len() as int) =~= hay@.subrange(
                    i as int,
                    i + needle@.len(),
                ));
            }
            r.append(with);
            i += needle.len();
            assert(rest.skip(needle@.len() as int) =~= hay@.skip(i as int));
        } else {
            assert(!(needle@.len() <= rest.len() && needle@.is_prefix_of(rest))) by {
                if needle@.len() <= rest.len() && needle@.is_prefix_of(rest) {
                    assert(rest.subrange(0, needle@.len() as int) =~= hay@.subrange(
                        i as int,
                        i + needle@.len(),
                    ));
                }
            }
            r.push(hay[i]);
            i += 1;
            assert(rest.skip(1) =~= hay@.skip(i as int));
            proof {
                if rest.len() < needle@.len() {
                    assert(rest =~= seq![rest[0]] + rest.skip(1));
                }
            }
            assert(r@ =~= before + seq![rest[0]]);
        }
        assert(r@ + replaced(hay@.skip(i as int), needle@, with@) =~= before + replaced(
            rest,
            needle@,
            with@,
        ));
    }
    assert(hay@.skip(i as int) =~= Seq::<char>::empty());
    r
}

/// The pieces of `s` between its separators.
pub fn split(s: &str, sep: char) -> (r: Vec<String>)
    ensures
        texts(r@) == fields(s@, sep),
{
    let v = chars_of(s);
    let mut r: Vec<String> = Vec::new();
    let mut start: usize = 0;
    let mut i: usize = 0;
    assert(v@.skip(0) =~= v@);
    while i < v.len()
        invariant
            start <= i <= v@.len(),
            forall|j: int| start <= j < i ==> v@[j] != sep,
            texts(r@) + fields(v@.skip(start as int), sep) == fields(v@, sep),
        decreases v@.len() - i,
    {
        if v[i] == sep {
            let piece = text_between(&v, start, i);
            proof {
                let rest = v@.skip(start as int);
                lemma_until_at(rest, sep, i - start);
                assert(rest.take(i - start) =~= piece@);
                assert(rest.skip(i - start + 1) =~= v@.skip(i + 1));
                assert(texts(r@.push(piece)) =~= texts(r@) + seq![piece@]);
                assert(texts(r@.push(piece)) + fields(v@.skip(i + 1), sep) =~= texts(r@) + (
                seq![piece@] + fields(v@.skip(i + 1), sep)));
            }
            r.push(piece);
            start = i + 1;
        }
        i += 1;
    }
    let piece = text_between(&v, start, i);
    proof {
        let rest = v@.skip(start as int);
        lemma_until(rest, sep);
        assert(rest =~= piece@);
        assert(until(rest, sep) == rest.len());
        assert(texts(r@.push(piece)) =~= texts(r@) + seq![piece@]);
    }
    r.push(piece);
    r
}

/// `until` stops at the first mark.
proof fn lemma_until_at(s: Seq<char>, mark: char, at: int)
    requires
        0 <= at <= s.len(),
        at < s.len() ==> s[at] == mark,
        forall|i: int| 0 <= i < at ==> s[i] != mark,
    ensures
        until(s, mark) == at,
{
    lemma_until(s, mark);
}

/// The lines of `s`, without their endings.
pub fn split_lines(s: &str) -> (r: Vec<String>)
    ensures
        texts(r@) == lines(s@),
{
    let v = chars_of(s);
    let mut r: Vec<String> = Vec::new();
    let mut start: usize = 0;
    let mut i: usize = 0;
    assert(v@.skip(0) =~= v@);
    while i < v.len()
        invariant
            start <= i <= v@.len(),
            forall|j: int| start <= j < i ==> v@[j] != '\n',
            texts(r@) + lines(v@.skip(start as int)) == lines(v@),
        decreases v@.len() - i,
    {
        if v[i] == '\n' {
            let end: usize = if i > start && v[i - 1] == '\r' {
                i - 1
            } else {
                i
            };
            let line = text_between(&v, start, end);
            proof {
                let rest = v@.skip(start as int);
                lemma_until_at(rest, '\n', i - start);
                assert(without_return(rest.take(i - start)) =~= line@);
                assert(rest.skip(i - start + 1) =~= v@.skip(i + 1));
                assert(texts(r@.push(line)) =~= texts(r@) + seq![line@]);
                assert(texts(r@.push(line)) + lines(v@.skip(i + 1)) =~= texts(r@) + (seq![line@]
                    + lines(v@.skip(i + 1))));
            }
            r.push(line);
            start = i + 1;
        }
        i += 1;
    }
    let ghost rest = v@.skip(start as int);
    if start < v.len() {
        let line = text_between(&v, start, i);
        proof {
            lemma_until(rest, '\n');
            assert(rest =~= line@);
            assert(until(rest, '\n') == rest.len());
            assert(texts(r@.push(line)) =~= texts(r@) + seq![line@]);
        }
        r.push(line);
    }
    r
}

/// Whether a character is white space.
pub fn white_space(c: char) -> (r: bool)
    ensures
        r == is_white_space(c),
{
    ('\u{9}' <= c && c <= '\u{d}') || c == ' ' || c == '\u{85}' || c == '\u{a0}' || c == '\u{1680}'
        || ('\u{2000}' <= c && c <= '\u{200a}') || c == '\u{2028}' || c == '\u{2029}' || c
        == '\u{202f}' || c == '\u{205f}' || c == '\u{3000}'
}

/// Whether `s` holds nothing but white space.
pub fn blank(s: &str) -> (r: bool)
    ensures
        r == is_blank(s@),
{
    let v = chars_of(s);
    let mut i: usize = 0;
    while i < v.len()
        invariant
            v@ == s@,
            i <= v@.len(),
            forall|j: int| 0 <= j < i ==> is_white_space(#[trigger] v@[j]),
        decreases v@.len() - i,
    {
        if !white_space(v[i]) {
            assert(!is_white_space(s@[i as int]));
            return false;
        }
        i += 1;
    }
    true
}

/// `s` up to and including its last `mark`, or all of it.
pub fn up_to_last(s: &str, mark: char) -> (r: String)
    ensures
        r@ == through_last(s@, mark),
{
    let v = chars_of(s);
    let mut end: usize = v.len();
    assert(v@.take(end as int) =~= v@);
    while end > 0
        invariant
            end <= v@.len(),
            v@ == s@,
            forall|j: int| end <= j < v@.len() ==> v@[j] != mark,
            cut_after_last(v@.take(end as int), mark) == cut_after_last(v@, mark),
        decreases end,
    {
        if v[end - 1] == mark {
            assert(v@.take(end as int).last() == mark);
            assert(v@[end - 1] == mark);
            return text_between(&v, 0, end);
        }
        assert(v@.take(end as int).drop_last() =~= v@.take(end - 1));
        end -= 1;
    }
    assert(!s@.contains(mark));
    text_between(&v, 0, v.len())
}

/// The first of `parts` that begins with `prefix`.
pub fn find_prefixed(parts: &Vec<String>, prefix: &str) -> (r: Option<String>)
    ensures
        opt_text(r) == first_with_prefix(texts(parts@), prefix@),
{
    let mut i: usize = 0;
    assert(texts(parts@).skip(0) =~= texts(parts@));
    while i < parts.len()
        invariant
            i <= parts@.len(),
            first_with_prefix(texts(parts@).skip(i as int), prefix@) == first_with_prefix(
                texts(parts@),
                prefix@,
            ),
        decreases parts@.len() - i,
    {
        let ghost rest = texts(parts@).skip(i as int);
        assert(rest[0] == parts@[i as int]@);
        if starts_with(parts[i].as_str(), prefix) {
            return Some(parts[i].clone());
        }
        assert(rest.skip(1) =~= texts(parts@).skip(i + 1));
        i += 1;
    }
    None
}

} // verus!
