//! What holds of texts, numerals and settings, in terms of how they are put together.

use vstd::prelude::*;

use crate::codec::form_pair;
use crate::config::{port_of, workers_of, ProxyConfig};
use crate::number::{all_digits, bounded_value, decimal, digits_value, is_digit, unsigned_value};
use crate::replacing::{replacing_first, replacing_nothing};
use crate::target::{asks_for_jpeg, query_of, text_or, upstream_pairs};
use crate::text::{
    fields, first_with_prefix, has_part, is_blank, is_white_space, lemma_filter_push,
    lemma_one_field, lemma_until_concat, lines, occurs_at, replaced, through_last,
};

verus! {

// ---------------------------------------------------------------------------
// Parts
// ---------------------------------------------------------------------------

/// What is put between two texts stands there.
pub proof fn middle_is_found<T>(before: Seq<T>, middle: Seq<T>, after: Seq<T>)
    ensures
        occurs_at(before + middle + after, middle, before.len() as int),
        has_part(before + middle + after, middle),
{
    let n = before.len() as int;
    assert((before + middle + after).subrange(n, n + middle.len()) =~= middle);
    assert(occurs_at(before + middle + after, middle, n));
}

/// A text is made of what stands in front of an occurrence, the occurrence, and what follows it.
pub proof fn occurrence_is_a_middle<T>(hay: Seq<T>, needle: Seq<T>, at: int)
    requires
        occurs_at(hay, needle, at),
    ensures
        0 <= at,
        at + needle.len() <= hay.len(),
        hay == hay.take(at) + needle + hay.skip(at + needle.len()),
{
    assert(hay =~= hay.take(at) + needle + hay.skip(at + needle.len()));
}

/// A text that has a part has an occurrence of it.
pub proof fn part_has_a_place<T>(hay: Seq<T>, needle: Seq<T>)
    requires
        has_part(hay, needle),
    ensures
        exists|at: int| 0 <= at && hay == hay.take(at) + needle + #[trigger] hay.skip(at + needle.len()),
{
    let at = choose|at: int| occurs_at(hay, needle, at);
    occurrence_is_a_middle(hay, needle, at);
}

/// In front of an occurrence there is no other, if the needle is not found there and has its first
/// character nowhere else.
pub(crate) proof fn lemma_no_earlier(before: Seq<char>, needle: Seq<char>, after: Seq<char>)
    requires
        needle.len() > 0,
        !has_part(before, needle),
        forall|i: int| 0 < i < needle.len() ==> #[trigger] needle[i] != needle[0],
    ensures
        forall|i: int| 0 <= i < before.len() ==> !occurs_at(before + needle + after, needle, i),
{
    let whole = before + needle + after;
    assert forall|i: int| 0 <= i < before.len() implies !occurs_at(whole, needle, i) by {
        if occurs_at(whole, needle, i) {
            let found = whole.subrange(i, i + needle.len());
            if i + needle.len() <= before.len() {
                assert(before.subrange(i, i + needle.len()) =~= found);
                assert(occurs_at(before, needle, i));
            } else {
                let k = before.len() - i;
                assert(found[k] == whole[before.len() as int]);
                assert(needle[k] == needle[0]);
            }
        }
    }
}

/// A needle that has its first character nowhere else is replaced where it stands, and what follows
/// is dealt with by itself; a text without it stays.
pub proof fn occurrences_are_replaced_in_turn(
    before: Seq<char>,
    needle: Seq<char>,
    after: Seq<char>,
    with: Seq<char>,
)
    requires
        needle.len() > 0,
        !has_part(before, needle),
        forall|i: int| 0 < i < needle.len() ==> #[trigger] needle[i] != needle[0],
    ensures
        replaced(before, needle, with) == before,
        replaced(before + needle + after, needle, with) == before + with + replaced(
            after,
            needle,
            with,
        ),
{
    let whole = before + needle + after;
    let n = before.len() as int;
    replacing_nothing(before, needle, with);
    middle_is_found(before, needle, after);
    lemma_no_earlier(before, needle, after);
    replacing_first(whole, needle, with, n);
    assert(whole.take(n) =~= before);
    assert(whole.skip(n + needle.len()) =~= after);
}

// ---------------------------------------------------------------------------
// Pieces and lines
// ---------------------------------------------------------------------------

/// A text without separator is one piece; a piece in front of a separator is the first one.
pub proof fn pieces_stand_between_separators(piece: Seq<char>, sep: char, rest: Seq<char>)
    requires
        !piece.contains(sep),
    ensures
        fields(piece, sep) == seq![piece],
        fields(piece.push(sep) + rest, sep) == seq![piece] + fields(rest, sep),
{
    let whole = piece.push(sep) + rest;
    lemma_one_field(piece, sep);
    assert(whole =~= piece + (seq![sep] + rest));
    lemma_until_concat(piece, seq![sep] + rest, sep);
    assert(whole.take(piece.len() as int) =~= piece);
    assert(whole.skip(piece.len() as int + 1) =~= rest);
}

/// A line ends with a newline, or with a carriage return and a newline; the last line may do without
/// either.
pub proof fn lines_stand_between_endings(line: Seq<char>, rest: Seq<char>)
    requires
        !line.contains('\n'),
    ensures
        lines(seq![]) == Seq::<Seq<char>>::empty(),
        line.len() > 0 ==> lines(line) == seq![line],
        lines(line.push('\r').push('\n') + rest) == seq![line] + lines(rest),
        line.len() == 0 || line.last() != '\r' ==> lines(line.push('\n') + rest) == seq![line]
            + lines(rest),
{
    let n = line.len() as int;
    let long = line.push('\r').push('\n') + rest;
    let short = line.push('\n') + rest;
    lemma_until_concat(line, seq![], '\n');
    assert(line + seq![] =~= line);
    assert(long =~= line.push('\r') + (seq!['\n'] + rest));
    assert(short =~= line + (seq!['\n'] + rest));
    assert(!line.push('\r').contains('\n')) by {
        if line.push('\r').contains('\n') {
            let i = line.push('\r').index_of('\n');
            assert(line[i] == '\n');
        }
    }
    lemma_until_concat(line.push('\r'), seq!['\n'] + rest, '\n');
    lemma_until_concat(line, seq!['\n'] + rest, '\n');
    assert(long.take(n + 1) =~= line.push('\r'));
    assert(line.push('\r').drop_last() =~= line);
    assert(long.skip(n + 2) =~= rest);
    assert(short.take(n) =~= line);
    assert(short.skip(n + 1) =~= rest);
}

/// White space is what Unicode counts as such: tab, line feed, vertical tab, form feed, carriage
/// return, space, next line, and the spaces and separators beyond Latin-1.
pub proof fn white_space_is_unicodes(c: char)
    ensures
        is_white_space(c) <==> set![
            0x9int, 0xa, 0xb, 0xc, 0xd, 0x20, 0x85, 0xa0, 0x1680, 0x2000, 0x2001, 0x2002, 0x2003,
            0x2004, 0x2005, 0x2006, 0x2007, 0x2008, 0x2009, 0x200a, 0x2028, 0x2029, 0x202f, 0x205f,
            0x3000,
        ].contains(c as int),
{
}

/// A text is blank just if each of its characters is white space.
pub proof fn blank_is_white_throughout(s: Seq<char>, c: char)
    ensures
        is_blank(seq![]),
        is_blank(s.push(c)) <==> is_blank(s) && is_white_space(c),
{
    let longer = s.push(c);
    if is_blank(longer) {
        assert(is_white_space(longer[s.len() as int]));
        assert forall|i: int| 0 <= i < s.len() implies is_white_space(#[trigger] s[i]) by {
            assert(is_white_space(longer[i]));
        }
    }
}

/// Nothing behind the last mark is kept; a text without the mark is kept whole.
pub proof fn text_is_kept_through_the_last_mark(front: Seq<char>, mark: char, end: Seq<char>)
    requires
        !end.contains(mark),
    ensures
        through_last(end, mark) == end,
        through_last(front.push(mark) + end, mark) == front.push(mark),
    decreases end.len(),
{
    let whole = front.push(mark) + end;
    assert(whole[front.len() as int] == mark);
    if end.len() == 0 {
        assert(whole =~= front.push(mark));
    } else {
        let shorter = end.drop_last();
        assert(whole.drop_last() =~= front.push(mark) + shorter);
        assert(!shorter.contains(mark)) by {
            if shorter.contains(mark) {
                let i = shorter.index_of(mark);
                assert(end[i] == mark);
            }
        }
        assert(end.contains(end.last()));
        text_is_kept_through_the_last_mark(front, mark, shorter);
        assert((front.push(mark) + shorter)[front.len() as int] == mark);
    }
}

/// The first text with a prefix is the one in front, if it has the prefix, or else the first of the
/// others.
pub proof fn first_with_prefix_is_in_front(
    first: Seq<char>,
    rest: Seq<Seq<char>>,
    prefix: Seq<char>,
)
    ensures
        first_with_prefix(seq![], prefix) is None,
        first_with_prefix(seq![first] + rest, prefix) == (if prefix.is_prefix_of(first) {
            Some(first)
        } else {
            first_with_prefix(rest, prefix)
        }),
{
    assert((seq![first] + rest).skip(1) =~= rest);
}

// ---------------------------------------------------------------------------
// Numerals
// ---------------------------------------------------------------------------

/// A numeral is written digit by digit, without leading zeros.
pub proof fn numerals_are_decimal(n: nat, digit: nat)
    requires
        digit < 10,
    ensures
        decimal(digit) == seq!["0123456789"@[digit as int]],
        n > 0 ==> decimal(10 * n + digit) == decimal(n).push("0123456789"@[digit as int]),
{
    reveal_strlit("0123456789");
    assert(decimal(digit) =~= seq!["0123456789"@[digit as int]]);
    if n > 0 {
        assert((10 * n + digit) / 10 == n);
        assert((10 * n + digit) % 10 == digit);
    }
}

/// A row of digits is read digit by digit, with a plus sign in front of it or without.
pub proof fn digits_are_read_in_turn(s: Seq<char>, digit: nat)
    requires
        digit < 10,
        all_digits(s),
    ensures
        unsigned_value(seq!["0123456789"@[digit as int]]) == Some(digit),
        s.len() > 0 ==> unsigned_value(s) is Some && unsigned_value(
            s.push("0123456789"@[digit as int]),
        ) == Some((unsigned_value(s)->0 * 10 + digit) as nat),
        s.len() > 0 ==> unsigned_value(seq!['+'] + s) == unsigned_value(s),
{
    reveal_strlit("0123456789");
    let d = "0123456789"@[digit as int];
    let one = seq![d];
    assert(is_digit(d));
    assert(one.drop_last() =~= Seq::<char>::empty());
    assert(digits_value(Seq::<char>::empty()) == 0);
    assert(digits_value(one) == digit);
    assert(all_digits(one));
    if s.len() > 0 {
        assert(is_digit(s[0]));
        assert(s.push(d).drop_last() =~= s);
        assert(all_digits(s.push(d)));
        assert(s.push(d)[0] == s[0]);
        assert((seq!['+'] + s).skip(1) =~= s);
    }
}

/// Digits are the ten of ASCII; a text is no numeral if it is empty, a lone sign, or has another
/// character behind its first, or a first one that is neither a digit nor a plus sign.
pub proof fn other_texts_are_no_numerals(s: Seq<char>, c: char)
    ensures
        is_digit(c) <==> "0123456789"@.contains(c),
        unsigned_value(seq![]) is None,
        unsigned_value(seq!['+']) is None,
        s.len() > 0 && s[0] != '+' && !"0123456789"@.contains(s[0]) ==> unsigned_value(s) is None,
        forall|i: int|
            0 < i < s.len() && !"0123456789"@.contains(#[trigger] s[i]) ==> unsigned_value(
                s,
            ) is None,
{
    reveal_strlit("0123456789");
    let digits = "0123456789"@;
    assert forall|x: char| is_digit(x) <==> digits.contains(x) by {
        if is_digit(x) {
            assert(digits[x as int - 48] == x);
        }
    }
    assert(seq!['+'].skip(1) =~= Seq::<char>::empty());
    assert forall|i: int| 0 < i < s.len() && !digits.contains(#[trigger] s[i]) implies unsigned_value(
        s,
    ) is None by {
        assert(!is_digit(s[i]));
        assert(s.skip(1)[i - 1] == s[i]);
    }
    if s.len() > 0 && s[0] != '+' && !digits.contains(s[0]) {
        assert(!is_digit(s[0]));
    }
}

/// A numeral is taken up to its bound, and not beyond.
pub proof fn numerals_are_bounded(s: Seq<char>, max: nat)
    ensures
        bounded_value(s, max) matches Some(n) ==> unsigned_value(s) == Some(n) && n <= max,
        unsigned_value(s) matches Some(n) ==> (bounded_value(s, max) is Some <==> n <= max),
{
}

// ---------------------------------------------------------------------------
// Settings
// ---------------------------------------------------------------------------

/// A default counts only where there is no text.
pub proof fn defaults_stand_in_for_nothing(text: Seq<char>, default: Seq<char>)
    ensures
        text_or(Some(text), default) == text,
        text_or(None, default) == default,
{
}

/// Links to the proxy begin with its address and its port.
pub proof fn links_begin_with_the_address(config: ProxyConfig)
    ensures
        config.origin() == "http://"@ + config.local_ip@ + ":"@ + decimal(config.bind_port as nat),
{
}

/// The port to listen on stands behind the first colon of the address, up to the next one if there
/// is one. Without colon, or where no port stands there, it is 8080.
pub proof fn port_stands_behind_the_first_colon(
    host: Seq<char>,
    port: Seq<char>,
    more: Seq<char>,
)
    requires
        !host.contains(':'),
        !port.contains(':'),
    ensures
        port_of(host) == 8080,
        port_of(host + ":"@ + port) == port_of(host + ":"@ + port + ":"@ + more),
        match unsigned_value(port) {
            Some(n) => port_of(host + ":"@ + port) == (if n <= 65535 {
                n
            } else {
                8080
            }),
            None => port_of(host + ":"@ + port) == 8080,
        },
{
    reveal_strlit(":");
    pieces_stand_between_separators(host, ':', port);
    pieces_stand_between_separators(port, ':', more);
    pieces_stand_between_separators(host, ':', port.push(':') + more);
    assert(host + ":"@ + port =~= host.push(':') + port);
    assert(host + ":"@ + port + ":"@ + more =~= host.push(':') + (port.push(':') + more));
    let short = fields(host + ":"@ + port, ':');
    let long = fields(host + ":"@ + port + ":"@ + more, ':');
    assert(short[1] == port);
    assert(long[1] == port);
}

/// There are as many workers as the setting says, or as there are processors if it is missing or no
/// number.
pub proof fn workers_are_as_set(text: Seq<char>, cpus: usize)
    ensures
        workers_of(None, cpus) == cpus,
        match unsigned_value(text) {
            Some(n) => workers_of(Some(text), cpus) == (if n <= usize::MAX {
                n
            } else {
                cpus as nat
            }),
            None => workers_of(Some(text), cpus) == cpus,
        },
{
}

// ---------------------------------------------------------------------------
// Parameters
// ---------------------------------------------------------------------------

/// Of one more parameter, it is kept for the upstream server unless it is named `real_ext`, and it
/// asks for the original name just if its value is `jpeg` as well.
pub proof fn parameters_are_told_apart(
    pairs: Seq<(Seq<char>, Seq<char>)>,
    name: Seq<char>,
    value: Seq<char>,
)
    ensures
        !asks_for_jpeg(seq![]),
        upstream_pairs(seq![]) == Seq::<(Seq<char>, Seq<char>)>::empty(),
        asks_for_jpeg(pairs.push((name, value))) <==> asks_for_jpeg(pairs) || (name == "real_ext"@
            && value == "jpeg"@),
        upstream_pairs(pairs.push((name, value))) == (if name == "real_ext"@ {
            upstream_pairs(pairs)
        } else {
            upstream_pairs(pairs).push((name, value))
        }),
{
    let pair = (name, value);
    let asked = ("real_ext"@, "jpeg"@);
    let longer = pairs.push(pair);
    lemma_filter_push(pairs, pair, |pair: (Seq<char>, Seq<char>)| pair.0 != "real_ext"@);
    if asks_for_jpeg(pairs) {
        let i = pairs.index_of(asked);
        assert(longer[i] == asked);
    }
    if asks_for_jpeg(longer) {
        let i = longer.index_of(asked);
        if i < pairs.len() {
            assert(pairs[i] == asked);
        }
    }
    if pair == asked {
        assert(longer[pairs.len() as int] == asked);
    }
}

/// A query string is made of its pairs in form-encoding, with an ampersand between each two.
pub proof fn pairs_stand_between_ampersands(
    pairs: Seq<(Seq<char>, Seq<char>)>,
    name: Seq<char>,
    value: Seq<char>,
)
    ensures
        query_of(seq![]) == Seq::<char>::empty(),
        query_of(seq![(name, value)]) == form_pair(name, value),
        pairs.len() > 0 ==> query_of(pairs.push((name, value))) == query_of(pairs) + "&"@
            + form_pair(name, value),
{
    reveal_strlit("&");
    let pair = (name, value);
    let none = Seq::<(Seq<char>, Seq<char>)>::empty();
    assert(seq![pair].drop_last() =~= none);
    assert(query_of(none) == Seq::<char>::empty());
    if pairs.len() > 0 {
        assert(pairs.push(pair).drop_last() =~= pairs);
        lemma_query_is_not_empty(pairs);
        assert("&"@ =~= seq!['&']);
    }
}

proof fn lemma_query_is_not_empty(pairs: Seq<(Seq<char>, Seq<char>)>)
    requires
        pairs.len() > 0,
    ensures
        query_of(pairs).len() > 0,
{
    assert(form_pair(pairs.last().0, pairs.last().1).len() > 0);
}

} // verus!
