//! The text operations that credential references are taken apart with.
//!
//! A string is modelled as the sequence of its characters. Each operation has
//! a spec function that says what its result is, and an executable function
//! that is proved to return it.
use vstd::prelude::*;

verus! {

// ---------------------------------------------------------------------------
// Models
// ---------------------------------------------------------------------------

/// Index of the first occurrence of `c` in `s`; the length of `s` if there is none.
pub open spec fn position(s: Seq<char>, c: char) -> nat
    decreases s.len(),
{
    if s.len() == 0 || s[0] == c {
        0
    } else {
        1 + position(s.drop_first(), c)
    }
}

/// Index of the last occurrence of `c` in `s`.
pub open spec fn last_position(s: Seq<char>, c: char) -> Option<nat>
    decreases s.len(),
{
    if s.len() == 0 {
        None
    } else if s.last() == c {
        Some((s.len() - 1) as nat)
    } else {
        last_position(s.drop_last(), c)
    }
}

/// The pieces of `s` between the occurrences of `sep`, in order.
///
/// There is always one piece more than there are separators, so the split of
/// the empty text is one empty piece.
pub open spec fn split(s: Seq<char>, sep: char) -> Seq<Seq<char>>
    decreases s.len(),
{
    let at = position(s, sep) as int;
    if at < s.len() {
        seq![s.take(at)] + split(s.skip(at + 1), sep)
    } else {
        seq![s]
    }
}

/// The pieces put back together, with `sep` between each two neighbours.
pub open spec fn join(pieces: Seq<Seq<char>>, sep: char) -> Seq<char>
    decreases pieces.len(),
{
    if pieces.len() == 0 {
        Seq::empty()
    } else if pieces.len() == 1 {
        pieces[0]
    } else {
        pieces[0] + seq![sep] + join(pieces.drop_first(), sep)
    }
}

/// `needle` occurs in `s` as a contiguous run of characters.
pub open spec fn contains_text(s: Seq<char>, needle: Seq<char>) -> bool {
    exists|at: int| occurs_at(s, needle, at)
}

/// `needle` stands in `s` at index `at`.
pub open spec fn occurs_at(s: Seq<char>, needle: Seq<char>, at: int) -> bool {
    &&& 0 <= at
    &&& at + needle.len() <= s.len()
    &&& s.subrange(at, at + needle.len()) == needle
}

/// The characters with the Unicode property `White_Space`.
pub open spec fn is_white_space(c: char) -> bool {
    ||| '\u{9}' <= c <= '\u{d}'
    ||| c == '\u{20}'
    ||| c == '\u{85}'
    ||| c == '\u{a0}'
    ||| c == '\u{1680}'
    ||| '\u{2000}' <= c <= '\u{200a}'
    ||| c == '\u{2028}'
    ||| c == '\u{2029}'
    ||| c == '\u{202f}'
    ||| c == '\u{205f}'
    ||| c == '\u{3000}'
}

/// `s` without its leading white space.
pub open spec fn trim_start(s: Seq<char>) -> Seq<char>
    decreases s.len(),
{
    if s.len() > 0 && is_white_space(s[0]) {
        trim_start(s.drop_first())
    } else {
        s
    }
}

/// `s` without its trailing white space.
pub open spec fn trim_end(s: Seq<char>) -> Seq<char>
    decreases s.len(),
{
    if s.len() > 0 && is_white_space(s.last()) {
        trim_end(s.drop_last())
    } else {
        s
    }
}

/// `s` without the white space at both of its ends.
pub open spec fn trim(s: Seq<char>) -> Seq<char> {
    trim_end(trim_start(s))
}

/// A line feed or a carriage return.
pub open spec fn is_line_break(c: char) -> bool {
    c == '\n' || c == '\r'
}

/// `s` without the line feeds and carriage returns that it ends in.
pub open spec fn trim_line_breaks(s: Seq<char>) -> Seq<char>
    decreases s.len(),
{
    if s.len() > 0 && is_line_break(s.last()) {
        trim_line_breaks(s.drop_last())
    } else {
        s
    }
}

/// The decimal digit `d`.
pub open spec fn digit(d: nat) -> char {
    seq!['0', '1', '2', '3', '4', '5', '6', '7', '8', '9'][d as int]
}

/// `n` in decimal, without leading zeros.
pub open spec fn decimal(n: nat) -> Seq<char>
    decreases n,
{
    if n < 10 {
        seq![digit(n)]
    } else {
        decimal(n / 10).push(digit(n % 10))
    }
}

// ---------------------------------------------------------------------------
// Facts about the models
// ---------------------------------------------------------------------------

/// `position` is the first index at which `c` stands.
pub proof fn lemma_position(s: Seq<char>, c: char)
    ensures
        position(s, c) <= s.len(),
        forall|j: int| 0 <= j < position(s, c) ==> s[j] != c,
        position(s, c) < s.len() ==> s[position(s, c) as int] == c,
    decreases s.len(),
{
    if s.len() > 0 && s[0] != c {
        lemma_position(s.drop_first(), c);
        assert forall|j: int| 0 <= j < position(s, c) implies s[j] != c by {
            if j > 0 {
                assert(s[j] == s.drop_first()[j - 1]);
            }
        }
    }
}

/// An index before which `c` does not stand, and at which it stands or `s`
/// ends, is `position`.
pub proof fn lemma_position_is(s: Seq<char>, c: char, at: int)
    requires
        0 <= at <= s.len(),
        forall|j: int| 0 <= j < at ==> s[j] != c,
        at < s.len() ==> s[at] == c,
    ensures
        position(s, c) == at,
{
    lemma_position(s, c);
}

/// `last_position` is the last index at which `c` stands.
pub proof fn lemma_last_position(s: Seq<char>, c: char)
    ensures
        match last_position(s, c) {
            Some(at) => {
                &&& at < s.len()
                &&& s[at as int] == c
                &&& forall|j: int| at < j < s.len() ==> s[j] != c
            },
            None => !s.contains(c),
        },
    decreases s.len(),
{
    if s.len() > 0 && s.last() != c {
        lemma_last_position(s.drop_last(), c);
        assert forall|j: int| 0 <= j < s.len() - 1 implies s[j] == s.drop_last()[j] by {}
        if last_position(s, c) is None {
            assert forall|j: int| 0 <= j < s.len() implies s[j] != c by {
                if j < s.len() - 1 {
                    assert(s.drop_last()[j] == s[j]);
                    assert(s.drop_last().contains(s[j]));
                }
            }
        }
    }
}

/// Splitting at the first separator leaves the split of the rest.
pub proof fn lemma_split_first(s: Seq<char>, sep: char, at: int)
    requires
        0 <= at < s.len(),
        forall|j: int| 0 <= j < at ==> s[j] != sep,
        s[at] == sep,
    ensures
        split(s, sep) == seq![s.take(at)] + split(s.skip(at + 1), sep),
{
    lemma_position_is(s, sep, at);
}

/// Text without a separator is its own only piece.
pub proof fn lemma_split_none(s: Seq<char>, sep: char)
    requires
        !s.contains(sep),
    ensures
        split(s, sep) == seq![s],
{
    lemma_position(s, sep);
}

/// A split has at least one piece, none of the pieces holds the separator, and
/// joining the pieces gives the text back.
pub proof fn law_split_join(s: Seq<char>, sep: char)
    ensures
        split(s, sep).len() >= 1,
        forall|i: int| 0 <= i < split(s, sep).len() ==> !(#[trigger] split(s, sep)[i]).contains(sep),
        join(split(s, sep), sep) == s,
    decreases s.len(),
{
    lemma_position(s, sep);
    let at = position(s, sep) as int;
    if at < s.len() {
        let head = s.take(at);
        let rest = s.skip(at + 1);
        law_split_join(rest, sep);
        assert(!head.contains(sep));
        assert(split(s, sep).drop_first() == split(rest, sep));
        assert forall|i: int| 0 <= i < split(s, sep).len() implies !(
        #[trigger] split(s, sep)[i]).contains(sep) by {
            if i > 0 {
                assert(split(s, sep)[i] == split(rest, sep)[i - 1]);
            }
        }
        assert(s == head + seq![sep] + rest);
    }
}

/// Splitting two texts that are put together with a separator between them is
/// splitting each.
pub proof fn law_split_concatenation(a: Seq<char>, sep: char, b: Seq<char>)
    ensures
        split(a + seq![sep] + b, sep) == split(a, sep) + split(b, sep),
    decreases a.len(),
{
    let whole = a + seq![sep] + b;
    lemma_position(a, sep);
    let at = position(a, sep) as int;
    if at < a.len() {
        let rest = a.skip(at + 1);
        law_split_concatenation(rest, sep, b);
        lemma_split_first(whole, sep, at);
        assert(whole.take(at) == a.take(at));
        assert(whole.skip(at + 1) == rest + seq![sep] + b);
        assert(split(whole, sep) == split(a, sep) + split(b, sep));
    } else {
        lemma_split_first(whole, sep, a.len() as int);
        assert(whole.take(a.len() as int) == a);
        assert(whole.skip(a.len() as int + 1) == b);
    }
}

/// One piece joins to itself, and a piece before others stands before the
/// separator and what the others join to.
pub proof fn law_join(first: Seq<char>, others: Seq<Seq<char>>, sep: char)
    requires
        others.len() >= 1,
    ensures
        join(seq![first], sep) == first,
        join(seq![first] + others, sep) == first + seq![sep] + join(others, sep),
{
    assert((seq![first] + others).drop_first() == others);
}

/// Pieces that do not hold the separator come back from splitting what they
/// join to.
pub proof fn law_join_split(pieces: Seq<Seq<char>>, sep: char)
    requires
        pieces.len() >= 1,
        forall|i: int| 0 <= i < pieces.len() ==> !(#[trigger] pieces[i]).contains(sep),
    ensures
        split(join(pieces, sep), sep) == pieces,
    decreases pieces.len(),
{
    if pieces.len() == 1 {
        lemma_split_none(pieces[0], sep);
        assert(seq![pieces[0]] == pieces);
    } else {
        let rest = pieces.drop_first();
        law_join_split(rest, sep);
        law_split_concatenation(pieces[0], sep, join(rest, sep));
        lemma_split_none(pieces[0], sep);
        assert(seq![pieces[0]] + rest == pieces);
    }
}

/// Text that neither starts nor ends with white space is left alone by `trim`.
pub proof fn lemma_trim_nothing(s: Seq<char>)
    requires
        s.len() > 0 ==> !is_white_space(s[0]) && !is_white_space(s.last()),
    ensures
        trim(s) == s,
{
}

/// Line breaks that are put behind text are taken off again, down to what the
/// text itself ends in.
pub proof fn law_trim_line_breaks(s: Seq<char>, breaks: Seq<char>)
    requires
        forall|i: int| 0 <= i < breaks.len() ==> is_line_break(#[trigger] breaks[i]),
    ensures
        trim_line_breaks(s + breaks) == trim_line_breaks(s),
    decreases breaks.len(),
{
    if breaks.len() == 0 {
        assert(s + breaks == s);
    } else {
        law_trim_line_breaks(s, breaks.drop_last());
        assert((s + breaks).last() == breaks[breaks.len() - 1]);
        assert((s + breaks).drop_last() == s + breaks.drop_last());
    }
}

/// What is left after the line breaks at the end are taken off does not end in
/// one, and nothing but line breaks was taken off.
pub proof fn law_trim_line_breaks_exact(s: Seq<char>)
    ensures
        trim_line_breaks(s).len() > 0 ==> !is_line_break(trim_line_breaks(s).last()),
        trim_line_breaks(s).is_prefix_of(s),
        forall|i: int|
            trim_line_breaks(s).len() <= i < s.len() ==> is_line_break(#[trigger] s[i]),
    decreases s.len(),
{
    if s.len() > 0 && is_line_break(s.last()) {
        law_trim_line_breaks_exact(s.drop_last());
        let kept = trim_line_breaks(s);
        assert(s.subrange(0, kept.len() as int) == s.drop_last().subrange(0, kept.len() as int));
        assert forall|i: int| kept.len() <= i < s.len() implies is_line_break(#[trigger] s[i]) by {
            if i < s.len() - 1 {
                assert(s[i] == s.drop_last()[i]);
            }
        }
    } else {
        assert(s.subrange(0, s.len() as int) == s);
    }
}

// ---------------------------------------------------------------------------
// Laws
// ---------------------------------------------------------------------------

/// White space is the tab, the line and page breaks, the blank, and the spaces
/// and separators that Unicode counts among it, by their code points.
pub proof fn law_white_space(c: char)
    ensures
        is_white_space(c) <==> {
            ||| 0x9 <= c as u32 <= 0xd
            ||| c as u32 == 0x20
            ||| c as u32 == 0x85
            ||| c as u32 == 0xa0
            ||| c as u32 == 0x1680
            ||| 0x2000 <= c as u32 <= 0x200a
            ||| c as u32 == 0x2028
            ||| c as u32 == 0x2029
            ||| c as u32 == 0x202f
            ||| c as u32 == 0x205f
            ||| c as u32 == 0x3000
        },
{
}

/// A line break is a line feed or a carriage return, by their code points.
pub proof fn law_line_break(c: char)
    ensures
        is_line_break(c) <==> c as u32 == 0xa || c as u32 == 0xd,
{
}

/// White space that is put round text is taken off again: all of it, on both
/// sides, and nothing else.
pub proof fn law_trim(before: Seq<char>, inner: Seq<char>, after: Seq<char>)
    requires
        forall|i: int| 0 <= i < before.len() ==> is_white_space(#[trigger] before[i]),
        forall|i: int| 0 <= i < after.len() ==> is_white_space(#[trigger] after[i]),
        inner.len() > 0 ==> !is_white_space(inner[0]) && !is_white_space(inner.last()),
    ensures
        trim(before + inner + after) == inner,
{
    if inner.len() == 0 {
        let all = before + inner + after;
        assert forall|i: int| 0 <= i < all.len() implies is_white_space(#[trigger] all[i]) by {
            if i < before.len() {
                assert(all[i] == before[i]);
            } else {
                assert(all[i] == after[i - before.len()]);
            }
        }
        lemma_trim_start_off(all, inner);
        assert(all + inner == all);
    } else {
        lemma_trim_start_off(before, inner + after);
        assert(before + (inner + after) == before + inner + after);
        lemma_trim_end_off(inner, after);
    }
}

/// Leading white space is taken off down to text that does not start with any.
proof fn lemma_trim_start_off(before: Seq<char>, rest: Seq<char>)
    requires
        forall|i: int| 0 <= i < before.len() ==> is_white_space(#[trigger] before[i]),
        rest.len() > 0 ==> !is_white_space(rest[0]),
    ensures
        trim_start(before + rest) == rest,
    decreases before.len(),
{
    if before.len() == 0 {
        assert(before + rest == rest);
    } else {
        lemma_trim_start_off(before.drop_first(), rest);
        assert((before + rest).drop_first() == before.drop_first() + rest);
        assert(is_white_space(before[0]));
    }
}

/// Trailing white space is taken off down to text that does not end in any.
proof fn lemma_trim_end_off(rest: Seq<char>, after: Seq<char>)
    requires
        forall|i: int| 0 <= i < after.len() ==> is_white_space(#[trigger] after[i]),
        rest.len() > 0 ==> !is_white_space(rest.last()),
    ensures
        trim_end(rest + after) == rest,
    decreases after.len(),
{
    if after.len() == 0 {
        assert(rest + after == rest);
    } else {
        lemma_trim_end_off(rest, after.drop_last());
        assert((rest + after).drop_last() == rest + after.drop_last());
        assert((rest + after).last() == after[after.len() - 1]);
    }
}

/// Every text is white space, then its trimmed form, then white space; and the
/// trimmed form neither starts nor ends with white space.
pub proof fn law_trim_parts(s: Seq<char>)
    ensures
        exists|before: Seq<char>, after: Seq<char>|
            {
                &&& s == #[trigger] (before + trim(s) + after)
                &&& forall|i: int| 0 <= i < before.len() ==> is_white_space(#[trigger] before[i])
                &&& forall|i: int| 0 <= i < after.len() ==> is_white_space(#[trigger] after[i])
            },
        trim(s).len() > 0 ==> !is_white_space(trim(s)[0]) && !is_white_space(trim(s).last()),
{
    let before = lemma_trim_start_parts(s);
    let rest = trim_start(s);
    let after = lemma_trim_end_parts(rest);
    assert(s == before + trim(s) + after);
    if trim(s).len() > 0 {
        assert(rest[0] == trim(s)[0]);
    }
}

proof fn lemma_trim_start_parts(s: Seq<char>) -> (before: Seq<char>)
    ensures
        s == before + trim_start(s),
        forall|i: int| 0 <= i < before.len() ==> is_white_space(#[trigger] before[i]),
        trim_start(s).len() > 0 ==> !is_white_space(trim_start(s)[0]),
    decreases s.len(),
{
    if s.len() > 0 && is_white_space(s[0]) {
        let rest = lemma_trim_start_parts(s.drop_first());
        let before = seq![s[0]] + rest;
        assert(s == before + trim_start(s)) by {
            assert(s == seq![s[0]] + s.drop_first());
        }
        before
    } else {
        assert(s == Seq::<char>::empty() + s);
        Seq::empty()
    }
}

proof fn lemma_trim_end_parts(s: Seq<char>) -> (after: Seq<char>)
    ensures
        s == trim_end(s) + after,
        forall|i: int| 0 <= i < after.len() ==> is_white_space(#[trigger] after[i]),
        trim_end(s).len() > 0 ==> !is_white_space(trim_end(s).last()),
    decreases s.len(),
{
    if s.len() > 0 && is_white_space(s.last()) {
        let rest = lemma_trim_end_parts(s.drop_last());
        let after = rest.push(s.last());
        assert(s == trim_end(s) + after) by {
            assert(s == s.drop_last().push(s.last()));
        }
        after
    } else {
        assert(s == s + Seq::<char>::empty());
        Seq::empty()
    }
}

/// Text occurs in whatever it is put into.
pub proof fn law_contains_what_was_put_in(a: Seq<char>, needle: Seq<char>, b: Seq<char>)
    ensures
        contains_text(a + needle + b, needle),
{
    let s = a + needle + b;
    assert(s.subrange(a.len() as int, a.len() as int + needle.len()) == needle);
    assert(occurs_at(s, needle, a.len() as int));
}

/// Text that occurs in other text leaves a part before and a part after it.
pub proof fn law_contains_only_what_is_there(s: Seq<char>, needle: Seq<char>)
    requires
        contains_text(s, needle),
    ensures
        exists|a: Seq<char>, b: Seq<char>| s == #[trigger] (a + needle + b),
{
    let at = choose|at: int| occurs_at(s, needle, at);
    let a = s.take(at);
    let b = s.skip(at + needle.len());
    assert(s == a + needle + b);
}

/// The last occurrence of a character is the one behind which it does not
/// stand any more.
pub proof fn law_last_position(a: Seq<char>, c: char, b: Seq<char>)
    requires
        !b.contains(c),
    ensures
        last_position(a + seq![c] + b, c) == Some(a.len()),
{
    let s = a + seq![c] + b;
    lemma_last_position(s, c);
    assert(s[a.len() as int] == c);
    assert(s.contains(c));
    let at = last_position(s, c)->Some_0 as int;
    if at > a.len() {
        assert(b[at - a.len() - 1] == c);
    }
}

/// Decimal notation: below ten one digit, from there on the notation of the
/// tens with the digit of the ones behind it.
pub proof fn law_decimal(tens: nat, ones: nat)
    requires
        ones < 10,
    ensures
        decimal(ones) == seq![('0' as u32 + ones) as char],
        tens > 0 ==> decimal(10 * tens + ones) == decimal(tens) + seq![
            ('0' as u32 + ones) as char,
        ],
{
    assert(digit(ones) == ('0' as u32 + ones) as char);
    if tens > 0 {
        assert((10 * tens + ones) / 10 == tens);
        assert((10 * tens + ones) % 10 == ones);
        assert(decimal(tens).push(digit(ones)) == decimal(tens) + seq![digit(ones)]);
    }
}

// ---------------------------------------------------------------------------
// Operations
// ---------------------------------------------------------------------------

/// The characters of `s`.
pub fn chars_of(s: &str) -> (chars: Vec<char>)
    ensures
        chars@ == s@,
{
    let mut chars: Vec<char> = Vec::new();
    for c in it: s.chars()
        invariant
            it.seq() == s@,
            chars@ == it.seq().take(it.index() as int),
    {
        chars.push(c);
    }
    chars
}

/// Whether `a` and `b` are the same text.
pub fn same(a: &str, b: &str) -> (yes: bool)
    ensures
        yes == (a@ == b@),
{
    let left = chars_of(a);
    let right = chars_of(b);
    if left.len() != right.len() {
        return false;
    }
    for i in 0..left.len()
        invariant
            left@ == a@,
            right@ == b@,
            left.len() == right.len(),
            forall|j: int| 0 <= j < i ==> left[j] == right[j],
    {
        if left[i] != right[i] {
            assert(a@[i as int] != b@[i as int]);
            return false;
        }
    }
    assert(a@ == b@);
    true
}

/// Whether `s` starts with `prefix`.
pub fn starts_with(s: &str, prefix: &str) -> (found: bool)
    ensures
        found == prefix@.is_prefix_of(s@),
{
    let chars = chars_of(s);
    let wanted = chars_of(prefix);
    if wanted.len() > chars.len() {
        return false;
    }
    for i in 0..wanted.len()
        invariant
            chars@ == s@,
            wanted@ == prefix@,
            wanted.len() <= chars.len(),
            forall|j: int| 0 <= j < i ==> chars[j] == wanted[j],
    {
        if chars[i] != wanted[i] {
            assert(s@.subrange(0, prefix@.len() as int)[i as int] == s@[i as int]);
            return false;
        }
    }
    assert(s@.subrange(0, prefix@.len() as int) == prefix@);
    true
}

/// What follows `prefix` in `s`, if `s` starts with it.
pub fn strip_prefix<'a>(s: &'a str, prefix: &str) -> (rest: Option<&'a str>)
    ensures
        match rest {
            Some(rest) => prefix@.is_prefix_of(s@) && rest@ == s@.skip(prefix@.len() as int),
            None => !prefix@.is_prefix_of(s@),
        },
{
    if starts_with(s, prefix) {
        Some(s.substring_char(prefix.unicode_len(), s.unicode_len()))
    } else {
        None
    }
}

/// Whether `c` occurs in `s`.
pub fn contains_char(s: &str, c: char) -> (found: bool)
    ensures
        found == s@.contains(c),
{
    let chars = chars_of(s);
    for i in 0..chars.len()
        invariant
            chars@ == s@,
            forall|j: int| 0 <= j < i ==> chars[j] != c,
    {
        if chars[i] == c {
            assert(s@[i as int] == c);
            return true;
        }
    }
    false
}

/// Whether `needle` stands in `chars` at index `at`.
fn matches_at(chars: &Vec<char>, needle: &Vec<char>, at: usize) -> (found: bool)
    requires
        at + needle.len() <= chars.len(),
    ensures
        found == occurs_at(chars@, needle@, at as int),
{
    for i in 0..needle.len()
        invariant
            at + needle.len() <= chars.len(),
            forall|j: int| 0 <= j < i ==> chars[at + j] == needle[j],
    {
        if chars[at + i] != needle[i] {
            assert(chars@.subrange(at as int, at + needle.len())[i as int] == chars@[at + i]);
            return false;
        }
    }
    assert(chars@.subrange(at as int, at + needle.len()) == needle@);
    true
}

/// Whether `needle` occurs in `s`.
pub fn contains(s: &str, needle: &str) -> (found: bool)
    ensures
        found == contains_text(s@, needle@),
{
    let chars = chars_of(s);
    let wanted = chars_of(needle);
    if wanted.len() > chars.len() {
        return false;
    }
    let last: usize = chars.len() - wanted.len();
    let mut at: usize = 0;
    loop
        invariant
            chars@ == s@,
            wanted@ == needle@,
            last + wanted.len() == chars.len(),
            at <= last,
            forall|j: int| 0 <= j < at ==> !occurs_at(s@, needle@, j),
        decreases last - at,
    {
        if matches_at(&chars, &wanted, at) {
            return true;
        }
        if at == last {
            assert forall|j: int| !occurs_at(s@, needle@, j) by {
                if 0 <= j && j + needle@.len() <= s@.len() {
                    assert(j <= at);
                }
            }
            return false;
        }
        at = at + 1;
    }
}

/// Index, in characters, of the last occurrence of `c` in `s`.
pub fn rfind(s: &str, c: char) -> (at: Option<usize>)
    ensures
        match at {
            Some(at) => last_position(s@, c) == Some(at as nat),
            None => last_position(s@, c) is None,
        },
{
    let chars = chars_of(s);
    let mut end: usize = chars.len();
    assert(s@.take(end as int) == s@);
    while end > 0
        invariant
            chars@ == s@,
            end <= chars.len(),
            last_position(s@, c) == last_position(s@.take(end as int), c),
        decreases end,
    {
        assert(s@.take(end as int).drop_last() == s@.take(end - 1));
        if chars[end - 1] == c {
            return Some(end - 1);
        }
        end = end - 1;
    }
    None
}

/// The pieces of `s` between the occurrences of `sep`.
pub fn split_at_each<'a>(s: &'a str, sep: char) -> (pieces: Vec<&'a str>)
    ensures
        pieces@.map_values(|piece: &str| piece@) == split(s@, sep),
{
    let chars = chars_of(s);
    let mut pieces: Vec<&'a str> = Vec::new();
    let mut start: usize = 0;
    let mut i: usize = 0;
    let ghost views = |piece: &str| piece@;
    assert(s@.skip(0) == s@);
    assert(pieces@.map_values(views) + split(s@, sep) == split(s@, sep));
    while i < chars.len()
        invariant
            chars@ == s@,
            start <= i <= chars.len(),
            views == (|piece: &str| piece@),
            forall|j: int| start <= j < i ==> s@[j] != sep,
            pieces@.map_values(views) + split(s@.skip(start as int), sep) == split(s@, sep),
        decreases chars.len() - i,
    {
        if chars[i] == sep {
            let piece = s.substring_char(start, i);
            proof {
                let rest = s@.skip(start as int);
                assert forall|j: int| 0 <= j < i - start implies rest[j] != sep by {
                    assert(rest[j] == s@[start + j]);
                }
                lemma_split_first(rest, sep, i - start);
                assert(rest.take(i - start) == piece@);
                assert(rest.skip(i - start + 1) == s@.skip(i + 1));
                assert(pieces@.push(piece).map_values(views) == pieces@.map_values(views).push(
                    piece@,
                ));
                assert(pieces@.push(piece).map_values(views) + split(s@.skip(i + 1), sep)
                    == pieces@.map_values(views) + (seq![piece@] + split(s@.skip(i + 1), sep)));
            }
            pieces.push(piece);
            start = i + 1;
        }
        i = i + 1;
    }
    let piece = s.substring_char(start, chars.len());
    proof {
        let rest = s@.skip(start as int);
        assert(rest == piece@);
        assert(!rest.contains(sep));
        lemma_split_none(rest, sep);
        assert(pieces@.push(piece).map_values(views) == pieces@.map_values(views) + seq![piece@]);
    }
    pieces.push(piece);
    pieces
}

/// Whether `c` is white space.
pub fn is_whitespace(c: char) -> (yes: bool)
    ensures
        yes == is_white_space(c),
{
    ('\u{9}' <= c && c <= '\u{d}') || c == '\u{20}' || c == '\u{85}' || c == '\u{a0}' || c
        == '\u{1680}' || ('\u{2000}' <= c && c <= '\u{200a}') || c == '\u{2028}' || c == '\u{2029}'
        || c == '\u{202f}' || c == '\u{205f}' || c == '\u{3000}'
}

/// `s` without the white space at its ends.
pub fn trimmed<'a>(s: &'a str) -> (inner: &'a str)
    ensures
        inner@ == trim(s@),
{
    let chars = chars_of(s);
    let mut start: usize = 0;
    assert(s@.skip(0) == s@);
    while start < chars.len() && is_whitespace(chars[start])
        invariant
            chars@ == s@,
            start <= chars.len(),
            trim_start(s@) == trim_start(s@.skip(start as int)),
        decreases chars.len() - start,
    {
        assert(s@.skip(start as int).drop_first() == s@.skip(start + 1));
        start = start + 1;
    }
    assert(trim_start(s@) == s@.skip(start as int));
    let mut end: usize = chars.len();
    assert(s@.subrange(start as int, end as int) == s@.skip(start as int));
    while end > start && is_whitespace(chars[end - 1])
        invariant
            chars@ == s@,
            start <= end <= chars.len(),
            trim(s@) == trim_end(s@.subrange(start as int, end as int)),
        decreases end,
    {
        assert(s@.subrange(start as int, end as int).drop_last() == s@.subrange(
            start as int,
            end - 1,
        ));
        end = end - 1;
    }
    s.substring_char(start, end)
}

/// `s` without the line breaks that it ends in. No copy of the text is made.
pub fn without_line_breaks<'a>(s: &'a str) -> (inner: &'a str)
    ensures
        inner@ == trim_line_breaks(s@),
{
    let mut end: usize = s.unicode_len();
    assert(s@.take(end as int) == s@);
    while end > 0
        invariant
            end <= s@.len(),
            trim_line_breaks(s@) == trim_line_breaks(s@.take(end as int)),
        decreases end,
    {
        let last = s.get_char(end - 1);
        assert(s@.take(end as int).last() == last);
        if last != '\n' && last != '\r' {
            return s.substring_char(0, end);
        }
        assert(s@.take(end as int).drop_last() == s@.take(end - 1));
        end = end - 1;
    }
    s.substring_char(0, end)
}

/// The decimal digit `d` as text.
fn digit_text(d: u128) -> (text: &'static str)
    requires
        d < 10,
    ensures
        text@ == seq![digit(d as nat)],
{
    proof {
        reveal_strlit("0");
        reveal_strlit("1");
        reveal_strlit("2");
        reveal_strlit("3");
        reveal_strlit("4");
        reveal_strlit("5");
        reveal_strlit("6");
        reveal_strlit("7");
        reveal_strlit("8");
        reveal_strlit("9");
    }
    match d {
        0 => "0",
        1 => "1",
        2 => "2",
        3 => "3",
        4 => "4",
        5 => "5",
        6 => "6",
        7 => "7",
        8 => "8",
        _ => "9",
    }
}

/// `n` in decimal.
pub fn decimal_text(n: u128) -> (text: String)
    ensures
        text@ == decimal(n as nat),
    decreases n,
{
    if n < 10 {
        digit_text(n).to_owned()
    } else {
        let mut text = decimal_text(n / 10);
        text.append(digit_text(n % 10));
        text
    }
}

} // verus!
