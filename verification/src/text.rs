//! Text as a sequence of characters: white space, trimming and splitting.
use vstd::prelude::*;

verus! {

/// Whether a character has the Unicode property `White_Space`.
pub open spec fn is_white_space_spec(c: char) -> bool {
    let n = c as int;
    ||| 0x9 <= n <= 0xd
    ||| n == 0x20
    ||| n == 0x85
    ||| n == 0xa0
    ||| n == 0x1680
    ||| 0x2000 <= n <= 0x200a
    ||| n == 0x2028
    ||| n == 0x2029
    ||| n == 0x202f
    ||| n == 0x205f
    ||| n == 0x3000
}

/// A text without the white space at its two ends.
pub open spec fn trimmed(s: Seq<char>) -> Seq<char>
    decreases s.len(),
{
    if s.len() == 0 {
        s
    } else if is_white_space_spec(s.first()) {
        trimmed(s.drop_first())
    } else if is_white_space_spec(s.last()) {
        trimmed(s.drop_last())
    } else {
        s
    }
}

/// Where `sep` stands first in a text; the text's length where it does not occur.
pub open spec fn position(s: Seq<char>, sep: char) -> int
    decreases s.len(),
{
    if s.len() == 0 || s.first() == sep {
        0
    } else {
        1 + position(s.drop_first(), sep)
    }
}

/// The pieces of a text between the occurrences of `sep`: one more than there are
/// occurrences, and empty where two of them touch or one stands at an end.
pub open spec fn pieces(s: Seq<char>, sep: char) -> Seq<Seq<char>>
    decreases s.len(),
{
    let at = position(s, sep);
    if 0 <= at < s.len() {
        seq![s.take(at)] + pieces(s.skip(at + 1), sep)
    } else {
        seq![s]
    }
}

/// The texts that a sequence of string slices holds.
pub open spec fn texts(v: Seq<&str>) -> Seq<Seq<char>> {
    v.map_values(|s: &str| s@)
}

/// `position` is the first index at which the separator stands.
pub proof fn lemma_position(s: Seq<char>, sep: char, at: int)
    requires
        0 <= at <= s.len(),
        forall|k: int| 0 <= k < at ==> s[k] != sep,
        at == s.len() || s[at] == sep,
    ensures
        position(s, sep) == at,
    decreases s.len(),
{
    if at > 0 {
        let rest = s.drop_first();
        assert forall|k: int| 0 <= k < at - 1 implies rest[k] != sep by {
            assert(rest[k] == s[k + 1]);
        }
        lemma_position(rest, sep, at - 1);
    }
}

/// Whether a character has the Unicode property `White_Space`.
pub fn is_white_space(c: char) -> (r: bool)
    ensures
        r == is_white_space_spec(c),
{
    let n: u32 = c as u32;
    (0x9 <= n && n <= 0xd) || n == 0x20 || n == 0x85 || n == 0xa0 || n == 0x1680 || (0x2000 <= n
        && n <= 0x200a) || n == 0x2028 || n == 0x2029 || n == 0x202f || n == 0x205f || n == 0x3000
}

/// The parts of a text one behind the other, with `sep` between them.
pub open spec fn joined(parts: Seq<Seq<char>>, sep: Seq<char>) -> Seq<char>
    decreases parts.len(),
{
    if parts.len() == 0 {
        Seq::empty()
    } else if parts.len() == 1 {
        parts[0]
    } else {
        parts[0] + sep + joined(parts.drop_first(), sep)
    }
}

/// Splitting loses nothing: the pieces of a text, with the separator between them, are the
/// text, and no piece holds the separator.
pub proof fn law_pieces(s: Seq<char>, sep: char)
    ensures
        joined(pieces(s, sep), seq![sep]) == s,
        pieces(s, sep).len() >= 1,
        forall|i: int|
            0 <= i < pieces(s, sep).len() ==> !(#[trigger] pieces(s, sep)[i]).contains(sep),
    decreases s.len(),
{
    let at = position(s, sep);
    lemma_position_bounds(s, sep);
    if at < s.len() {
        let rest = s.skip(at + 1);
        law_pieces(rest, sep);
        let all = pieces(s, sep);
        assert(all.drop_first() =~= pieces(rest, sep));
        assert(s.take(at) + seq![sep] + rest =~= s);
        assert forall|i: int| 0 <= i < all.len() implies !(#[trigger] all[i]).contains(sep) by {
            if i > 0 {
                assert(all[i] == pieces(rest, sep)[i - 1]);
            }
        }
    } else {
        assert(!s.contains(sep));
    }
}

/// Where `position` lies.
proof fn lemma_position_bounds(s: Seq<char>, sep: char)
    ensures
        0 <= position(s, sep) <= s.len(),
        forall|k: int| 0 <= k < position(s, sep) ==> s[k] != sep,
        position(s, sep) < s.len() ==> s[position(s, sep)] == sep,
    decreases s.len(),
{
    if s.len() > 0 && s.first() != sep {
        let rest = s.drop_first();
        lemma_position_bounds(rest, sep);
        assert forall|k: int| 0 <= k < position(s, sep) implies s[k] != sep by {
            if k > 0 {
                assert(s[k] == rest[k - 1]);
            }
        }
    }
}

/// Splitting undoes joining: parts without the separator, joined by it, are the pieces of
/// what comes out.
pub proof fn law_joined(parts: Seq<Seq<char>>, sep: char)
    requires
        parts.len() >= 1,
        forall|i: int| 0 <= i < parts.len() ==> !(#[trigger] parts[i]).contains(sep),
    ensures
        pieces(joined(parts, seq![sep]), sep) == parts,
    decreases parts.len(),
{
    let first = parts[0];
    assert forall|k: int| 0 <= k < first.len() implies first[k] != sep by {
        assert(first.contains(first[k]));
    }
    if parts.len() == 1 {
        lemma_position(first, sep, first.len() as int);
        assert(parts =~= seq![first]);
    } else {
        let rest = parts.drop_first();
        law_joined(rest, sep);
        let tail = joined(rest, seq![sep]);
        let s = first + seq![sep] + tail;
        lemma_position(s, sep, first.len() as int);
        assert(s.take(first.len() as int) =~= first);
        assert(s.skip(first.len() as int + 1) =~= tail);
        assert(seq![first] + rest =~= parts);
    }
}

/// A text without the separator is one piece, the text itself.
pub proof fn law_one_piece(s: Seq<char>, sep: char)
    requires
        !s.contains(sep),
    ensures
        pieces(s, sep) == seq![s],
{
    assert forall|k: int| 0 <= k < s.len() implies s[k] != sep by {
        assert(s.contains(s[k]));
    }
    lemma_position(s, sep, s.len() as int);
}

/// Splitting goes part by part: the pieces of two texts with the separator between them are
/// those of the one and then those of the other.
pub proof fn law_pieces_concat(a: Seq<char>, b: Seq<char>, sep: char)
    ensures
        pieces(a + seq![sep] + b, sep) == pieces(a, sep) + pieces(b, sep),
    decreases a.len(),
{
    let s = a + seq![sep] + b;
    let at = position(a, sep);
    lemma_position_bounds(a, sep);
    lemma_position(s, sep, at);
    assert(s.take(at) =~= a.take(at));
    if at < a.len() {
        let rest = a.skip(at + 1);
        law_pieces_concat(rest, b, sep);
        assert(s.skip(at + 1) =~= rest + seq![sep] + b);
        assert(pieces(s, sep) =~= pieces(a, sep) + pieces(b, sep));
    } else {
        assert(a.take(at) =~= a);
        assert(s.skip(at + 1) =~= b);
    }
}

/// Whether all that stands before one index and from another on is white space.
pub open spec fn white_outside(s: Seq<char>, from: int, to: int) -> bool {
    &&& 0 <= from <= to <= s.len()
    &&& forall|k: int| 0 <= k < from ==> is_white_space_spec(#[trigger] s[k])
    &&& forall|k: int| to <= k < s.len() ==> is_white_space_spec(#[trigger] s[k])
}

proof fn lemma_white_front(s: Seq<char>, from: int, to: int)
    requires
        s.len() > 0,
        is_white_space_spec(s.first()),
        white_outside(s.drop_first(), from, to),
    ensures
        white_outside(s, from + 1, to + 1),
        s.subrange(from + 1, to + 1) == s.drop_first().subrange(from, to),
{
    let rest = s.drop_first();
    assert(forall|k: int| 1 <= k < s.len() ==> #[trigger] s[k] == rest[k - 1]);
    assert(s.subrange(from + 1, to + 1) =~= rest.subrange(from, to));
}

proof fn lemma_white_back(s: Seq<char>, from: int, to: int)
    requires
        s.len() > 0,
        is_white_space_spec(s.last()),
        white_outside(s.drop_last(), from, to),
    ensures
        white_outside(s, from, to),
        s.subrange(from, to) == s.drop_last().subrange(from, to),
{
    let rest = s.drop_last();
    assert(forall|k: int| 0 <= k < s.len() - 1 ==> #[trigger] s[k] == rest[k]);
    assert(s.subrange(from, to) =~= rest.subrange(from, to));
}

/// Trimming takes white space from the two ends and nothing else, and leaves none there.
pub proof fn law_trimmed(s: Seq<char>)
    ensures
        trimmed(s).len() > 0 ==> !is_white_space_spec(trimmed(s).first()) && !is_white_space_spec(
            trimmed(s).last(),
        ),
        exists|from: int, to: int| #[trigger]
            white_outside(s, from, to) && trimmed(s) == s.subrange(from, to),
    decreases s.len(),
{
    if s.len() == 0 {
        assert(white_outside(s, 0, 0));
        assert(s.subrange(0, 0) =~= s);
    } else if is_white_space_spec(s.first()) {
        let rest = s.drop_first();
        law_trimmed(rest);
        let (from, to) = choose|from: int, to: int| #[trigger]
            white_outside(rest, from, to) && trimmed(rest) == rest.subrange(from, to);
        lemma_white_front(s, from, to);
    } else if is_white_space_spec(s.last()) {
        let rest = s.drop_last();
        law_trimmed(rest);
        let (from, to) = choose|from: int, to: int| #[trigger]
            white_outside(rest, from, to) && trimmed(rest) == rest.subrange(from, to);
        lemma_white_back(s, from, to);
    } else {
        assert(white_outside(s, 0, s.len() as int));
        assert(s.subrange(0, s.len() as int) =~= s);
    }
}

/// White space around a text is taken away, and the text itself stays as it is.
pub proof fn law_trim_around(before: Seq<char>, s: Seq<char>, after: Seq<char>)
    requires
        forall|k: int| 0 <= k < before.len() ==> is_white_space_spec(#[trigger] before[k]),
        forall|k: int| 0 <= k < after.len() ==> is_white_space_spec(#[trigger] after[k]),
        s.len() > 0 ==> !is_white_space_spec(s[0]) && !is_white_space_spec(s[s.len() - 1]),
    ensures
        trimmed(before + s + after) == s,
{
    let all = before + s + after;
    let from = before.len() as int;
    if s.len() == 0 {
        assert forall|k: int| 0 <= k < all.len() implies is_white_space_spec(all[k]) by {
            if k < from {
                assert(all[k] == before[k]);
            } else {
                assert(all[k] == after[k - from]);
            }
        }
        lemma_trim_front(all, all.len() as int);
        assert(all.skip(all.len() as int) =~= s);
    } else {
        assert forall|k: int| 0 <= k < from implies is_white_space_spec(all[k]) by {
            assert(all[k] == before[k]);
        }
        lemma_trim_front(all, from);
        let rest = all.skip(from);
        assert(rest =~= s + after);
        assert forall|k: int| s.len() <= k < rest.len() implies is_white_space_spec(rest[k]) by {
            assert(rest[k] == after[k - s.len()]);
        }
        lemma_trim_back(rest, s.len() as int);
        assert(rest.take(s.len() as int) =~= s);
    }
}

/// The texts of string slices are their characters, one text for each.
pub proof fn law_texts(v: Seq<&str>)
    ensures
        texts(v).len() == v.len(),
        forall|i: int| 0 <= i < v.len() ==> #[trigger] texts(v)[i] == v[i]@,
{
}

/// `str`'s `==` from the standard library: two string slices are equal exactly where they
/// hold the same characters.
pub assume_specification[ <str as PartialEq>::eq ](a: &str, b: &str) -> (r: bool)
    ensures
        r == (a@ == b@),
;

/// Whether two texts are the same.
pub fn same(a: &str, b: &str) -> (r: bool)
    ensures
        r == (a@ == b@),
{
    *a == *b
}

/// The characters of a text.
fn characters(s: &str) -> (chars: Vec<char>)
    ensures
        chars@ == s@,
{
    let mut chars: Vec<char> = Vec::new();
    for c in it: s.chars()
        invariant
            it.seq() == s@,
            chars@ == s@.take(it.index() as int),
    {
        chars.push(c);
        assert(s@.take(it.index() as int).push(c) =~= s@.take(it.index() + 1));
    }
    assert(s@.take(s@.len() as int) =~= s@);
    chars
}

/// White space in front of a text does not count.
pub proof fn lemma_trim_front(s: Seq<char>, from: int)
    requires
        0 <= from <= s.len(),
        forall|k: int| 0 <= k < from ==> is_white_space_spec(s[k]),
    ensures
        trimmed(s) == trimmed(s.skip(from)),
    decreases from,
{
    if from == 0 {
        assert(s.skip(0) =~= s);
    } else {
        let rest = s.drop_first();
        assert forall|k: int| 0 <= k < from - 1 implies is_white_space_spec(rest[k]) by {
            assert(rest[k] == s[k + 1]);
        }
        lemma_trim_front(rest, from - 1);
        assert(rest.skip(from - 1) =~= s.skip(from));
    }
}

/// White space behind a text does not count.
pub proof fn lemma_trim_back(s: Seq<char>, to: int)
    requires
        0 <= to <= s.len(),
        s.len() > 0 ==> !is_white_space_spec(s.first()),
        forall|k: int| to <= k < s.len() ==> is_white_space_spec(s[k]),
    ensures
        trimmed(s) == trimmed(s.take(to)),
    decreases s.len(),
{
    if to == s.len() {
        assert(s.take(to) =~= s);
    } else {
        let rest = s.drop_last();
        lemma_trim_back(rest, to);
        assert(rest.take(to) =~= s.take(to));
    }
}

/// The text without the white space at its two ends.
pub fn trim(s: &str) -> (r: &str)
    ensures
        r@ == trimmed(s@),
{
    let chars = characters(s);
    let mut from: usize = 0;
    while from < chars.len() && is_white_space(chars[from])
        invariant
            from <= chars.len(),
            forall|k: int| 0 <= k < from ==> is_white_space_spec(chars@[k]),
        decreases chars.len() - from,
    {
        from = from + 1;
    }
    let mut to: usize = chars.len();
    while to > from && is_white_space(chars[to - 1])
        invariant
            from <= to <= chars.len(),
            forall|k: int| to <= k < chars@.len() ==> is_white_space_spec(chars@[k]),
        decreases to,
    {
        to = to - 1;
    }
    proof {
        lemma_trim_front(s@, from as int);
        let rest = s@.skip(from as int);
        lemma_trim_back(rest, to - from);
        assert(rest.take(to - from) =~= s@.subrange(from as int, to as int));
    }
    s.substring_char(from, to)
}

/// The pieces of the text between the occurrences of `sep`.
pub fn split<'a>(s: &'a str, sep: char) -> (r: Vec<&'a str>)
    ensures
        texts(r@) == pieces(s@, sep),
{
    let chars = characters(s);
    let mut parts: Vec<&'a str> = Vec::new();
    let mut start: usize = 0;
    let mut i: usize = 0;
    assert(texts(parts@) + pieces(s@.skip(0), sep) =~= pieces(s@, sep)) by {
        assert(s@.skip(0) =~= s@);
    }
    while i < chars.len()
        invariant
            chars@ == s@,
            start <= i <= chars.len(),
            texts(parts@) + pieces(s@.skip(start as int), sep) == pieces(s@, sep),
            forall|k: int| start <= k < i ==> s@[k] != sep,
        decreases chars.len() - i,
    {
        if chars[i] == sep {
            let part = s.substring_char(start, i);
            proof {
                let rest = s@.skip(start as int);
                let at = i - start;
                lemma_position(rest, sep, at);
                assert(rest.take(at) =~= part@);
                assert(rest.skip(at + 1) =~= s@.skip(i + 1));
                assert(texts(parts@.push(part)) =~= texts(parts@).push(part@));
                assert(texts(parts@).push(part@) + pieces(s@.skip(i + 1), sep) =~= texts(parts@)
                    + (seq![part@] + pieces(s@.skip(i + 1), sep)));
            }
            parts.push(part);
            start = i + 1;
        }
        i = i + 1;
    }
    let last = s.substring_char(start, i);
    proof {
        let rest = s@.skip(start as int);
        lemma_position(rest, sep, rest.len() as int);
        assert(last@ =~= rest);
        assert(texts(parts@.push(last)) =~= texts(parts@) + seq![rest]);
    }
    parts.push(last);
    parts
}

} // verus!
