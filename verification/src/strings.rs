//! Text as sequences of characters: trimming, splitting and comparing.

use vstd::prelude::*;

verus! {

/// Whether `c` has the Unicode property `White_Space`.
pub open spec fn is_whitespace(c: char) -> bool {
    ||| ('\u{9}' <= c && c <= '\u{d}')
    ||| c == ' '
    ||| c == '\u{85}'
    ||| c == '\u{a0}'
    ||| c == '\u{1680}'
    ||| ('\u{2000}' <= c && c <= '\u{200a}')
    ||| c == '\u{2028}'
    ||| c == '\u{2029}'
    ||| c == '\u{202f}'
    ||| c == '\u{205f}'
    ||| c == '\u{3000}'
}

/// `s` without its longest prefix of whitespace.
pub open spec fn without_leading_whitespace(s: Seq<char>) -> Seq<char>
    decreases s.len(),
{
    if s.len() > 0 && is_whitespace(s[0]) {
        without_leading_whitespace(s.drop_first())
    } else {
        s
    }
}

/// `s` without its longest suffix of whitespace.
pub open spec fn without_trailing_whitespace(s: Seq<char>) -> Seq<char>
    decreases s.len(),
{
    if s.len() > 0 && is_whitespace(s.last()) {
        without_trailing_whitespace(s.drop_last())
    } else {
        s
    }
}

/// `s` without whitespace at either end.
pub open spec fn trimmed(s: Seq<char>) -> Seq<char> {
    without_trailing_whitespace(without_leading_whitespace(s))
}

/// `s` without its longest suffix made of the character `c` only.
pub open spec fn without_trailing(s: Seq<char>, c: char) -> Seq<char>
    decreases s.len(),
{
    if s.len() > 0 && s.last() == c {
        without_trailing(s.drop_last(), c)
    } else {
        s
    }
}

/// The pieces of `s` between occurrences of `separator`, in order. There is always at least
/// one piece, and an occurrence at either end gives an empty piece there.
pub open spec fn split_on(s: Seq<char>, separator: char) -> Seq<Seq<char>>
    decreases s.len(),
{
    if s.len() == 0 {
        seq![Seq::<char>::empty()]
    } else {
        let before = split_on(s.drop_last(), separator);
        if s.last() == separator {
            before.push(Seq::<char>::empty())
        } else {
            before.update(before.len() - 1, before.last().push(s.last()))
        }
    }
}

/// A split always yields at least one piece.
pub proof fn lemma_split_on_nonempty(s: Seq<char>, separator: char)
    ensures
        split_on(s, separator).len() >= 1,
    decreases s.len(),
{
    if s.len() > 0 {
        lemma_split_on_nonempty(s.drop_last(), separator);
    }
}

/// A text without the separator is its own single piece.
pub proof fn lemma_split_on_without_separator(s: Seq<char>, separator: char)
    requires
        forall|i: int| 0 <= i < s.len() ==> s[i] != separator,
    ensures
        split_on(s, separator) == seq![s],
    decreases s.len(),
{
    if s.len() > 0 {
        lemma_split_on_without_separator(s.drop_last(), separator);
        assert(s.drop_last().push(s.last()) =~= s);
        assert(seq![s.drop_last()].update(0, s) =~= seq![s]);
    } else {
        assert(s =~= Seq::<char>::empty());
    }
}

/// Splitting two texts joined by the separator gives the pieces of the first, then those of
/// the second.
pub proof fn lemma_split_on_joined(a: Seq<char>, b: Seq<char>, separator: char)
    ensures
        split_on(a + seq![separator] + b, separator) == split_on(a, separator) + split_on(
            b,
            separator,
        ),
    decreases b.len(),
{
    let joined = a + seq![separator] + b;
    if b.len() == 0 {
        assert(joined.drop_last() =~= a);
        assert(split_on(a, separator).push(Seq::<char>::empty()) =~= split_on(a, separator)
            + seq![Seq::<char>::empty()]);
    } else {
        lemma_split_on_joined(a, b.drop_last(), separator);
        lemma_split_on_nonempty(b.drop_last(), separator);
        assert(joined.drop_last() =~= a + seq![separator] + b.drop_last());
        let left = split_on(a, separator);
        let right = split_on(b.drop_last(), separator);
        if b.last() == separator {
            assert((left + right).push(Seq::<char>::empty()) =~= left + right.push(
                Seq::<char>::empty(),
            ));
        } else {
            assert((left + right).update(
                (left + right).len() - 1,
                (left + right).last().push(b.last()),
            ) =~= left + right.update(right.len() - 1, right.last().push(b.last())));
        }
    }
}

/// The characters of `text`, one by one.
pub fn chars_of(text: &str) -> (chars: Vec<char>)
    ensures
        chars@ == text@,
{
    let mut chars: Vec<char> = Vec::new();
    for c in it: text.chars()
        invariant
            it.seq() == text@,
            chars@ == it.seq().take(it.index() as int),
    {
        chars.push(c);
    }
    chars
}

/// Whether `c` is a whitespace character.
pub fn is_whitespace_char(c: char) -> (r: bool)
    ensures
        r == is_whitespace(c),
{
    ('\u{9}' <= c && c <= '\u{d}') || c == ' ' || c == '\u{85}' || c == '\u{a0}' || c
        == '\u{1680}' || ('\u{2000}' <= c && c <= '\u{200a}') || c == '\u{2028}' || c
        == '\u{2029}' || c == '\u{202f}' || c == '\u{205f}' || c == '\u{3000}'
}

/// `text` without leading whitespace.
pub fn trim_start(text: &str) -> (r: &str)
    ensures
        r@ == without_leading_whitespace(text@),
{
    let chars = chars_of(text);
    let n = chars.len();
    let mut i: usize = 0;
    assert(text@.skip(0) =~= text@);
    while i < n && is_whitespace_char(chars[i])
        invariant
            i <= n,
            n == chars@.len(),
            chars@ == text@,
            without_leading_whitespace(text@) == without_leading_whitespace(text@.skip(i as int)),
        decreases n - i,
    {
        assert(text@.skip(i as int).drop_first() =~= text@.skip(i + 1));
        i += 1;
    }
    assert(text@.skip(i as int) =~= text@.subrange(i as int, n as int));
    text.substring_char(i, n)
}

/// `text` without trailing whitespace.
pub fn trim_end(text: &str) -> (r: &str)
    ensures
        r@ == without_trailing_whitespace(text@),
{
    let chars = chars_of(text);
    let mut n = chars.len();
    assert(text@.take(n as int) =~= text@);
    while n > 0 && is_whitespace_char(chars[n - 1])
        invariant
            n <= chars@.len(),
            chars@ == text@,
            without_trailing_whitespace(text@) == without_trailing_whitespace(text@.take(n as int)),
        decreases n,
    {
        assert(text@.take(n as int).drop_last() =~= text@.take(n - 1));
        n -= 1;
    }
    assert(text@.take(n as int) =~= text@.subrange(0, n as int));
    text.substring_char(0, n)
}

/// `text` without whitespace at either end.
pub fn trim(text: &str) -> (r: &str)
    ensures
        r@ == trimmed(text@),
{
    trim_end(trim_start(text))
}

/// `text` without the characters `c` at its end.
pub fn trim_end_matches(text: &str, c: char) -> (r: &str)
    ensures
        r@ == without_trailing(text@, c),
{
    let chars = chars_of(text);
    let mut n = chars.len();
    assert(text@.take(n as int) =~= text@);
    while n > 0 && chars[n - 1] == c
        invariant
            n <= chars@.len(),
            chars@ == text@,
            without_trailing(text@, c) == without_trailing(text@.take(n as int), c),
        decreases n,
    {
        assert(text@.take(n as int).drop_last() =~= text@.take(n - 1));
        n -= 1;
    }
    assert(text@.take(n as int) =~= text@.subrange(0, n as int));
    text.substring_char(0, n)
}

/// Splits `text` at every occurrence of `separator`.
pub fn split(text: &str, separator: char) -> (pieces: Vec<String>)
    ensures
        pieces.deep_view() == split_on(text@, separator),
        pieces.len() >= 1,
{
    let chars = chars_of(text);
    let n = chars.len();
    let mut pieces: Vec<String> = Vec::new();
    let mut start: usize = 0;
    let mut i: usize = 0;
    proof {
        assert(text@.take(0) =~= Seq::<char>::empty());
        assert(text@.subrange(0, 0) =~= Seq::<char>::empty());
        assert(pieces.deep_view() =~= Seq::<Seq<char>>::empty());
        assert(pieces.deep_view().push(Seq::<char>::empty()) =~= seq![Seq::<char>::empty()]);
    }
    while i < n
        invariant
            start <= i <= n,
            n == chars@.len(),
            chars@ == text@,
            split_on(text@.take(i as int), separator) == pieces.deep_view().push(
                text@.subrange(start as int, i as int),
            ),
        decreases n - i,
    {
        proof {
            assert(text@.take(i + 1).drop_last() =~= text@.take(i as int));
            assert(text@.subrange(start as int, i as int).push(text@[i as int])
                =~= text@.subrange(start as int, i + 1));
        }
        if chars[i] == separator {
            let piece = text.substring_char(start, i).to_owned();
            let ghost before = pieces.deep_view();
            pieces.push(piece);
            start = i + 1;
            proof {
                assert(pieces.deep_view() =~= before.push(piece@));
                assert(text@.subrange(start as int, i + 1) =~= Seq::<char>::empty());
            }
        }
        i += 1;
    }
    assert(text@.take(n as int) =~= text@);
    let piece = text.substring_char(start, n).to_owned();
    let ghost before = pieces.deep_view();
    pieces.push(piece);
    assert(pieces.deep_view() =~= before.push(piece@));
    pieces
}

/// Whether `chars` are the characters of `literal`.
pub fn text_is(chars: &Vec<char>, literal: &str) -> (r: bool)
    ensures
        r == (chars@ == literal@),
{
    let mut matched: usize = 0;
    let mut same = true;
    for c in it: literal.chars()
        invariant
            it.seq() == literal@,
            matched <= chars.len(),
            same ==> matched == it.index() && forall|j: int|
                0 <= j < matched ==> chars@[j] == literal@[j],
            !same ==> chars@ != literal@,
    {
        if same {
            if matched < chars.len() && chars[matched] == c {
                matched += 1;
            } else {
                same = false;
            }
        }
    }
    if same && matched == chars.len() {
        assert(chars@ =~= literal@);
        true
    } else {
        false
    }
}

/// Whether two texts hold the same characters.
pub fn same_text(a: &str, b: &str) -> (r: bool)
    ensures
        r == (a@ == b@),
{
    let x = chars_of(a);
    let y = chars_of(b);
    if x.len() != y.len() {
        return false;
    }
    let n = x.len();
    let mut i: usize = 0;
    while i < n
        invariant
            i <= n,
            n == x@.len(),
            n == y@.len(),
            x@ == a@,
            y@ == b@,
            forall|j: int| 0 <= j < i ==> a@[j] == b@[j],
        decreases n - i,
    {
        if x[i] != y[i] {
            return false;
        }
        i += 1;
    }
    assert(a@ =~= b@);
    true
}

} // verus!
