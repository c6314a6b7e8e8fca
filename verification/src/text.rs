//! Scanning and splitting of record text.
//!
//! A record is modelled as a sequence of characters. The specification
//! functions say where separators stand and which pieces lie between them;
//! the executable functions compute the same over a slice of characters.

use vstd::prelude::*;

verus! {

/// A stretch of a text: the positions from `start` up to, not including, `end`.
#[derive(Clone, Copy, Debug)]
pub struct Span {
    pub start: usize,
    pub end: usize,
}

impl Span {
    /// Whether the stretch lies inside a text of `len` characters.
    pub open spec fn within(self, len: nat) -> bool {
        self.start <= self.end <= len
    }

    /// The characters of `text` that the stretch covers.
    pub open spec fn of(self, text: Seq<char>) -> Seq<char> {
        text.subrange(self.start as int, self.end as int)
    }
}

/// The pieces of `text` that a sequence of stretches covers, in order.
pub open spec fn covered(spans: Seq<Span>, text: Seq<char>) -> Seq<Seq<char>> {
    Seq::new(spans.len(), |i: int| spans[i].of(text))
}

/// The least position of `s` that holds a character of `seps`, or the length
/// of `s` where none does.
pub open spec fn first_of(s: Seq<char>, seps: Set<char>) -> int
    decreases s.len(),
{
    if s.len() == 0 || seps.contains(s[0]) {
        0
    } else {
        1 + first_of(s.skip(1), seps)
    }
}

/// The greatest position of `s` that holds `c`, or -1 where none does.
pub open spec fn last_of(s: Seq<char>, c: char) -> int
    decreases s.len(),
{
    if s.len() == 0 {
        -1
    } else if s.last() == c {
        s.len() - 1
    } else {
        last_of(s.drop_last(), c)
    }
}

/// The pieces into which the characters of `seps` cut `s`. Every separator
/// ends one piece and begins the next, so a text with `n` separators has
/// `n + 1` pieces, some of them possibly empty.
pub open spec fn pieces(s: Seq<char>, seps: Set<char>) -> Seq<Seq<char>>
    decreases s.len(),
{
    let n = first_of(s, seps);
    if 0 <= n < s.len() {
        seq![s.take(n)] + pieces(s.skip(n + 1), seps)
    } else {
        seq![s]
    }
}

/// `s` without the newline that ends it, if one does.
pub open spec fn without_newline(s: Seq<char>) -> Seq<char> {
    if s.len() > 0 && s.last() == '\n' {
        s.drop_last()
    } else {
        s
    }
}

/// `first_of` is a position of `s` or its length, no separator stands before
/// it, and one stands at it unless it is the length.
pub proof fn lemma_first_of(s: Seq<char>, seps: Set<char>)
    ensures
        0 <= first_of(s, seps) <= s.len(),
        forall|j: int| 0 <= j < first_of(s, seps) ==> !seps.contains(#[trigger] s[j]),
        first_of(s, seps) < s.len() ==> seps.contains(s[first_of(s, seps)]),
    decreases s.len(),
{
    if s.len() == 0 || seps.contains(s[0]) {
    } else {
        let t = s.skip(1);
        lemma_first_of(t, seps);
        assert forall|j: int| 0 <= j < first_of(s, seps) implies !seps.contains(
            #[trigger] s[j],
        ) by {
            if j > 0 {
                assert(s[j] == t[j - 1]);
            }
        }
        assert(first_of(s, seps) < s.len() ==> s[first_of(s, seps)] == t[first_of(t, seps)]);
    }
}

/// A position with no separator before it, and with one at it unless it is
/// the end, is `first_of`.
pub proof fn lemma_first_of_is(s: Seq<char>, seps: Set<char>, k: int)
    requires
        0 <= k <= s.len(),
        forall|j: int| 0 <= j < k ==> !seps.contains(#[trigger] s[j]),
        k < s.len() ==> seps.contains(s[k]),
    ensures
        first_of(s, seps) == k,
    decreases s.len(),
{
    if s.len() == 0 {
    } else if seps.contains(s[0]) {
        if k > 0 {
            assert(!seps.contains(s[0]));
        }
    } else {
        let t = s.skip(1);
        assert forall|j: int| 0 <= j < k - 1 implies !seps.contains(#[trigger] t[j]) by {
            assert(t[j] == s[j + 1]);
        }
        if k < s.len() {
            assert(t[k - 1] == s[k]);
        }
        lemma_first_of_is(t, seps, k - 1);
    }
}

/// `last_of` is -1 or a position of `s` that holds `c`, and `c` stands
/// nowhere after it.
pub proof fn lemma_last_of(s: Seq<char>, c: char)
    ensures
        -1 <= last_of(s, c) < s.len(),
        last_of(s, c) >= 0 ==> s[last_of(s, c)] == c,
        forall|j: int| last_of(s, c) < j < s.len() ==> #[trigger] s[j] != c,
    decreases s.len(),
{
    if s.len() == 0 || s.last() == c {
    } else {
        let t = s.drop_last();
        lemma_last_of(t, c);
        assert forall|j: int| last_of(s, c) < j < s.len() implies #[trigger] s[j] != c by {
            if j < s.len() - 1 {
                assert(s[j] == t[j]);
            }
        }
        assert(last_of(s, c) >= 0 ==> s[last_of(s, c)] == t[last_of(t, c)]);
    }
}

/// A text with no separator in it is its own single piece.
pub proof fn lemma_pieces_whole(s: Seq<char>, seps: Set<char>)
    requires
        forall|j: int| 0 <= j < s.len() ==> !seps.contains(#[trigger] s[j]),
    ensures
        pieces(s, seps) == seq![s],
{
    lemma_first_of_is(s, seps, s.len() as int);
}

/// A text falls into at least one piece.
pub proof fn lemma_pieces_len(s: Seq<char>, seps: Set<char>)
    ensures
        pieces(s, seps).len() >= 1,
    decreases s.len(),
{
    let n = first_of(s, seps);
    if 0 <= n < s.len() {
        lemma_pieces_len(s.skip(n + 1), seps);
    }
}

/// The characters of `s`, in order.
pub fn chars_of(s: &str) -> (r: Vec<char>)
    ensures
        r@ == s@,
{
    let mut out: Vec<char> = Vec::new();
    for c in it: s.chars()
        invariant
            out@ == it.seq().take(it.index()),
            it.seq() == s@,
    {
        out.push(c);
    }
    out
}

/// `String::push` of the standard library, which appends one character to
/// the end of a string: the string afterwards is the string before with `c`
/// behind it.
#[verifier::external_body]
fn push_char(s: &mut String, c: char)
    ensures
        final(s)@ == old(s)@.push(c),
{
    s.push(c);
}

/// The string that holds the characters of `text`, in order.
pub fn string_of(text: &[char]) -> (r: String)
    ensures
        r@ == text@,
{
    let mut out = String::new();
    let mut i: usize = 0;
    while i < text.len()
        invariant
            i <= text@.len(),
            out@ == text@.take(i as int),
        decreases text@.len() - i,
    {
        push_char(&mut out, text[i]);
        proof {
            assert(text@.take(i as int).push(text@[i as int]) =~= text@.take(i + 1));
        }
        i += 1;
    }
    proof {
        assert(text@.take(text@.len() as int) =~= text@);
    }
    out
}

/// The position of the first `sep` or `alt` in `text`, or the length of
/// `text` where neither occurs.
pub fn find_first_either(text: &[char], sep: char, alt: char) -> (r: usize)
    ensures
        r == first_of(text@, set![sep, alt]),
{
    let ghost seps = set![sep, alt];
    let mut i: usize = 0;
    while i < text.len() && text[i] != sep && text[i] != alt
        invariant
            i <= text@.len(),
            seps == set![sep, alt],
            forall|j: int| 0 <= j < i ==> !seps.contains(#[trigger] text@[j]),
        decreases text@.len() - i,
    {
        i += 1;
    }
    proof {
        lemma_first_of_is(text@, seps, i as int);
    }
    i
}

/// The position of the first `c` in `text`, or the length of `text` where
/// there is none.
pub fn find_first(text: &[char], c: char) -> (r: usize)
    ensures
        r == first_of(text@, set![c]),
{
    assert(set![c, c] =~= set![c]);
    find_first_either(text, c, c)
}

/// The position of the last `c` in `text`, if there is one.
pub fn find_last(text: &[char], c: char) -> (r: Option<usize>)
    ensures
        match r {
            Some(i) => i == last_of(text@, c),
            None => last_of(text@, c) == -1,
        },
{
    let mut i: usize = text.len();
    proof {
        assert(text@.take(text@.len() as int) =~= text@);
    }
    while i > 0 && text[i - 1] != c
        invariant
            i <= text@.len(),
            last_of(text@, c) == last_of(text@.take(i as int), c),
        decreases i,
    {
        proof {
            assert(text@.take(i as int).drop_last() =~= text@.take(i - 1));
        }
        i -= 1;
    }
    if i == 0 {
        None
    } else {
        Some(i - 1)
    }
}

/// The stretches of `text` between separators: what `pieces` cuts `text`
/// into with `sep` and `alt` as separators.
pub fn split_either(text: &[char], sep: char, alt: char) -> (r: Vec<Span>)
    ensures
        covered(r@, text@) == pieces(text@, set![sep, alt]),
        forall|i: int| 0 <= i < r@.len() ==> (#[trigger] r@[i]).within(text@.len()),
{
    let ghost seps = set![sep, alt];
    let mut out: Vec<Span> = Vec::new();
    let mut start: usize = 0;
    let mut i: usize = 0;
    proof {
        assert(text@.skip(0) =~= text@);
        assert(covered(out@, text@) + pieces(text@.skip(0), seps) =~= pieces(text@, seps));
    }
    while i < text.len()
        invariant
            start <= i <= text@.len(),
            seps == set![sep, alt],
            forall|j: int| start <= j < i ==> !seps.contains(#[trigger] text@[j]),
            forall|k: int| 0 <= k < out@.len() ==> (#[trigger] out@[k]).within(text@.len()),
            pieces(text@, seps) == covered(out@, text@) + pieces(text@.skip(start as int), seps),
        decreases text@.len() - i,
    {
        if text[i] == sep || text[i] == alt {
            let span = Span { start, end: i };
            proof {
                let tail = text@.skip(start as int);
                assert forall|j: int| 0 <= j < i - start implies !seps.contains(
                    #[trigger] tail[j],
                ) by {
                    assert(tail[j] == text@[start + j]);
                }
                assert(tail[i - start] == text@[i as int]);
                lemma_first_of_is(tail, seps, i - start);
                assert(tail.take(i - start) =~= span.of(text@));
                assert(tail.skip(i - start + 1) =~= text@.skip(i + 1));
                assert(covered(out@.push(span), text@) =~= covered(out@, text@) + seq![
                    span.of(text@),
                ]);
            }
            out.push(span);
            start = i + 1;
        }
        i += 1;
    }
    let span = Span { start, end: i };
    proof {
        let tail = text@.skip(start as int);
        assert forall|j: int| 0 <= j < tail.len() implies !seps.contains(#[trigger] tail[j]) by {
            assert(tail[j] == text@[start + j]);
        }
        lemma_pieces_whole(tail, seps);
        assert(tail =~= span.of(text@));
        assert(covered(out@.push(span), text@) =~= covered(out@, text@) + seq![span.of(text@)]);
    }
    out.push(span);
    out
}

/// The stretches of `text` between occurrences of `sep`.
pub fn split(text: &[char], sep: char) -> (r: Vec<Span>)
    ensures
        covered(r@, text@) == pieces(text@, set![sep]),
        forall|i: int| 0 <= i < r@.len() ==> (#[trigger] r@[i]).within(text@.len()),
{
    assert(set![sep, sep] =~= set![sep]);
    split_either(text, sep, sep)
}

/// `text` without the newline that ends it, if one does.
pub fn trim_newline(text: &[char]) -> (r: &[char])
    ensures
        r@ == without_newline(text@),
{
    let n = text.len();
    if n > 0 && text[n - 1] == '\n' {
        vstd::slice::slice_subrange(text, 0, n - 1)
    } else {
        text
    }
}

} // verus!
