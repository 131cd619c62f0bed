//! Character sequences: searching, splitting on a separator, taking off a
//! line terminator, and moving between `str`, `String` and slices of `char`.

use vstd::prelude::*;

verus! {

/// Position of the first `x` in `s`, or `s.len()` where `s` holds none.
pub open spec fn find<T>(s: Seq<T>, x: T) -> int
    decreases s.len(),
{
    if s.len() == 0 {
        0
    } else if s[0] == x {
        0
    } else {
        1 + find(s.drop_first(), x)
    }
}

/// The pieces of `s` between occurrences of `sep`. There is always at least
/// one piece; an empty `s` gives one empty piece.
pub open spec fn split(s: Seq<char>, sep: char) -> Seq<Seq<char>>
    decreases s.len(),
{
    let i = find(s, sep);
    if 0 <= i < s.len() {
        seq![s.take(i)] + split(s.skip(i + 1), sep)
    } else {
        seq![s]
    }
}

/// The pieces put back together with `sep` between neighbours.
pub open spec fn join(pieces: Seq<Seq<char>>, sep: char) -> Seq<char>
    decreases pieces.len(),
{
    if pieces.len() == 0 {
        Seq::empty()
    } else if pieces.len() == 1 {
        pieces[0]
    } else {
        join(pieces.drop_last(), sep) + seq![sep] + pieces.last()
    }
}

/// `s` without the line terminator at its end: a line feed, and the
/// carriage return before that line feed where there is one. Nothing else
/// is taken off, at either end.
pub open spec fn strip_terminator(s: Seq<char>) -> Seq<char> {
    if s.len() > 0 && s.last() == '\n' {
        let t = s.drop_last();
        if t.len() > 0 && t.last() == '\r' {
            t.drop_last()
        } else {
            t
        }
    } else {
        s
    }
}

/// `find` gives a position inside `s` or its length, nothing before that
/// position equals `x`, and the position itself holds `x` unless it is the end.
pub proof fn lemma_find_first<T>(s: Seq<T>, x: T)
    ensures
        0 <= find(s, x) <= s.len(),
        forall|k: int| 0 <= k < find(s, x) ==> s[k] != x,
        find(s, x) < s.len() ==> s[find(s, x)] == x,
    decreases s.len(),
{
    if s.len() > 0 && s[0] != x {
        let t = s.drop_first();
        lemma_find_first(t, x);
        assert forall|k: int| 0 <= k < find(s, x) implies s[k] != x by {
            if k > 0 {
                assert(s[k] == t[k - 1]);
            }
        }
    }
}

/// A position that nothing equal to `x` precedes, and that holds `x` or is
/// the end, is the one `find` gives.
pub proof fn lemma_find_is<T>(s: Seq<T>, x: T, i: int)
    requires
        0 <= i <= s.len(),
        forall|k: int| 0 <= k < i ==> s[k] != x,
        i < s.len() ==> s[i] == x,
    ensures
        find(s, x) == i,
{
    lemma_find_first(s, x);
    let j = find(s, x);
    if j < i {
        assert(s[j] == x);
    } else if i < j {
        assert(s[i] == x);
    }
}

/// Splitting a sequence that holds no separator gives the sequence itself.
pub proof fn lemma_split_without_separator(s: Seq<char>, sep: char)
    requires
        forall|k: int| 0 <= k < s.len() ==> s[k] != sep,
    ensures
        split(s, sep) == seq![s],
{
    lemma_find_is(s, sep, s.len() as int);
}

/// Splitting at the first separator: the piece before it, then the pieces of
/// what follows it.
pub proof fn lemma_split_at_first(s: Seq<char>, sep: char, i: int)
    requires
        0 <= i < s.len(),
        forall|k: int| 0 <= k < i ==> s[k] != sep,
        s[i] == sep,
    ensures
        split(s, sep) == seq![s.take(i)] + split(s.skip(i + 1), sep),
{
    lemma_find_is(s, sep, i);
}

/// Every piece of a split is free of the separator, and there is at least one.
pub proof fn lemma_split_pieces(s: Seq<char>, sep: char)
    ensures
        split(s, sep).len() >= 1,
        forall|p: int, k: int|
            0 <= p < split(s, sep).len() && 0 <= k < split(s, sep)[p].len() ==> split(
                s,
                sep,
            )[p][k] != sep,
    decreases s.len(),
{
    lemma_find_first(s, sep);
    let i = find(s, sep);
    if 0 <= i < s.len() {
        let rest = split(s.skip(i + 1), sep);
        lemma_split_pieces(s.skip(i + 1), sep);
        assert forall|p: int, k: int|
            0 <= p < split(s, sep).len() && 0 <= k < split(s, sep)[p].len() implies split(
            s,
            sep,
        )[p][k] != sep by {
            if p == 0 {
                assert(split(s, sep)[0] == s.take(i));
            } else {
                assert(split(s, sep)[p] == rest[p - 1]);
            }
        }
    }
}

/// Joining what a split gave restores the sequence.
pub proof fn lemma_join_split(s: Seq<char>, sep: char)
    ensures
        join(split(s, sep), sep) == s,
    decreases s.len(),
{
    lemma_find_first(s, sep);
    let i = find(s, sep);
    if 0 <= i < s.len() {
        let rest = s.skip(i + 1);
        lemma_join_split(rest, sep);
        lemma_split_pieces(rest, sep);
        lemma_join_prepend(s.take(i), split(rest, sep), sep);
        assert(s.take(i) + seq![sep] + rest =~= s);
    }
}

/// Joining with one more piece in front puts that piece and a separator in
/// front of the joined rest.
pub proof fn lemma_join_prepend(head: Seq<char>, rest: Seq<Seq<char>>, sep: char)
    requires
        rest.len() >= 1,
    ensures
        join(seq![head] + rest, sep) == head + seq![sep] + join(rest, sep),
    decreases rest.len(),
{
    let all = seq![head] + rest;
    if rest.len() == 1 {
        assert(all.drop_last() =~= seq![head]);
        assert(all.last() == rest[0]);
        assert(join(all.drop_last(), sep) == head);
    } else {
        let shorter = rest.drop_last();
        lemma_join_prepend(head, shorter, sep);
        assert(all.drop_last() =~= seq![head] + shorter);
        assert(all.last() == rest.last());
        assert(head + seq![sep] + join(shorter, sep) + seq![sep] + rest.last() =~= head + seq![sep]
            + (join(shorter, sep) + seq![sep] + rest.last()));
    }
}

/// First position at or after `from`, and before `to`, that holds `x`; `to`
/// where there is none.
pub fn find_in(s: &[char], from: usize, to: usize, x: char) -> (i: usize)
    requires
        from <= to <= s.len(),
    ensures
        from <= i <= to,
        i - from == find(s@.subrange(from as int, to as int), x),
        forall|k: int| from <= k < i ==> s@[k] != x,
        i < to ==> s@[i as int] == x,
{
    let mut i: usize = from;
    while i < to && s[i] != x
        invariant
            from <= i <= to <= s.len(),
            forall|k: int| from <= k < i ==> s@[k] != x,
        decreases to - i,
    {
        i += 1;
    }
    proof {
        lemma_find_is(s@.subrange(from as int, to as int), x, i - from);
    }
    i
}

/// Where the line terminator at the end of `s` begins; the length of `s`
/// where it ends in none.
pub fn terminator_start(s: &[char]) -> (end: usize)
    ensures
        end <= s.len(),
        s@.take(end as int) == strip_terminator(s@),
{
    let n: usize = s.len();
    let end: usize = if n > 0 && s[n - 1] == '\n' {
        if n > 1 && s[n - 2] == '\r' {
            n - 2
        } else {
            n - 1
        }
    } else {
        n
    };
    proof {
        assert(s@.take(n as int) =~= s@);
        if n > 0 {
            assert(s@.drop_last() =~= s@.take(n - 1));
            if n > 1 {
                assert(s@.drop_last().drop_last() =~= s@.take(n - 2));
            }
        }
    }
    end
}

/// A stretch of a character slice, by the positions where it starts and ends.
#[derive(Clone, Copy, Debug)]
pub struct Span {
    pub start: usize,
    pub end: usize,
}

impl Span {
    /// The characters of `s` that the span covers.
    pub open spec fn of(self, s: Seq<char>) -> Seq<char> {
        s.subrange(self.start as int, self.end as int)
    }

    /// The span lies inside a sequence of length `len`.
    pub open spec fn within(self, len: nat) -> bool {
        self.start <= self.end <= len
    }
}

/// The characters that each span covers, in order.
pub open spec fn pieces_of(s: Seq<char>, spans: Seq<Span>) -> Seq<Seq<char>> {
    Seq::new(spans.len(), |k: int| spans[k].of(s))
}

/// Splits the stretch of `s` between `from` and `to` on `sep`, giving the
/// pieces as spans of `s`.
pub fn split_spans(s: &[char], from: usize, to: usize, sep: char) -> (spans: Vec<Span>)
    requires
        from <= to <= s.len(),
    ensures
        pieces_of(s@, spans@) == split(s@.subrange(from as int, to as int), sep),
        forall|k: int| 0 <= k < spans@.len() ==> (#[trigger] spans@[k]).within(s@.len()),
{
    let mut spans: Vec<Span> = Vec::new();
    let mut start: usize = from;
    let ghost whole = s@.subrange(from as int, to as int);
    loop
        invariant_except_break
            split(whole, sep) == pieces_of(s@, spans@) + split(
                s@.subrange(start as int, to as int),
                sep,
            ),
        invariant
            from <= start <= to <= s.len(),
            whole == s@.subrange(from as int, to as int),
            forall|k: int| 0 <= k < spans@.len() ==> (#[trigger] spans@[k]).within(s@.len()),
        ensures
            pieces_of(s@, spans@) == split(whole, sep),
            forall|k: int| 0 <= k < spans@.len() ==> (#[trigger] spans@[k]).within(s@.len()),
        decreases to - start,
    {
        let ghost before = spans@;
        let ghost tail = s@.subrange(start as int, to as int);
        let i: usize = find_in(s, start, to, sep);
        spans.push(Span { start, end: i });
        proof {
            assert(pieces_of(s@, spans@) =~= pieces_of(s@, before) + seq![tail.take(i - start)]) by {
                assert(tail.take(i - start) =~= s@.subrange(start as int, i as int));
            }
        }
        if i == to {
            proof {
                assert(tail.take(i - start) =~= tail);
                lemma_split_without_separator(tail, sep);
            }
            break ;
        }
        proof {
            lemma_split_at_first(tail, sep, i - start);
            assert(tail.skip(i - start + 1) =~= s@.subrange(i + 1, to as int));
            assert(pieces_of(s@, before) + (seq![tail.take(i - start)] + split(
                tail.skip(i - start + 1),
                sep,
            )) =~= pieces_of(s@, before) + seq![tail.take(i - start)] + split(
                tail.skip(i - start + 1),
                sep,
            ));
        }
        start = i + 1;
    }
    spans
}

/// The characters of `s`, one by one.
pub fn chars_of(s: &str) -> (v: Vec<char>)
    ensures
        v@ == s@,
{
    let mut v: Vec<char> = Vec::new();
    for c in it: s.chars()
        invariant
            v@ == it.seq().take(it.index()),
            it.seq() == s@,
    {
        v.push(c);
    }
    v
}

/// Appends the characters of `s` between `from` and `to` to `out`.
pub fn push_chars(out: &mut String, s: &[char], from: usize, to: usize)
    requires
        from <= to <= s.len(),
    ensures
        final(out)@ == old(out)@ + s@.subrange(from as int, to as int),
{
    let mut i: usize = from;
    while i < to
        invariant
            from <= i <= to <= s.len(),
            out@ == old(out)@ + s@.subrange(from as int, i as int),
        decreases to - i,
    {
        out.push(s[i]);
        proof {
            assert(s@.subrange(from as int, i + 1) =~= s@.subrange(from as int, i as int).push(
                s@[i as int],
            ));
        }
        i += 1;
    }
}

/// A `String` of the characters of `s` between `from` and `to`.
pub fn text_of(s: &[char], from: usize, to: usize) -> (r: String)
    requires
        from <= to <= s.len(),
    ensures
        r@ == s@.subrange(from as int, to as int),
{
    let mut r = String::new();
    push_chars(&mut r, s, from, to);
    r
}

/// Appends `c` to the string.
///
/// Trusted: `String::push` puts the character at the end and leaves what
/// was there as it was.
pub assume_specification[ std::string::String::push ](s: &mut std::string::String, c: char)
    ensures
        final(s)@ == old(s)@.push(c),
;

} // verus!
