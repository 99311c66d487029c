//! Cutting text at a separator character.
use vstd::prelude::*;
use vstd::string::*;

verus! {

/// The pieces of `s` that lie between occurrences of `sep`, in order.  A text
/// with `n` separators has `n + 1` pieces; pieces may be empty.
pub open spec fn split_on(s: Seq<char>, sep: char) -> Seq<Seq<char>>
    decreases s.len(),
{
    if s.len() == 0 {
        seq![Seq::<char>::empty()]
    } else {
        let before = split_on(s.drop_last(), sep);
        if s.last() == sep {
            before.push(Seq::<char>::empty())
        } else {
            before.drop_last().push(before.last().push(s.last()))
        }
    }
}

/// The pieces written one after another with `sep` between neighbours.
pub open spec fn join_with(pieces: Seq<Seq<char>>, sep: char) -> Seq<char>
    decreases pieces.len(),
{
    if pieces.len() == 0 {
        Seq::<char>::empty()
    } else if pieces.len() == 1 {
        pieces[0]
    } else {
        join_with(pieces.drop_last(), sep).push(sep) + pieces.last()
    }
}

/// No piece holds the separator.
pub open spec fn free_of(pieces: Seq<Seq<char>>, sep: char) -> bool {
    forall|k: int| 0 <= k < pieces.len() ==> !(#[trigger] pieces[k]).contains(sep)
}

/// The characters of a string, in a vector.
pub fn chars_of(s: &str) -> (chars: Vec<char>)
    ensures
        chars@ == s@,
{
    let mut chars: Vec<char> = Vec::new();
    for c in it: s.chars()
        invariant
            it.seq() == s@,
            chars@ == s@.take(it.index()),
    {
        chars.push(c);
    }
    chars
}

/// `ranges` marks, inside `text`, the pieces `pieces` one for one: range `k`
/// is the half-open span of characters that piece `k` is made of.
pub open spec fn marks(
    text: Seq<char>,
    ranges: Seq<(usize, usize)>,
    pieces: Seq<Seq<char>>,
) -> bool {
    &&& ranges.len() == pieces.len()
    &&& forall|k: int|
        0 <= k < ranges.len() ==> {
            &&& (#[trigger] ranges[k]).0 <= ranges[k].1 <= text.len()
            &&& text.subrange(ranges[k].0 as int, ranges[k].1 as int) == pieces[k]
        }
}

/// Cuts the span `lo..hi` of `chars` at each `sep` and returns where the
/// pieces lie.
pub fn split_ranges(chars: &Vec<char>, lo: usize, hi: usize, sep: char) -> (ranges: Vec<
    (usize, usize),
>)
    requires
        lo <= hi <= chars.len(),
    ensures
        marks(chars@, ranges@, split_on(chars@.subrange(lo as int, hi as int), sep)),
        forall|k: int| 0 <= k < ranges.len() ==> lo <= (#[trigger] ranges[k]).0 && ranges[k].1 <= hi,
{
    let mut ranges: Vec<(usize, usize)> = Vec::new();
    let mut start: usize = lo;
    let mut i: usize = lo;
    proof {
        assert(chars@.subrange(lo as int, lo as int) =~= Seq::<char>::empty());
    }
    while i < hi
        invariant
            lo <= start <= i <= hi <= chars.len(),
            split_on(chars@.subrange(lo as int, i as int), sep).len() == ranges.len() + 1,
            split_on(chars@.subrange(lo as int, i as int), sep).last() == chars@.subrange(
                start as int,
                i as int,
            ),
            forall|k: int|
                0 <= k < ranges.len() ==> {
                    &&& lo <= (#[trigger] ranges[k]).0 <= ranges[k].1 <= hi
                    &&& chars@.subrange(ranges[k].0 as int, ranges[k].1 as int) == split_on(
                        chars@.subrange(lo as int, i as int),
                        sep,
                    )[k]
                },
        decreases hi - i,
    {
        let ghost seen = chars@.subrange(lo as int, i as int);
        let ghost next = chars@.subrange(lo as int, i + 1);
        proof {
            assert(next.drop_last() =~= seen);
            assert(next.last() == chars@[i as int]);
        }
        if chars[i] == sep {
            ranges.push((start, i));
            start = i + 1;
            proof {
                assert(chars@.subrange(start as int, start as int) =~= Seq::<char>::empty());
            }
        } else {
            proof {
                assert(chars@.subrange(start as int, i + 1) =~= chars@.subrange(
                    start as int,
                    i as int,
                ).push(chars@[i as int]));
            }
        }
        i = i + 1;
    }
    ranges.push((start, hi));
    ranges
}

/// Whether the span `from..to` of `chars` spells `word`.
pub fn range_is(chars: &Vec<char>, from: usize, to: usize, word: &str) -> (same: bool)
    requires
        from <= to <= chars.len(),
    ensures
        same == (chars@.subrange(from as int, to as int) == word@),
{
    let len: usize = word.unicode_len();
    if to - from != len {
        return false;
    }
    let ghost span = chars@.subrange(from as int, to as int);
    let mut j: usize = 0;
    while j < len
        invariant
            from <= to <= chars.len(),
            to - from == len,
            len == word@.len(),
            j <= len,
            span == chars@.subrange(from as int, to as int),
            forall|k: int| 0 <= k < j ==> span[k] == word@[k],
        decreases len - j,
    {
        if chars[from + j] != word.get_char(j) {
            proof {
                assert(span[j as int] != word@[j as int]);
            }
            return false;
        }
        j = j + 1;
    }
    proof {
        assert(span =~= word@);
    }
    true
}

/// Splitting never yields nothing, and a text without separator is its own
/// single piece.
pub proof fn lemma_split_on_whole(s: Seq<char>, sep: char)
    ensures
        split_on(s, sep).len() >= 1,
        !s.contains(sep) ==> split_on(s, sep) == seq![s],
    decreases s.len(),
{
    if s.len() > 0 {
        lemma_split_on_whole(s.drop_last(), sep);
        if !s.contains(sep) {
            assert(s.last() != sep) by {
                assert(s[s.len() - 1] == s.last());
            }
            assert(!s.drop_last().contains(sep)) by {
                if s.drop_last().contains(sep) {
                    let k = choose|k: int| 0 <= k < s.drop_last().len() && s.drop_last()[k] == sep;
                    assert(s[k] == sep);
                }
            }
            assert(s.drop_last().push(s.last()) =~= s);
            assert(seq![s.drop_last()].last() == s.drop_last());
            assert(seq![s.drop_last()].drop_last().push(s) =~= seq![s]);
        }
    } else {
        assert(s =~= Seq::<char>::empty());
    }
}

/// Splitting a text that ends in one more piece: the pieces of what stands
/// before the last separator, then the last piece.
pub proof fn lemma_split_on_append(head: Seq<char>, tail: Seq<char>, sep: char)
    requires
        !tail.contains(sep),
    ensures
        split_on(head.push(sep) + tail, sep) == split_on(head, sep).push(tail),
    decreases tail.len(),
{
    let whole = head.push(sep) + tail;
    if tail.len() == 0 {
        assert(whole =~= head.push(sep));
        assert(whole.drop_last() =~= head);
        assert(tail =~= Seq::<char>::empty());
    } else {
        let shorter = tail.drop_last();
        assert(!shorter.contains(sep)) by {
            if shorter.contains(sep) {
                let k = choose|k: int| 0 <= k < shorter.len() && shorter[k] == sep;
                assert(tail[k] == sep);
            }
        }
        assert(tail.last() != sep) by {
            assert(tail[tail.len() - 1] == tail.last());
        }
        lemma_split_on_append(head, shorter, sep);
        assert(whole.drop_last() =~= head.push(sep) + shorter);
        assert(whole.last() == tail.last());
        let before = split_on(head, sep).push(shorter);
        assert(before.drop_last() =~= split_on(head, sep));
        assert(shorter.push(tail.last()) =~= tail);
    }
}

/// Splitting undoes joining: pieces that hold no separator come back as
/// they were.
pub proof fn lemma_split_on_join(pieces: Seq<Seq<char>>, sep: char)
    requires
        pieces.len() >= 1,
        free_of(pieces, sep),
    ensures
        split_on(join_with(pieces, sep), sep) == pieces,
    decreases pieces.len(),
{
    if pieces.len() == 1 {
        lemma_split_on_whole(pieces[0], sep);
        assert(pieces =~= seq![pieces[0]]);
    } else {
        let front = pieces.drop_last();
        assert(free_of(front, sep)) by {
            assert forall|k: int| 0 <= k < front.len() implies !(#[trigger] front[k]).contains(
                sep,
            ) by {
                assert(front[k] == pieces[k]);
            }
        }
        lemma_split_on_join(front, sep);
        lemma_split_on_append(join_with(front, sep), pieces.last(), sep);
        assert(front.push(pieces.last()) =~= pieces);
    }
}

/// Every character of a piece is a character of the text it was cut from.
pub proof fn lemma_piece_lies_within(s: Seq<char>, sep: char, k: int)
    requires
        0 <= k < split_on(s, sep).len(),
    ensures
        forall|j: int|
            0 <= j < split_on(s, sep)[k].len() ==> s.contains(#[trigger] split_on(s, sep)[k][j]),
    decreases s.len(),
{
    let pieces = split_on(s, sep);
    if s.len() > 0 {
        let front = s.drop_last();
        let before = split_on(front, sep);
        lemma_split_on_whole(front, sep);
        assert forall|j: int| 0 <= j < pieces[k].len() implies s.contains(
            #[trigger] pieces[k][j],
        ) by {
            if k < before.len() && j < before[k].len() {
                lemma_piece_lies_within(front, sep, k);
                assert(pieces[k][j] == before[k][j]);
                let c = before[k][j];
                assert(front.contains(c));
                let at = choose|at: int| 0 <= at < front.len() && front[at] == c;
                assert(s[at] == c);
            } else {
                assert(pieces[k][j] == s.last());
                assert(s[s.len() - 1] == s.last());
            }
        }
    }
}

/// Joining undoes splitting, and no piece of a split holds the separator.
pub proof fn lemma_join_split_on(s: Seq<char>, sep: char)
    ensures
        free_of(split_on(s, sep), sep),
        join_with(split_on(s, sep), sep) == s,
    decreases s.len(),
{
    if s.len() == 0 {
        assert(s =~= Seq::<char>::empty());
        assert(join_with(seq![Seq::<char>::empty()], sep) =~= Seq::<char>::empty());
    } else {
        let front = s.drop_last();
        let before = split_on(front, sep);
        lemma_join_split_on(front, sep);
        lemma_split_on_whole(front, sep);
        let after = split_on(s, sep);
        if s.last() == sep {
            assert(after.drop_last() =~= before);
            assert(join_with(after, sep) =~= join_with(before, sep).push(sep) + after.last());
            assert(join_with(after, sep) =~= s);
            assert forall|k: int| 0 <= k < after.len() implies !(#[trigger] after[k]).contains(
                sep,
            ) by {
                if k < before.len() {
                    assert(after[k] == before[k]);
                }
            }
        } else {
            let grown = before.last().push(s.last());
            assert(!grown.contains(sep)) by {
                if grown.contains(sep) {
                    let k = choose|k: int| 0 <= k < grown.len() && grown[k] == sep;
                    assert(k < before.last().len());
                    assert(before.last()[k] == sep);
                    assert(before[before.len() - 1].contains(sep));
                }
            }
            assert forall|k: int| 0 <= k < after.len() implies !(#[trigger] after[k]).contains(
                sep,
            ) by {
                if k < before.len() - 1 {
                    assert(after[k] == before[k]);
                }
            }
            if before.len() == 1 {
                assert(after.len() == 1);
                assert(before.last() == before[0]);
                assert(after[0] == grown);
                assert(front.push(s.last()) =~= s);
            } else {
                assert(after.drop_last() =~= before.drop_last());
                assert(join_with(before, sep) =~= join_with(before.drop_last(), sep).push(sep)
                    + before.last());
                assert(join_with(after, sep) =~= join_with(before.drop_last(), sep).push(sep)
                    + grown);
                let stem = join_with(before.drop_last(), sep).push(sep);
                assert(stem + grown =~= (stem + before.last()).push(s.last()));
                assert(front.push(s.last()) =~= s);
            }
        }
    }
}

} // verus!
