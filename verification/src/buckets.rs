//! The bucket list: one bucket name per line, blank lines ignored.

use crate::text::{chars_of, is_blank, lemma_trimmed_is_bare, text_of, texts, trim_bounds, trimmed};
use vstd::prelude::*;

verus! {

/// The lines of `text`: what stands between its line feeds. A text
/// without a line feed is one line.
pub open spec fn lines(text: Seq<char>) -> Seq<Seq<char>>
    decreases text.len(),
{
    if text.len() == 0 {
        seq![Seq::<char>::empty()]
    } else {
        let before = lines(text.drop_last());
        if text.last() == '\n' {
            before.push(Seq::<char>::empty())
        } else {
            before.drop_last().push(before.last().push(text.last()))
        }
    }
}

/// The names that `lines` hold: each line trimmed, lines of white space
/// alone left out.
pub open spec fn names_in(lines: Seq<Seq<char>>) -> Seq<Seq<char>>
    decreases lines.len(),
{
    if lines.len() == 0 {
        Seq::<Seq<char>>::empty()
    } else {
        let name = trimmed(lines.last());
        if name.len() > 0 {
            names_in(lines.drop_last()).push(name)
        } else {
            names_in(lines.drop_last())
        }
    }
}

/// The bucket names that a bucket list holds, in its order.
pub open spec fn bucket_names(contents: Seq<char>) -> Seq<Seq<char>> {
    names_in(lines(contents))
}

/// Adds to `names` the name that the line from `from` up to `to` holds, if
/// it holds one.
fn take_name(chars: &Vec<char>, from: usize, to: usize, names: &mut Vec<String>)
    requires
        from <= to <= chars.len(),
    ensures
        texts(final(names)@) == ({
            let name = trimmed(chars@.subrange(from as int, to as int));
            if name.len() > 0 {
                texts(old(names)@).push(name)
            } else {
                texts(old(names)@)
            }
        }),
{
    let (start, end) = trim_bounds(chars, from, to);
    if start < end {
        let name = text_of(chars, start, end);
        names.push(name);
        assert(texts(names@) == texts(old(names)@).push(name@));
    }
}

/// A name that a line holds is not empty, and neither starts nor ends with
/// white space.
pub proof fn lemma_names_are_trimmed(lines: Seq<Seq<char>>)
    ensures
        forall|i: int|
            0 <= i < names_in(lines).len() ==> {
                let name = #[trigger] names_in(lines)[i];
                name.len() > 0 && !is_blank(name.first()) && !is_blank(name.last())
            },
    decreases lines.len(),
{
    if lines.len() > 0 {
        let front = names_in(lines.drop_last());
        lemma_names_are_trimmed(lines.drop_last());
        lemma_trimmed_is_bare(lines.last());
        assert forall|i: int| 0 <= i < names_in(lines).len() implies ({
            let name = #[trigger] names_in(lines)[i];
            name.len() > 0 && !is_blank(name.first()) && !is_blank(name.last())
        }) by {
            if i < front.len() {
                assert(names_in(lines)[i] == front[i]);
            }
        }
    }
}

/// Reads a bucket list: one name per line. Each line is trimmed, and a line
/// that holds white space alone is skipped, so that no name is empty.
pub fn parse_bucket_list(contents: &str) -> (names: Vec<String>)
    ensures
        texts(names@) == bucket_names(contents@),
        forall|i: int| 0 <= i < names.len() ==> (#[trigger] names[i])@.len() > 0,
{
    let chars = chars_of(contents);
    let n = chars.len();
    let mut names: Vec<String> = Vec::new();
    let ghost mut finished: Seq<Seq<char>> = Seq::empty();
    let mut line_start: usize = 0;
    let mut i: usize = 0;
    assert(chars@.take(0) == Seq::<char>::empty());
    assert(lines(chars@.take(0)) == finished.push(chars@.subrange(0, 0)));
    while i < n
        invariant
            n == chars.len(),
            line_start <= i <= n,
            lines(chars@.take(i as int)) == finished.push(
                chars@.subrange(line_start as int, i as int),
            ),
            texts(names@) == names_in(finished),
        decreases n - i,
    {
        let ghost line = chars@.subrange(line_start as int, i as int);
        proof {
            assert(chars@.take(i + 1).drop_last() == chars@.take(i as int));
            assert(finished.push(line).drop_last() == finished);
        }
        if chars[i] == '\n' {
            take_name(&chars, line_start, i, &mut names);
            proof {
                finished = finished.push(line);
                assert(chars@.subrange(i + 1, i + 1) == Seq::<char>::empty());
            }
            line_start = i + 1;
        } else {
            proof {
                assert(line.push(chars@[i as int]) == chars@.subrange(line_start as int, i + 1));
            }
        }
        i += 1;
    }
    take_name(&chars, line_start, n, &mut names);
    proof {
        assert(chars@.take(n as int) == chars@);
        assert(finished.push(chars@.subrange(line_start as int, n as int)).drop_last()
            == finished);
        lemma_names_are_trimmed(lines(contents@));
        assert forall|i: int| 0 <= i < names.len() implies (#[trigger] names[i])@.len() > 0 by {
            assert(bucket_names(contents@)[i] == names[i]@);
        }
    }
    names
}

} // verus!
