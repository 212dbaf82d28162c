//! Text as the library handles it: sequences of characters, white space,
//! and trimming.

use vstd::prelude::*;

verus! {

/// `c` is white space: a character that Unicode marks `White_Space`.
pub open spec fn is_blank(c: char) -> bool {
    let code = c as u32;
    ||| 0x09 <= code <= 0x0D
    ||| code == 0x20
    ||| code == 0x85
    ||| code == 0xA0
    ||| code == 0x1680
    ||| 0x2000 <= code <= 0x200A
    ||| code == 0x2028
    ||| code == 0x2029
    ||| code == 0x202F
    ||| code == 0x205F
    ||| code == 0x3000
}

/// `text` without the white space it starts with.
pub open spec fn without_leading_blanks(text: Seq<char>) -> Seq<char>
    decreases text.len(),
{
    if text.len() > 0 && is_blank(text.first()) {
        without_leading_blanks(text.drop_first())
    } else {
        text
    }
}

/// `text` without the white space it ends with.
pub open spec fn without_trailing_blanks(text: Seq<char>) -> Seq<char>
    decreases text.len(),
{
    if text.len() > 0 && is_blank(text.last()) {
        without_trailing_blanks(text.drop_last())
    } else {
        text
    }
}

/// `text` without the white space around it.
pub open spec fn trimmed(text: Seq<char>) -> Seq<char> {
    without_trailing_blanks(without_leading_blanks(text))
}

/// The texts of `names`.
pub open spec fn texts(names: Seq<String>) -> Seq<Seq<char>> {
    names.map_values(|name: String| name@)
}

/// Tells whether `c` is white space.
pub fn is_whitespace(c: char) -> (blank: bool)
    ensures
        blank == is_blank(c),
{
    let code: u32 = c as u32;
    (0x09 <= code && code <= 0x0D) || code == 0x20 || code == 0x85 || code == 0xA0 || code
        == 0x1680 || (0x2000 <= code && code <= 0x200A) || code == 0x2028 || code == 0x2029
        || code == 0x202F || code == 0x205F || code == 0x3000
}

/// The characters of `text`.
pub(crate) fn chars_of(text: &str) -> (chars: Vec<char>)
    ensures
        chars@ == text@,
{
    let mut chars: Vec<char> = Vec::new();
    for c in it: text.chars()
        invariant
            it.seq() == text@,
            chars@ == text@.take(it.index() as int),
    {
        chars.push(c);
    }
    assert(text@.take(text@.len() as int) == text@);
    chars
}

/// Taken on trust of std's `String::push`: afterwards the text is what it
/// was before with `ch` added at its end.
pub assume_specification[ String::push ](text: &mut String, ch: char)
    ensures
        final(text)@ == old(text)@.push(ch),
;

/// The text that the characters from `from` up to `to` make.
pub(crate) fn text_of(chars: &Vec<char>, from: usize, to: usize) -> (text: String)
    requires
        from <= to <= chars.len(),
    ensures
        text@ == chars@.subrange(from as int, to as int),
{
    let mut text = String::new();
    let mut i: usize = from;
    while i < to
        invariant
            from <= i <= to <= chars.len(),
            text@ == chars@.subrange(from as int, i as int),
        decreases to - i,
    {
        text.push(chars[i]);
        i += 1;
        assert(chars@.subrange(from as int, i as int) == chars@.subrange(
            from as int,
            i - 1,
        ).push(chars@[i - 1]));
    }
    text
}

/// Where, between `from` and `to`, the text without the white space around
/// it starts and ends.
pub(crate) fn trim_bounds(chars: &Vec<char>, from: usize, to: usize) -> (bounds: (usize, usize))
    requires
        from <= to <= chars.len(),
    ensures
        from <= bounds.0 <= bounds.1 <= to,
        chars@.subrange(bounds.0 as int, bounds.1 as int) == trimmed(
            chars@.subrange(from as int, to as int),
        ),
{
    let mut start: usize = from;
    while start < to && is_whitespace(chars[start])
        invariant
            from <= start <= to <= chars.len(),
            without_leading_blanks(chars@.subrange(from as int, to as int))
                == without_leading_blanks(chars@.subrange(start as int, to as int)),
        decreases to - start,
    {
        assert(chars@.subrange(start as int, to as int).drop_first() == chars@.subrange(
            start + 1,
            to as int,
        ));
        start += 1;
    }
    let mut end: usize = to;
    while end > start && is_whitespace(chars[end - 1])
        invariant
            start <= end <= to <= chars.len(),
            without_trailing_blanks(chars@.subrange(start as int, to as int))
                == without_trailing_blanks(chars@.subrange(start as int, end as int)),
        decreases end - start,
    {
        assert(chars@.subrange(start as int, end as int).drop_last() == chars@.subrange(
            start as int,
            end - 1,
        ));
        end -= 1;
    }
    (start, end)
}

/// `text` without the white space around it.
pub fn trim(text: &str) -> (res: String)
    ensures
        res@ == trimmed(text@),
{
    let chars = chars_of(text);
    let n = chars.len();
    assert(chars@.subrange(0, n as int) == text@);
    let (start, end) = trim_bounds(&chars, 0, n);
    text_of(&chars, start, end)
}

/// A trimmed text is empty, or neither starts nor ends with white space.
pub proof fn lemma_trimmed_is_bare(text: Seq<char>)
    ensures
        trimmed(text).len() > 0 ==> !is_blank(trimmed(text).first()) && !is_blank(
            trimmed(text).last(),
        ),
{
    let inner = without_leading_blanks(text);
    lemma_leading_stripped(text);
    lemma_trailing_stripped(inner);
}

/// What is left after the leading white space is gone is the end of the
/// text, and does not start with white space.
proof fn lemma_leading_stripped(text: Seq<char>)
    ensures
        ({
            let rest = without_leading_blanks(text);
            &&& rest.len() <= text.len()
            &&& rest == text.subrange(text.len() - rest.len(), text.len() as int)
            &&& rest.len() > 0 ==> !is_blank(rest.first())
        }),
    decreases text.len(),
{
    if text.len() > 0 && is_blank(text.first()) {
        let tail = text.drop_first();
        lemma_leading_stripped(tail);
        let rest = without_leading_blanks(tail);
        assert(tail.subrange(tail.len() - rest.len(), tail.len() as int) == text.subrange(
            text.len() - rest.len(),
            text.len() as int,
        ));
    } else {
        assert(text == text.subrange(0, text.len() as int));
    }
}

/// What is left after the trailing white space is gone is the start of the
/// text, and does not end with white space.
proof fn lemma_trailing_stripped(text: Seq<char>)
    ensures
        ({
            let rest = without_trailing_blanks(text);
            &&& rest.len() <= text.len()
            &&& rest == text.subrange(0, rest.len() as int)
            &&& rest.len() > 0 ==> !is_blank(rest.last())
        }),
    decreases text.len(),
{
    if text.len() > 0 && is_blank(text.last()) {
        let front = text.drop_last();
        lemma_trailing_stripped(front);
        let rest = without_trailing_blanks(front);
        assert(front.subrange(0, rest.len() as int) == text.subrange(0, rest.len() as int));
    } else {
        assert(text == text.subrange(0, text.len() as int));
    }
}

} // verus!
