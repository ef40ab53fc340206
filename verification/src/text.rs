//! Text helpers: whitespace, trimming, comparison and words.

use vstd::prelude::*;
use vstd::string::StrSliceExecFns;

verus! {

/// Whether `c` has the Unicode property `White_Space`: the tab, the line
/// feed, the vertical tab, the form feed and the carriage return, the
/// space, the next-line control, the no-break space, and the spaces and
/// separators of the general punctuation and of the ideographic block.
pub open spec fn white_space(c: char) -> bool {
    ||| '\u{9}' <= c <= '\u{d}'
    ||| c == '\u{20}'
    ||| c == '\u{85}'
    ||| c == '\u{a0}'
    ||| c == '\u{1680}'
    ||| '\u{2000}' <= c <= '\u{200a}'
    ||| c == '\u{2028}'
    ||| c == '\u{2029}'
    ||| c == '\u{202f}'
    ||| c == '\u{205f}'
    ||| c == '\u{3000}'
}

/// `char::is_whitespace` of the standard library: whether the character
/// has the Unicode property `White_Space`.
#[verifier::external_body]
pub(crate) fn is_whitespace(c: char) -> (result: bool)
    ensures
        result == white_space(c),
{
    c.is_whitespace()
}

/// `text` without the whitespace at its start.
pub open spec fn trimmed_start(text: Seq<char>) -> Seq<char>
    decreases text.len(),
{
    if text.len() > 0 && white_space(text[0]) {
        trimmed_start(text.drop_first())
    } else {
        text
    }
}

/// `text` without the whitespace at its end.
pub open spec fn trimmed_end(text: Seq<char>) -> Seq<char>
    decreases text.len(),
{
    if text.len() > 0 && white_space(text.last()) {
        trimmed_end(text.drop_last())
    } else {
        text
    }
}

/// `text` without the whitespace at its start and at its end.
pub open spec fn trimmed(text: Seq<char>) -> Seq<char> {
    trimmed_end(trimmed_start(text))
}

/// What is left after trimming neither begins nor ends with whitespace.
pub proof fn lemma_trimmed_ends(text: Seq<char>)
    ensures
        trimmed(text).len() > 0 ==> !white_space(trimmed(text)[0]) && !white_space(
            trimmed(text).last(),
        ),
{
    lemma_trimmed_start(text);
    lemma_trimmed_end(trimmed_start(text));
}

/// Trimming the start leaves nothing or a text that begins with something
/// other than whitespace.
proof fn lemma_trimmed_start(text: Seq<char>)
    ensures
        trimmed_start(text).len() > 0 ==> !white_space(trimmed_start(text)[0]),
    decreases text.len(),
{
    if text.len() > 0 && white_space(text[0]) {
        lemma_trimmed_start(text.drop_first());
    }
}

/// Trimming the end leaves the start of the text, and nothing or a text
/// that ends with something other than whitespace.
proof fn lemma_trimmed_end(text: Seq<char>)
    ensures
        trimmed_end(text).len() <= text.len(),
        trimmed_end(text) == text.take(trimmed_end(text).len() as int),
        trimmed_end(text).len() > 0 ==> !white_space(trimmed_end(text).last()),
    decreases text.len(),
{
    if text.len() > 0 && white_space(text.last()) {
        let shorter = text.drop_last();
        lemma_trimmed_end(shorter);
        assert(shorter.take(trimmed_end(shorter).len() as int) == text.take(
            trimmed_end(shorter).len() as int,
        ));
    } else {
        assert(text.take(text.len() as int) == text);
    }
}

/// `str::trim` of the standard library: the slice of `text` that is left
/// when the characters with the property `White_Space` are taken away from
/// both ends.
#[verifier::external_body]
pub(crate) fn trim(text: &str) -> (result: &str)
    ensures
        result@ == trimmed(text@),
{
    text.trim()
}

/// Whether two string slices hold the same characters.
pub fn same_text(left: &str, right: &str) -> (same: bool)
    ensures
        same == (left@ == right@),
{
    left.to_owned() == right.to_owned()
}

/// Whether `c` is one of the decimal digits `0` to `9`.
pub open spec fn is_digit(c: char) -> bool {
    '0' <= c <= '9'
}

/// The value of the decimal digit `c`.
pub open spec fn digit_value(c: char) -> int {
    c as int - '0' as int
}

/// The number that the decimal digits `digits` spell.
pub open spec fn decimal_number(digits: Seq<char>) -> int
    decreases digits.len(),
{
    if digits.len() == 0 {
        0
    } else {
        10 * decimal_number(digits.drop_last()) + digit_value(digits.last())
    }
}

/// The integer that `text` spells: an optional `+` or `-`, then decimal
/// digits, at least one, and nothing else.
pub open spec fn spelled(text: Seq<char>) -> Option<int> {
    let signed = text.len() > 0 && (text[0] == '-' || text[0] == '+');
    let digits = if signed {
        text.drop_first()
    } else {
        text
    };
    if digits.len() > 0 && (forall|i: int| 0 <= i < digits.len() ==> is_digit(digits[i])) {
        if signed && text[0] == '-' {
            Some(-decimal_number(digits))
        } else {
            Some(decimal_number(digits))
        }
    } else {
        None
    }
}

/// The 64-bit integer that `text` spells, if it spells one that fits.
pub open spec fn integer_of(text: Seq<char>) -> Option<i64> {
    match spelled(text) {
        Some(value) => if i64::MIN <= value <= i64::MAX {
            Some(value as i64)
        } else {
            None
        },
        None => None,
    }
}

/// The 32-bit integer that `text` spells, if it spells one that fits.
pub open spec fn small_integer_of(text: Seq<char>) -> Option<i32> {
    match spelled(text) {
        Some(value) => if i32::MIN <= value <= i32::MAX {
            Some(value as i32)
        } else {
            None
        },
        None => None,
    }
}

/// `str::parse` of the standard library for `i64`: the integer that the
/// decimal text spells. Text that is no integer, or one that does not fit in
/// 64 bits, gives nothing.
#[verifier::external_body]
pub(crate) fn parse_i64(text: &str) -> (result: Option<i64>)
    ensures
        result == integer_of(text@),
{
    text.parse::<i64>().ok()
}

/// `str::parse` of the standard library for `i32`: the integer that the
/// decimal text spells. Text that is no integer, or one that does not fit in
/// 32 bits, gives nothing.
#[verifier::external_body]
pub(crate) fn parse_i32(text: &str) -> (result: Option<i32>)
    ensures
        result == small_integer_of(text@),
{
    text.parse::<i32>().ok()
}

/// Position of the first `mark` in `text`; the length of `text` if there
/// is none.
pub open spec fn position_of(text: Seq<char>, mark: char) -> nat
    decreases text.len(),
{
    if text.len() > 0 && text[0] != mark {
        1 + position_of(text.drop_first(), mark)
    } else {
        0
    }
}

/// The position of a mark lies within the text, on the first mark.
pub proof fn lemma_position_of(text: Seq<char>, mark: char)
    ensures
        position_of(text, mark) <= text.len(),
        forall|i: int| 0 <= i < position_of(text, mark) ==> text[i] != mark,
        position_of(text, mark) < text.len() ==> text[position_of(text, mark) as int] == mark,
    decreases text.len(),
{
    if text.len() > 0 && text[0] != mark {
        let rest = text.drop_first();
        lemma_position_of(rest, mark);
        assert forall|i: int| 0 <= i < position_of(text, mark) implies text[i] != mark by {
            if i > 0 {
                assert(text[i] == rest[i - 1]);
            }
        }
        if position_of(text, mark) < text.len() {
            assert(text[position_of(text, mark) as int] == rest[position_of(rest, mark) as int]);
        }
    }
}

/// The parts of `text` between the marks `mark`: at least one part, and
/// one more for each mark.
pub open spec fn parts_of(text: Seq<char>, mark: char) -> Seq<Seq<char>>
    decreases text.len(),
{
    let cut = position_of(text, mark) as int;
    if cut >= text.len() {
        seq![text]
    } else {
        seq![text.take(cut)] + parts_of(text.skip(cut + 1), mark)
    }
}

/// First position from `from` on at which `chars` holds `mark`; the length
/// if there is none.
fn find_mark(chars: &Vec<char>, from: usize, mark: char) -> (to: usize)
    requires
        from <= chars@.len(),
    ensures
        to == from + position_of(chars@.skip(from as int), mark),
        from <= to <= chars@.len(),
{
    let mut to = from;
    while to < chars.len() && chars[to] != mark
        invariant
            from <= to <= chars@.len(),
            forall|i: int| from <= i < to ==> chars@[i] != mark,
        decreases chars@.len() - to,
    {
        to = to + 1;
    }
    proof {
        let rest = chars@.skip(from as int);
        lemma_position_of(rest, mark);
        let found = position_of(rest, mark) as int;
        if found < to - from {
            assert(rest[found] == chars@[from + found]);
        }
        if found > to - from {
            assert(rest[to - from] == chars@[to as int]);
        }
    }
    to
}

/// Splits `text` at every `mark`.
pub fn parts(text: &str, mark: char) -> (result: Vec<&str>)
    ensures
        texts(result@) == parts_of(text@, mark),
{
    let chars = characters(text);
    let length = chars.len();
    let mut result: Vec<&str> = Vec::new();
    let mut start: usize = 0;
    proof {
        assert(text@.skip(0) == text@);
        assert(texts(result@) == Seq::<Seq<char>>::empty());
        assert(Seq::<Seq<char>>::empty() + parts_of(text@, mark) == parts_of(text@, mark));
    }
    loop
        invariant_except_break
            start <= length,
            parts_of(text@, mark) == texts(result@) + parts_of(text@.skip(start as int), mark),
        invariant
            length == text@.len(),
            chars@ == text@,
        ensures
            texts(result@) == parts_of(text@, mark),
        decreases length - start,
    {
        let end = find_mark(&chars, start, mark);
        let part = text.substring_char(start, end);
        let ghost before = result@;
        let ghost rest = text@.skip(start as int);
        result.push(part);
        proof {
            assert(texts(result@) == texts(before).push(part@));
            assert(rest.take(end - start) == text@.subrange(start as int, end as int));
        }
        if end >= length {
            proof {
                assert(rest.take(rest.len() as int) == rest);
                assert(texts(before) + seq![part@] == texts(before).push(part@));
            }
            break ;
        }
        proof {
            assert(rest.skip(end - start + 1) == text@.skip(end + 1));
            assert(texts(before) + (seq![part@] + parts_of(text@.skip(end + 1), mark)) == texts(
                before,
            ).push(part@) + parts_of(text@.skip(end + 1), mark));
        }
        start = end + 1;
    }
    result
}

/// Whether nothing is left of `text` after trimming: it has whitespace only.
pub open spec fn blank(text: Seq<char>) -> bool {
    forall|i: int| 0 <= i < text.len() ==> white_space(#[trigger] text[i])
}

/// Whether `text` has whitespace only.
pub fn is_blank(text: &str) -> (result: bool)
    ensures
        result == blank(text@),
{
    let mut result = true;
    for c in it: text.chars()
        invariant
            it.seq() == text@,
            result == blank(text@.take(it.index())),
    {
        let ghost before = text@.take(it.index());
        let ghost after = text@.take(it.index() + 1);
        assert(after == before.push(c));
        assert(blank(after) == (blank(before) && white_space(c))) by {
            if blank(before) && white_space(c) {
                assert forall|i: int| 0 <= i < after.len() implies white_space(
                    #[trigger] after[i],
                ) by {
                    if i < before.len() {
                        assert(after[i] == before[i]);
                    }
                }
            }
            if blank(after) {
                assert(after[before.len() as int] == c);
                assert forall|i: int| 0 <= i < before.len() implies white_space(
                    #[trigger] before[i],
                ) by {
                    assert(before[i] == after[i]);
                }
            }
        }
        if !is_whitespace(c) {
            result = false;
        }
    }
    assert(text@.take(text@.len() as int) == text@);
    result
}

/// Length of the longest prefix of `text` whose characters are all
/// whitespace (`space` is true) or all something else (`space` is false).
pub open spec fn span(text: Seq<char>, space: bool) -> nat
    decreases text.len(),
{
    if text.len() > 0 && white_space(text[0]) == space {
        1 + span(text.drop_first(), space)
    } else {
        0
    }
}

/// A span lies within its text.
pub proof fn lemma_span_bound(text: Seq<char>, space: bool)
    ensures
        span(text, space) <= text.len(),
    decreases text.len(),
{
    if text.len() > 0 && white_space(text[0]) == space {
        lemma_span_bound(text.drop_first(), space);
    }
}

/// The words of `text`: its longest runs of characters that are not
/// whitespace, from left to right.
pub open spec fn words_of(text: Seq<char>) -> Seq<Seq<char>>
    decreases text.len(),
{
    let rest = text.skip(span(text, true) as int);
    let length = span(rest, false) as int;
    if length == 0 {
        Seq::empty()
    } else {
        proof {
            lemma_span_bound(text, true);
            lemma_span_bound(rest, false);
        }
        seq![rest.take(length)] + words_of(rest.skip(length))
    }
}

/// The characters of a list of slices.
pub open spec fn texts(slices: Seq<&str>) -> Seq<Seq<char>> {
    slices.map_values(|slice: &str| slice@)
}

/// A run of one kind that ends before a character of the other kind, or at
/// the end of the text, is the span.
proof fn lemma_span(text: Seq<char>, space: bool, length: int)
    requires
        0 <= length <= text.len(),
        forall|i: int| 0 <= i < length ==> white_space(#[trigger] text[i]) == space,
        length < text.len() ==> white_space(text[length]) != space,
    ensures
        span(text, space) == length,
    decreases text.len(),
{
    if length > 0 {
        let rest = text.drop_first();
        assert forall|i: int| 0 <= i < length - 1 implies white_space(#[trigger] rest[i])
            == space by {
            assert(rest[i] == text[i + 1]);
        }
        assert(length - 1 < rest.len() ==> rest[length - 1] == text[length]);
        lemma_span(rest, space, length - 1);
    }
}

/// The characters of `text`, one by one.
fn characters(text: &str) -> (result: Vec<char>)
    ensures
        result@ == text@,
{
    let mut result: Vec<char> = Vec::new();
    for c in it: text.chars()
        invariant
            it.seq() == text@,
            result@ == text@.take(it.index()),
    {
        assert(text@.take(it.index() + 1) == text@.take(it.index()).push(c));
        result.push(c);
    }
    assert(text@.take(text@.len() as int) == text@);
    result
}

/// First index from `from` on at which `chars` holds whitespace (`space` is
/// false) or something else (`space` is true); the length if there is none.
fn skip_span(chars: &Vec<char>, from: usize, space: bool) -> (to: usize)
    requires
        from <= chars@.len(),
    ensures
        to == from + span(chars@.skip(from as int), space),
        from <= to <= chars@.len(),
        to < chars@.len() ==> white_space(chars@[to as int]) != space,
{
    let mut to = from;
    while to < chars.len() && is_whitespace(chars[to]) == space
        invariant
            from <= to <= chars@.len(),
            forall|i: int| from <= i < to ==> white_space(#[trigger] chars@[i]) == space,
        decreases chars@.len() - to,
    {
        to = to + 1;
    }
    proof {
        let rest = chars@.skip(from as int);
        assert forall|i: int| 0 <= i < to - from implies white_space(#[trigger] rest[i])
            == space by {
            assert(rest[i] == chars@[from + i]);
        }
        lemma_span(rest, space, to - from);
    }
    to
}

/// Splits `text` into its words.
pub fn words(text: &str) -> (result: Vec<&str>)
    ensures
        texts(result@) == words_of(text@),
{
    let chars = characters(text);
    let length = chars.len();
    let mut result: Vec<&str> = Vec::new();
    let mut index: usize = 0;
    proof {
        assert(text@.skip(0) == text@);
        assert(texts(result@) == Seq::<Seq<char>>::empty());
        assert(Seq::<Seq<char>>::empty() + words_of(text@) == words_of(text@));
    }
    while index < length
        invariant
            index <= length,
            length == text@.len(),
            chars@ == text@,
            words_of(text@) == texts(result@) + words_of(text@.skip(index as int)),
        decreases length - index,
    {
        let start = skip_span(&chars, index, true);
        let end = skip_span(&chars, start, false);
        let ghost here = text@.skip(index as int);
        let ghost rest = here.skip(span(here, true) as int);
        proof {
            assert(rest == text@.skip(start as int));
            assert(rest.take(end - start) == text@.subrange(start as int, end as int));
            assert(rest.skip(end - start) == text@.skip(end as int));
            if start == index {
                assert(!white_space(here[0]));
            }
        }
        if end > start {
            let word = text.substring_char(start, end);
            let ghost before = result@;
            result.push(word);
            proof {
                assert(texts(result@) == texts(before).push(word@));
                assert(texts(before) + (seq![word@] + words_of(text@.skip(end as int)))
                    == texts(before).push(word@) + words_of(text@.skip(end as int)));
            }
        } else {
            proof {
                if start < length {
                    assert(text@.skip(start as int)[0] == text@[start as int]);
                }
                assert(end == length);
                assert(text@.skip(end as int).len() == 0);
                assert(span(text@.skip(end as int), true) == 0);
                assert(text@.skip(end as int).skip(0) == text@.skip(end as int));
                assert(words_of(text@.skip(end as int)) == Seq::<Seq<char>>::empty());
            }
        }
        index = end;
    }
    proof {
        let none = text@.skip(index as int);
        assert(none.len() == 0);
        assert(none.skip(0) == none);
        assert(words_of(none) == Seq::<Seq<char>>::empty());
        assert(texts(result@) + Seq::<Seq<char>>::empty() == texts(result@));
    }
    result
}

} // verus!
