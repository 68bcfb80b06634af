//! Text as sequences of characters: the searches that the scanner is built on.
//!
//! Every search is stated over `Seq<char>`, the view of `str` and of a slice of
//! characters, and implemented on slices so that a position is an index.

use vstd::prelude::*;
use vstd::slice::slice_subrange;

verus! {

/// `needle` stands in `hay` with its first character at offset `at`.
pub open spec fn occurs_at(hay: Seq<char>, needle: Seq<char>, at: int) -> bool {
    &&& 0 <= at
    &&& at + needle.len() <= hay.len()
    &&& hay.subrange(at, at + needle.len()) == needle
}

/// `needle` stands somewhere in `hay`. The empty needle stands in every text.
pub open spec fn contains(hay: Seq<char>, needle: Seq<char>) -> bool {
    exists|at: int| occurs_at(hay, needle, at)
}

/// The number of occurrences of `needle` in `hay` that a reader finds who goes
/// from left to right and, after each occurrence, goes on behind its last
/// character: the occurrences counted do not overlap. The empty needle is
/// counted nowhere.
pub open spec fn count_occurrences(hay: Seq<char>, needle: Seq<char>) -> nat
    decreases hay.len(),
{
    if needle.len() == 0 || hay.len() < needle.len() {
        0
    } else if occurs_at(hay, needle, 0) {
        1 + count_occurrences(hay.skip(needle.len() as int), needle)
    } else {
        count_occurrences(hay.skip(1), needle)
    }
}

/// The offset of the first `mark` in `text`, or the length of `text` where it
/// holds none.
pub open spec fn position(text: Seq<char>, mark: char) -> nat
    decreases text.len(),
{
    if text.len() == 0 || text[0] == mark {
        0
    } else {
        1 + position(text.skip(1), mark)
    }
}

/// The characters with the Unicode property `White_Space`.
pub open spec fn is_space(c: char) -> bool {
    let code = c as u32;
    ||| 0x09 <= code <= 0x0d
    ||| code == 0x20
    ||| code == 0x85
    ||| code == 0xa0
    ||| code == 0x1680
    ||| 0x2000 <= code <= 0x200a
    ||| code == 0x2028
    ||| code == 0x2029
    ||| code == 0x202f
    ||| code == 0x205f
    ||| code == 0x3000
}

/// The number of white-space characters that `text` begins with.
pub open spec fn leading_space(text: Seq<char>) -> nat
    decreases text.len(),
{
    if text.len() == 0 || !is_space(text[0]) {
        0
    } else {
        1 + leading_space(text.skip(1))
    }
}

/// `text` without the white space that it begins with.
pub open spec fn trim_start(text: Seq<char>) -> Seq<char> {
    text.skip(leading_space(text) as int)
}

/// The number of white-space characters that `text` ends with.
pub open spec fn trailing_space(text: Seq<char>) -> nat
    decreases text.len(),
{
    if text.len() == 0 || !is_space(text.last()) {
        0
    } else {
        1 + trailing_space(text.drop_last())
    }
}

/// `text` without the white space at its start and at its end.
pub open spec fn trim(text: Seq<char>) -> Seq<char> {
    let rest = trim_start(text);
    rest.take(rest.len() - trailing_space(rest))
}

/// The pieces between the line feeds of `text`, in order. A text without a line
/// feed is one line, the empty text too; a text that ends in a line feed ends
/// in an empty line.
pub open spec fn lines(text: Seq<char>) -> Seq<Seq<char>>
    decreases text.len(),
{
    let cut = position(text, '\n');
    if cut >= text.len() {
        seq![text]
    } else {
        seq![text.take(cut as int)] + lines(text.skip(cut as int + 1))
    }
}

/// `position` is the least offset that holds the mark.
pub proof fn lemma_position(text: Seq<char>, mark: char)
    ensures
        position(text, mark) <= text.len(),
        position(text, mark) < text.len() ==> text[position(text, mark) as int] == mark,
        forall|i: int| 0 <= i < position(text, mark) ==> text[i] != mark,
    decreases text.len(),
{
    if text.len() == 0 || text[0] == mark {
    } else {
        let rest = text.skip(1);
        lemma_position(rest, mark);
        assert forall|i: int| 0 <= i < position(text, mark) implies text[i] != mark by {
            if i > 0 {
                assert(rest[i - 1] == text[i]);
            }
        }
    }
}

/// A mark stands in a text exactly where `position` stops short of the end.
pub proof fn lemma_position_finds(text: Seq<char>, mark: char)
    ensures
        text.contains(mark) <==> position(text, mark) < text.len(),
{
    lemma_position(text, mark);
    if text.contains(mark) {
        let i = choose|i: int| 0 <= i < text.len() && text[i] == mark;
        assert(position(text, mark) <= i);
    }
}

/// `leading_space` is the length of the longest prefix of white space.
pub proof fn lemma_leading_space(text: Seq<char>)
    ensures
        leading_space(text) <= text.len(),
        leading_space(text) < text.len() ==> !is_space(text[leading_space(text) as int]),
        forall|i: int| 0 <= i < leading_space(text) ==> is_space(text[i]),
    decreases text.len(),
{
    if text.len() == 0 || !is_space(text[0]) {
    } else {
        let rest = text.skip(1);
        lemma_leading_space(rest);
        assert forall|i: int| 0 <= i < leading_space(text) implies is_space(text[i]) by {
            if i > 0 {
                assert(rest[i - 1] == text[i]);
            }
        }
    }
}

/// `trim_start` takes the white space from the start of a text and nothing
/// else: what it leaves is the end of the text, and does not begin with white
/// space.
pub proof fn lemma_trim_start(text: Seq<char>)
    ensures
        text == text.take(leading_space(text) as int) + trim_start(text),
        forall|i: int| 0 <= i < leading_space(text) ==> is_space(text[i]),
        trim_start(text).len() > 0 ==> !is_space(trim_start(text)[0]),
{
    lemma_leading_space(text);
    assert(text =~= text.take(leading_space(text) as int) + trim_start(text));
}

/// The white space at the end of a text is part of the text, so that `trim`
/// leaves a text with which `trim_start` of the same text begins.
pub proof fn lemma_trim(text: Seq<char>)
    ensures
        trailing_space(text) <= text.len(),
        trim(text).is_prefix_of(trim_start(text)),
        occurs_at(trim_start(text), trim(text), 0),
{
    let rest = trim_start(text);
    lemma_trailing_space(text);
    lemma_trailing_space(rest);
    assert(rest.subrange(0, trim(text).len() as int) =~= trim(text));
}

/// The white space at the end of a text is no longer than the text.
proof fn lemma_trailing_space(text: Seq<char>)
    ensures
        trailing_space(text) <= text.len(),
    decreases text.len(),
{
    if text.len() > 0 && is_space(text.last()) {
        lemma_trailing_space(text.drop_last());
    }
}

/// An occurrence in a part of a text is an occurrence in the text, moved by
/// the offset of the part.
pub proof fn lemma_occurs_in_part(hay: Seq<char>, needle: Seq<char>, from: int, to: int, at: int)
    requires
        0 <= from <= to <= hay.len(),
        0 <= at,
    ensures
        occurs_at(hay.subrange(from, to), needle, at) <==> occurs_at(hay, needle, from + at) && from
            + at + needle.len() <= to,
{
    let part = hay.subrange(from, to);
    if at + needle.len() <= part.len() {
        assert(part.subrange(at, at + needle.len()) =~= hay.subrange(
            from + at,
            from + at + needle.len(),
        ));
    }
}

/// A needle that is not empty is counted in a text exactly if it stands
/// there, and the occurrences counted have room in the text side by side.
pub proof fn lemma_count(hay: Seq<char>, needle: Seq<char>)
    requires
        needle.len() > 0,
    ensures
        count_occurrences(hay, needle) > 0 <==> contains(hay, needle),
        count_occurrences(hay, needle) * needle.len() <= hay.len(),
    decreases hay.len(),
{
    let n = needle.len() as int;
    let total = count_occurrences(hay, needle) as int;
    if hay.len() < n {
        assert(total * n == 0) by (nonlinear_arith)
            requires
                total == 0,
        ;
    } else if occurs_at(hay, needle, 0) {
        let rest = hay.skip(n);
        let found = count_occurrences(rest, needle) as int;
        lemma_count(rest, needle);
        assert(total * n == n + found * n) by (nonlinear_arith)
            requires
                total == 1 + found,
        ;
    } else {
        let rest = hay.skip(1);
        let found = count_occurrences(rest, needle) as int;
        lemma_count(rest, needle);
        assert(total * n == found * n) by (nonlinear_arith)
            requires
                total == found,
        ;
        assert(rest =~= hay.subrange(1, hay.len() as int));
        if contains(hay, needle) {
            let at = choose|at: int| occurs_at(hay, needle, at);
            lemma_occurs_in_part(hay, needle, 1, hay.len() as int, at - 1);
            assert(occurs_at(rest, needle, at - 1));
        }
        if contains(rest, needle) {
            let at = choose|at: int| occurs_at(rest, needle, at);
            lemma_occurs_in_part(hay, needle, 1, hay.len() as int, at);
            assert(occurs_at(hay, needle, at + 1));
        }
    }
}

/// Copies the characters of `text` into a vector, so that they can be indexed.
pub fn to_chars(text: &str) -> (chars: Vec<char>)
    ensures
        chars@ == text@,
{
    let mut chars: Vec<char> = Vec::new();
    for c in rest: text.chars()
        invariant
            chars@ == rest.seq().take(rest.index() as int),
            rest.seq() == text@,
    {
        chars.push(c);
    }
    chars
}

/// `String::push` of std, which appends one character to the end of the
/// string and leaves what stood there as it was.
#[verifier::external_body]
fn push_char(text: &mut String, c: char)
    ensures
        final(text)@ == old(text)@.push(c),
{
    text.push(c)
}

/// The string that holds the characters of `chars`.
pub fn string_of(chars: &[char]) -> (text: String)
    ensures
        text@ == chars@,
{
    let mut text = String::new();
    let mut at: usize = 0;
    while at < chars.len()
        invariant
            at <= chars.len(),
            text@ == chars@.take(at as int),
        decreases chars.len() - at,
    {
        push_char(&mut text, chars[at]);
        assert(chars@.take(at + 1) =~= chars@.take(at as int).push(chars@[at as int]));
        at += 1;
    }
    assert(chars@.take(chars@.len() as int) =~= chars@);
    text
}

/// Whether `c` is white space.
pub fn is_whitespace(c: char) -> (space: bool)
    ensures
        space == is_space(c),
{
    let code: u32 = c as u32;
    (0x09 <= code && code <= 0x0d) || code == 0x20 || code == 0x85 || code == 0xa0 || code
        == 0x1680 || (0x2000 <= code && code <= 0x200a) || code == 0x2028 || code == 0x2029 || code
        == 0x202f || code == 0x205f || code == 0x3000
}

/// Whether `needle` stands in `hay` at offset `at`.
pub fn starts_at(hay: &[char], needle: &[char], at: usize) -> (found: bool)
    ensures
        found == occurs_at(hay@, needle@, at as int),
{
    if needle.len() > hay.len() || at > hay.len() - needle.len() {
        return false;
    }
    let mut k: usize = 0;
    while k < needle.len()
        invariant
            k <= needle.len(),
            at + needle.len() <= hay.len(),
            forall|j: int| 0 <= j < k ==> hay@[at + j] == needle@[j],
        decreases needle.len() - k,
    {
        if hay[at + k] != needle[k] {
            assert(hay@.subrange(at as int, at + needle.len())[k as int] != needle@[k as int]);
            return false;
        }
        k += 1;
    }
    assert(hay@.subrange(at as int, at + needle.len()) =~= needle@);
    true
}

/// The offset of the first occurrence of `needle` in `hay`, if there is one.
pub fn find(hay: &[char], needle: &[char]) -> (found: Option<usize>)
    ensures
        found is Some <==> contains(hay@, needle@),
        found matches Some(at) ==> occurs_at(hay@, needle@, at as int) && forall|earlier: int|
            0 <= earlier < at ==> !occurs_at(hay@, needle@, earlier),
{
    if needle.len() > hay.len() {
        return None;
    }
    let last: usize = hay.len() - needle.len();
    let mut at: usize = 0;
    loop
        invariant
            at <= last,
            last == hay.len() - needle.len(),
            forall|earlier: int| 0 <= earlier < at ==> !occurs_at(hay@, needle@, earlier),
        decreases last - at,
    {
        if starts_at(hay, needle, at) {
            return Some(at);
        }
        if at == last {
            return None;
        }
        at += 1;
    }
}

/// Whether `needle` stands somewhere in `hay`.
pub fn includes(hay: &[char], needle: &[char]) -> (found: bool)
    ensures
        found == contains(hay@, needle@),
{
    find(hay, needle).is_some()
}

/// Counts the occurrences of `needle` in `hay` from left to right, none of them
/// overlapping the one before.
pub fn count(hay: &[char], needle: &[char]) -> (total: usize)
    ensures
        total == count_occurrences(hay@, needle@),
{
    let mut total: usize = 0;
    if needle.len() == 0 || needle.len() > hay.len() {
        return total;
    }
    let last: usize = hay.len() - needle.len();
    let mut at: usize = 0;
    assert(hay@.skip(0) =~= hay@);
    while at <= last
        invariant
            needle.len() > 0,
            last == hay.len() - needle.len(),
            at <= hay.len(),
            total <= at,
            count_occurrences(hay@, needle@) == total + count_occurrences(
                hay@.skip(at as int),
                needle@,
            ),
        decreases hay.len() - at,
    {
        let ghost rest = hay@.skip(at as int);
        proof {
            lemma_occurs_in_part(hay@, needle@, at as int, hay.len() as int, 0);
            assert(rest =~= hay@.subrange(at as int, hay.len() as int));
        }
        if starts_at(hay, needle, at) {
            assert(rest.skip(needle.len() as int) =~= hay@.skip(at + needle.len()));
            total += 1;
            at += needle.len();
        } else {
            assert(rest.skip(1) =~= hay@.skip(at + 1));
            at += 1;
        }
    }
    total
}

/// The offset of the first `mark` in `text`, or the length of `text`.
pub fn find_char(text: &[char], mark: char) -> (at: usize)
    ensures
        at == position(text@, mark),
        at <= text@.len(),
{
    let mut at: usize = 0;
    assert(text@.skip(0) =~= text@);
    while at < text.len() && text[at] != mark
        invariant
            at <= text.len(),
            position(text@, mark) == at + position(text@.skip(at as int), mark),
        decreases text.len() - at,
    {
        assert(text@.skip(at as int).skip(1) =~= text@.skip(at + 1));
        at += 1;
    }
    at
}

/// The number of white-space characters that `text` begins with.
pub fn skip_space(text: &[char]) -> (at: usize)
    ensures
        at == leading_space(text@),
        at <= text@.len(),
{
    let mut at: usize = 0;
    assert(text@.skip(0) =~= text@);
    while at < text.len() && is_whitespace(text[at])
        invariant
            at <= text.len(),
            leading_space(text@) == at + leading_space(text@.skip(at as int)),
        decreases text.len() - at,
    {
        assert(text@.skip(at as int).skip(1) =~= text@.skip(at + 1));
        at += 1;
    }
    at
}

/// The lines of `text`, each as the offsets of its first character and of the
/// line feed (or the end of the text) behind its last: the first line begins
/// at the start of the text, each other line behind the line feed that ends
/// the line before it, and the last line ends with the text.
pub fn line_bounds(text: &[char]) -> (bounds: Vec<(usize, usize)>)
    ensures
        bounds@.len() == lines(text@).len(),
        bounds@[0].0 == 0,
        bounds@.last().1 == text@.len(),
        forall|i: int| 0 < i < bounds@.len() ==> (#[trigger] bounds@[i]).0 == bounds@[i - 1].1 + 1,
        forall|i: int|
            #![trigger bounds@[i]]
            0 <= i < bounds@.len() ==> {
                &&& bounds@[i].0 <= bounds@[i].1 <= text@.len()
                &&& lines(text@)[i] == text@.subrange(bounds@[i].0 as int, bounds@[i].1 as int)
            },
{
    let mut bounds: Vec<(usize, usize)> = Vec::new();
    let mut start: usize = 0;
    assert(text@.skip(0) =~= text@);
    loop
        invariant_except_break
            start <= text.len(),
            bounds@.len() <= lines(text@).len(),
            lines(text@) =~= lines(text@).take(bounds@.len() as int) + lines(
                text@.skip(start as int),
            ),
            bounds@.len() == 0 ==> start == 0,
            bounds@.len() > 0 ==> start == bounds@.last().1 + 1,
        invariant
            bounds@.len() > 0 ==> bounds@[0].0 == 0,
            forall|i: int|
                0 < i < bounds@.len() ==> (#[trigger] bounds@[i]).0 == bounds@[i - 1].1 + 1,
            forall|i: int|
                #![trigger bounds@[i]]
                0 <= i < bounds@.len() ==> {
                    &&& bounds@[i].0 <= bounds@[i].1 <= text@.len()
                    &&& lines(text@)[i] == text@.subrange(bounds@[i].0 as int, bounds@[i].1 as int)
                },
        ensures
            bounds@.len() == lines(text@).len(),
            bounds@.len() > 0,
            bounds@.last().1 == text@.len(),
        decreases text.len() - start,
    {
        let rest = slice_subrange(text, start, text.len());
        let cut = find_char(rest, '\n');
        let ghost done = bounds@.len() as int;
        let ghost all = lines(text@);
        proof {
            assert(rest@ =~= text@.skip(start as int));
            lemma_position(rest@, '\n');
            assert(rest@.take(cut as int) =~= text@.subrange(start as int, start + cut));
            assert(rest@.take(rest@.len() as int) =~= rest@);
            assert(all.len() == done + lines(rest@).len());
            assert(all[done] == lines(rest@)[0]);
        }
        bounds.push((start, start + cut));
        if cut >= rest.len() {
            break ;
        }
        proof {
            let tail = lines(rest@.skip(cut + 1));
            assert(rest@.skip(cut + 1) =~= text@.skip(start + cut + 1));
            assert(all.len() == done + 1 + tail.len());
            assert forall|i: int| 0 <= i < all.len() implies all[i] == (all.take(done + 1)
                + tail)[i] by {
                if i > done {
                    assert(all[i] == lines(rest@)[i - done]);
                }
            }
        }
        start = start + cut + 1;
    }
    bounds
}

} // verus!
