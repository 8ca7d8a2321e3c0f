//! Text helpers: the characters of a line, trimming, and splitting a line
//! into its blank-separated fields.

use vstd::prelude::*;

verus! {

/// The characters of `text`, in order.
pub fn characters(text: &str) -> (chars: Vec<char>)
    ensures
        chars@ == text@,
{
    let mut chars: Vec<char> = Vec::new();
    for c in it: text.chars()
        invariant
            it.seq() == text@,
            chars@ == text@.take(it.index() as int),
    {
        chars.push(c);
    }
    chars
}

/// The views of a sequence of string slices.
pub open spec fn slice_texts(parts: Seq<&str>) -> Seq<Seq<char>> {
    Seq::new(parts.len(), |i: int| parts[i]@)
}

/// A blank separates fields: space, tab, line feed, form feed or carriage
/// return.
pub open spec fn blank(c: char) -> bool {
    c == ' ' || c == '\t' || c == '\n' || c == '\x0C' || c == '\r'
}

/// Tells whether `c` separates fields.
pub fn is_blank(c: char) -> (b: bool)
    ensures
        b == blank(c),
{
    c == ' ' || c == '\t' || c == '\n' || c == '\x0C' || c == '\r'
}

/// The length of the longest prefix of `s` that holds no blank.
pub open spec fn word_len(s: Seq<char>) -> nat
    decreases s.len(),
{
    if s.len() > 0 && !blank(s[0]) {
        1 + word_len(s.drop_first())
    } else {
        0
    }
}

/// The fields of a line: its maximal runs of characters that are not blank,
/// in the order in which they stand.
pub open spec fn fields(s: Seq<char>) -> Seq<Seq<char>>
    decreases s.len(),
    via fields_decreases
{
    if s.len() == 0 {
        Seq::empty()
    } else if blank(s[0]) {
        fields(s.drop_first())
    } else {
        seq![s.take(word_len(s) as int)] + fields(s.skip(word_len(s) as int))
    }
}

#[via_fn]
proof fn fields_decreases(s: Seq<char>) {
    lemma_word_len_bound(s);
}

/// A word is no longer than the text it starts, and ends at a blank or at
/// the end of the text.
pub proof fn lemma_word_len_bound(s: Seq<char>)
    ensures
        word_len(s) <= s.len(),
        s.len() > 0 && !blank(s[0]) ==> word_len(s) >= 1,
        word_len(s) < s.len() ==> blank(s[word_len(s) as int]),
        forall|i: int| 0 <= i < word_len(s) ==> !blank(#[trigger] s[i]),
    decreases s.len(),
{
    if s.len() > 0 && !blank(s[0]) {
        let rest = s.drop_first();
        lemma_word_len_bound(rest);
        assert forall|i: int| 0 <= i < word_len(s) implies !blank(#[trigger] s[i]) by {
            if i > 0 {
                assert(s[i] == rest[i - 1]);
            }
        }
        if word_len(s) < s.len() {
            assert(s[word_len(s) as int] == rest[word_len(rest) as int]);
        }
    }
}

/// A word holds at least one character, and no blank.
pub open spec fn is_word(w: Seq<char>) -> bool {
    &&& w.len() > 0
    &&& forall|j: int| 0 <= j < w.len() ==> !blank(#[trigger] w[j])
}

/// Every field is a word.
pub proof fn lemma_fields_are_words(s: Seq<char>)
    ensures
        forall|i: int| 0 <= i < fields(s).len() ==> is_word(#[trigger] fields(s)[i]),
    decreases s.len(),
{
    if s.len() == 0 {
        assert(fields(s).len() == 0);
    } else if blank(s[0]) {
        lemma_fields_are_words(s.drop_first());
        assert(fields(s) == fields(s.drop_first()));
    } else {
        lemma_word_len_bound(s);
        assert(fields(s) == seq![s.take(word_len(s) as int)] + fields(s.skip(word_len(s) as int)));
        let word = s.take(word_len(s) as int);
        let rest = fields(s.skip(word_len(s) as int));
        lemma_fields_are_words(s.skip(word_len(s) as int));
        assert(is_word(word)) by {
            assert forall|j: int| 0 <= j < word.len() implies !blank(#[trigger] word[j]) by {
                assert(word[j] == s[j]);
            }
        }
        assert forall|i: int| 0 <= i < fields(s).len() implies is_word(#[trigger] fields(s)[i]) by {
            if i == 0 {
                assert(fields(s)[0] == word);
            } else {
                assert(fields(s)[i] == rest[i - 1]);
            }
        }
    }
}

/// Splits a line into its fields.
pub fn split_fields(line: &str) -> (parts: Vec<&str>)
    ensures
        slice_texts(parts@) == fields(line@),
{
    let chars = characters(line);
    let n = chars.len();
    let mut parts: Vec<&str> = Vec::new();
    let mut pos: usize = 0;
    assert(line@.skip(0) == line@);
    assert(slice_texts(parts@) + fields(line@) == fields(line@));
    while pos < n
        invariant
            n == chars.len(),
            chars@ == line@,
            pos <= n,
            fields(line@) == slice_texts(parts@) + fields(line@.skip(pos as int)),
        decreases n - pos,
    {
        let ghost rest = line@.skip(pos as int);
        assert(rest[0] == line@[pos as int]);
        if is_blank(chars[pos]) {
            assert(rest.drop_first() == line@.skip(pos + 1));
            pos += 1;
        } else {
            let start = pos;
            while pos < n && !is_blank(chars[pos])
                invariant
                    n == chars.len(),
                    chars@ == line@,
                    start < n,
                    start <= pos <= n,
                    rest == line@.skip(start as int),
                    word_len(rest) == (pos - start) + word_len(line@.skip(pos as int)),
                decreases n - pos,
            {
                assert(line@.skip(pos as int)[0] == line@[pos as int]);
                assert(line@.skip(pos as int).drop_first() == line@.skip(pos + 1));
                pos += 1;
            }
            proof {
                if pos < n {
                    assert(line@.skip(pos as int)[0] == line@[pos as int]);
                }
                assert(word_len(rest) == pos - start);
                assert(rest.take(pos - start) == line@.subrange(start as int, pos as int));
                assert(rest.skip(pos - start) == line@.skip(pos as int));
            }
            let field = line.substring_char(start, pos);
            let ghost before = parts@;
            parts.push(field);
            assert(slice_texts(parts@) == slice_texts(before) + seq![field@]);
        }
    }
    assert(line@.skip(pos as int).len() == 0);
    parts
}

/// White space, as the Unicode property `White_Space` lists it.
pub open spec fn white(c: char) -> bool {
    let code = c as u32;
    ||| 0x09 <= code <= 0x0D
    ||| code == 0x20
    ||| code == 0x85
    ||| code == 0xA0
    ||| code == 0x1680
    ||| 0x2000 <= code <= 0x200A
    ||| code == 0x2028
    ||| code == 0x2029
    ||| code == 0x202F
    ||| code == 0x205F
    ||| code == 0x3000
}

/// Tells whether `c` is white space.
pub fn is_white(c: char) -> (b: bool)
    ensures
        b == white(c),
{
    let code = c as u32;
    (0x09 <= code && code <= 0x0D) || code == 0x20 || code == 0x85 || code == 0xA0 || code
        == 0x1680 || (0x2000 <= code && code <= 0x200A) || code == 0x2028 || code == 0x2029
        || code == 0x202F || code == 0x205F || code == 0x3000
}

/// The number of white characters at the start of `s`.
pub open spec fn leading_white(s: Seq<char>) -> nat
    decreases s.len(),
{
    if s.len() > 0 && white(s[0]) {
        1 + leading_white(s.drop_first())
    } else {
        0
    }
}

/// The number of white characters at the end of `s`.
pub open spec fn trailing_white(s: Seq<char>) -> nat
    decreases s.len(),
{
    if s.len() > 0 && white(s.last()) {
        1 + trailing_white(s.drop_last())
    } else {
        0
    }
}

/// `s` without the white space at its start and at its end.
pub open spec fn trimmed(s: Seq<char>) -> Seq<char> {
    let rest = s.skip(leading_white(s) as int);
    rest.take(rest.len() - trailing_white(rest))
}

/// Removes the white space at the start and at the end of `text`.
pub fn trim(text: &str) -> (inner: &str)
    ensures
        inner@ == trimmed(text@),
{
    let chars = characters(text);
    let n = chars.len();
    let mut start: usize = 0;
    assert(text@.skip(0) == text@);
    while start < n && is_white(chars[start])
        invariant
            n == chars.len(),
            chars@ == text@,
            start <= n,
            leading_white(text@) == start + leading_white(text@.skip(start as int)),
        decreases n - start,
    {
        assert(text@.skip(start as int)[0] == text@[start as int]);
        assert(text@.skip(start as int).drop_first() == text@.skip(start + 1));
        start += 1;
    }
    proof {
        if start < n {
            assert(text@.skip(start as int)[0] == text@[start as int]);
        }
        assert(leading_white(text@) == start);
    }
    let ghost rest = text@.skip(start as int);
    let mut end: usize = n;
    assert(rest.take(n - start) == rest);
    while end > start && is_white(chars[end - 1])
        invariant
            n == chars.len(),
            chars@ == text@,
            start <= end <= n,
            rest == text@.skip(start as int),
            trailing_white(rest) == (n - end) + trailing_white(rest.take(end - start)),
        decreases end,
    {
        assert(rest.take(end - start).last() == text@[end - 1]);
        assert(rest.take(end - start).drop_last() == rest.take(end - 1 - start));
        end -= 1;
    }
    proof {
        if end > start {
            assert(rest.take(end - start).last() == text@[end - 1]);
        }
        assert(trailing_white(rest) == n - end);
        assert(rest.take(rest.len() - trailing_white(rest)) == text@.subrange(
            start as int,
            end as int,
        ));
    }
    text.substring_char(start, end)
}

} // verus!
