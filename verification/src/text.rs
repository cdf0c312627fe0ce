//! Text as sequences of characters: white space, words, lines and decimal
//! numerals. Everything here is stated over `Seq<char>`, the view of `str`
//! and `String`.

use vstd::prelude::*;

verus! {

/// `String::push` of the standard library appends one character to the end
/// of the string and leaves the characters before it as they were.
pub assume_specification[ String::push ](text: &mut String, c: char)
    ensures
        final(text)@ == old(text)@.push(c),
;

/// The upper-case form that the standard library's `str::to_uppercase`
/// gives a text. It follows Unicode's case mappings, which are not written
/// out here; nothing more is said of it than that it is a function of the
/// text.
pub uninterp spec fn uppercase_of(text: Seq<char>) -> Seq<char>;

/// Calls `str::to_uppercase`. The contract only names the result.
#[verifier::external_body]
pub(crate) fn uppercase(text: &str) -> (upper: String)
    ensures
        upper@ == uppercase_of(text@),
{
    text.to_uppercase()
}

/// The characters with Unicode's `White_Space` property.
pub open spec fn is_space(c: char) -> bool {
    let n = c as u32;
    ||| 0x09 <= n <= 0x0d
    ||| n == 0x20
    ||| n == 0x85
    ||| n == 0xa0
    ||| n == 0x1680
    ||| 0x2000 <= n <= 0x200a
    ||| n == 0x2028
    ||| n == 0x2029
    ||| n == 0x202f
    ||| n == 0x205f
    ||| n == 0x3000
}

/// How many white-space characters stand in a row from index `from` on.
pub open spec fn space_len(text: Seq<char>, from: int) -> nat
    decreases text.len() - from,
{
    if 0 <= from < text.len() && is_space(text[from]) {
        1 + space_len(text, from + 1)
    } else {
        0
    }
}

/// How many characters other than white space stand in a row from index
/// `from` on.
pub open spec fn word_len(text: Seq<char>, from: int) -> nat
    decreases text.len() - from,
{
    if 0 <= from < text.len() && !is_space(text[from]) {
        1 + word_len(text, from + 1)
    } else {
        0
    }
}

/// The words of `text` that begin at or after index `from`: the maximal
/// runs of characters other than white space, in the order of the text.
pub open spec fn words_from(text: Seq<char>, from: int) -> Seq<Seq<char>>
    decreases text.len() - from,
{
    let start = from + space_len(text, from);
    let len = word_len(text, start);
    if len == 0 {
        Seq::empty()
    } else {
        proof {
            lemma_run_bounds(text, start);
        }
        seq![text.subrange(start, start + len)] + words_from(text, start + len)
    }
}

/// The white-space separated words of a text.
pub open spec fn words_of(text: Seq<char>) -> Seq<Seq<char>> {
    words_from(text, 0)
}

/// How many characters stand before the next line feed from index `from`
/// on (before the end of the text, where no line feed follows).
pub open spec fn line_len(text: Seq<char>, from: int) -> nat
    decreases text.len() - from,
{
    if 0 <= from < text.len() && text[from] != '\n' {
        1 + line_len(text, from + 1)
    } else {
        0
    }
}

/// The lines of `text` that begin at or after index `from`.
pub open spec fn lines_from(text: Seq<char>, from: int) -> Seq<Seq<char>>
    decreases text.len() + 1 - from,
{
    if 0 <= from < text.len() {
        let len = line_len(text, from);
        proof {
            lemma_run_bounds(text, from);
        }
        seq![text.subrange(from, from + len)] + lines_from(text, from + len + 1)
    } else {
        Seq::empty()
    }
}

/// The lines of a text. A line ends at a line feed, which is not part of
/// it; the last line may end with the text instead, and a text that ends in
/// a line feed has no empty line after it. A carriage return before the
/// line feed stays in the line, where it is white space.
pub open spec fn lines_of(text: Seq<char>) -> Seq<Seq<char>> {
    lines_from(text, 0)
}

/// The views of a sequence of strings.
pub open spec fn texts(strings: Seq<String>) -> Seq<Seq<char>> {
    Seq::new(strings.len(), |i: int| strings[i]@)
}

/// The decimal digit `d`, for `d` from 0 to 9.
pub open spec fn digit(d: int) -> char {
    (48 + d) as char
}

/// The decimal numeral of `n`, without leading zeros.
pub open spec fn decimal(n: nat) -> Seq<char>
    decreases n,
{
    if n < 10 {
        seq![digit(n as int)]
    } else {
        decimal(n / 10).push(digit((n % 10) as int))
    }
}

/// A run of white space, of a word or of a line stays inside the text.
pub proof fn lemma_run_bounds(text: Seq<char>, from: int)
    requires
        0 <= from <= text.len(),
    ensures
        from + space_len(text, from) <= text.len(),
        from + word_len(text, from) <= text.len(),
        from + line_len(text, from) <= text.len(),
    decreases text.len() - from,
{
    if from < text.len() {
        lemma_run_bounds(text, from + 1);
    }
}

/// Whether a character is white space.
pub fn is_whitespace(c: char) -> (b: bool)
    ensures
        b == is_space(c),
{
    let n: u32 = c as u32;
    (0x09 <= n && n <= 0x0d) || n == 0x20 || n == 0x85 || n == 0xa0 || n == 0x1680 || (0x2000 <= n
        && n <= 0x200a) || n == 0x2028 || n == 0x2029 || n == 0x202f || n == 0x205f || n == 0x3000
}

/// The characters of a string slice, in order.
pub fn chars_of(text: &str) -> (chars: Vec<char>)
    ensures
        chars@ == text@,
{
    let mut chars: Vec<char> = Vec::new();
    for c in it: text.chars()
        invariant
            it.seq() == text@,
            chars@ == it.seq().take(it.index()),
    {
        chars.push(c);
    }
    assert(chars@ == text@);
    chars
}

/// The string made of the characters `chars[from..to]`.
pub fn text_between(chars: &Vec<char>, from: usize, to: usize) -> (text: String)
    requires
        from <= to <= chars.len(),
    ensures
        text@ == chars@.subrange(from as int, to as int),
{
    let mut text = String::new();
    let mut i: usize = from;
    while i < to
        invariant
            from <= i <= to <= chars.len(),
            text@ == chars@.subrange(from as int, i as int),
        decreases to - i,
    {
        text.push(chars[i]);
        i += 1;
    }
    text
}

/// The string made of the characters `chars`.
pub fn text_of(chars: &Vec<char>) -> (text: String)
    ensures
        text@ == chars@,
{
    let text = text_between(chars, 0, chars.len());
    assert(chars@.subrange(0, chars.len() as int) == chars@);
    text
}

/// Whether `chars` spells the string `expected`.
pub fn spells(chars: &Vec<char>, expected: &str) -> (same: bool)
    ensures
        same == (chars@ == expected@),
{
    let mut same = true;
    let mut i: usize = 0;
    for c in it: expected.chars()
        invariant
            it.seq() == expected@,
            i <= chars.len(),
            same ==> i == it.index() && chars@.take(i as int) == expected@.take(i as int),
            !same ==> chars@ != expected@,
    {
        if same {
            if i < chars.len() && chars[i] == c {
                assert(chars@.take(i + 1) == chars@.take(i as int).push(chars@[i as int]));
                assert(expected@.take(i + 1) == expected@.take(i as int).push(expected@[i as int]));
                i += 1;
            } else {
                same = false;
            }
        }
    }
    proof {
        assert(expected@.take(expected@.len() as int) == expected@);
        assert(chars@.take(chars@.len() as int) == chars@);
    }
    same && i == chars.len()
}

/// Splits a line into its white-space separated words.
pub fn split_words(line: &str) -> (words: Vec<String>)
    ensures
        texts(words@) == words_of(line@),
{
    let chars = chars_of(line);
    let mut words: Vec<String> = Vec::new();
    let mut i: usize = 0;
    loop
        invariant
            chars@ == line@,
            i <= chars.len(),
            texts(words@) + words_from(chars@, i as int) == words_of(chars@),
        ensures
            texts(words@) == words_of(chars@),
        decreases chars.len() - i,
    {
        let mut start: usize = i;
        while start < chars.len() && is_whitespace(chars[start])
            invariant
                i <= start <= chars.len(),
                start + space_len(chars@, start as int) == i + space_len(chars@, i as int),
            decreases chars.len() - start,
        {
            start += 1;
        }
        let mut end: usize = start;
        while end < chars.len() && !is_whitespace(chars[end])
            invariant
                start <= end <= chars.len(),
                end + word_len(chars@, end as int) == start + word_len(chars@, start as int),
            decreases chars.len() - end,
        {
            end += 1;
        }
        if end == start {
            break ;
        }
        let word = text_between(&chars, start, end);
        proof {
            let before = texts(words@);
            assert(texts(words@.push(word)) == before + seq![word@]);
            assert(before + (seq![word@] + words_from(chars@, end as int)) == (before
                + seq![word@]) + words_from(chars@, end as int));
        }
        words.push(word);
        i = end;
    }
    words
}

/// Splits a text into its lines.
pub fn split_lines(text: &str) -> (lines: Vec<String>)
    ensures
        texts(lines@) == lines_of(text@),
{
    let chars = chars_of(text);
    let mut lines: Vec<String> = Vec::new();
    let mut i: usize = 0;
    while i < chars.len()
        invariant
            chars@ == text@,
            texts(lines@) + lines_from(chars@, i as int) == lines_of(chars@),
        decreases chars.len() - i,
    {
        let mut end: usize = i;
        while end < chars.len() && chars[end] != '\n'
            invariant
                i <= end <= chars.len(),
                end + line_len(chars@, end as int) == i + line_len(chars@, i as int),
            decreases chars.len() - end,
        {
            end += 1;
        }
        let line = text_between(&chars, i, end);
        proof {
            let before = texts(lines@);
            assert(texts(lines@.push(line)) == before + seq![line@]);
            assert(before + (seq![line@] + lines_from(chars@, end + 1)) == (before + seq![line@])
                + lines_from(chars@, end + 1));
        }
        lines.push(line);
        i = if end < chars.len() {
            end + 1
        } else {
            end
        };
    }
    lines
}

/// Appends the decimal numeral of `n` to `text`.
pub fn push_decimal(text: &mut String, n: u128)
    ensures
        final(text)@ == old(text)@ + decimal(n as nat),
    decreases n,
{
    if n >= 10 {
        push_decimal(text, n / 10);
    }
    let d: u8 = (n % 10) as u8;
    let c: char = (48 + d) as char;
    text.push(c);
    proof {
        let head = old(text)@;
        if n >= 10 {
            assert(head + decimal(n as nat / 10).push(c) == (head + decimal(n as nat / 10)).push(
                c,
            ));
        } else {
            assert(head + seq![c] == head.push(c));
        }
    }
}

} // verus!
