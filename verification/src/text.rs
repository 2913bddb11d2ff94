//! Text primitives over sequences of characters: conversion between strings
//! and character vectors, substring search, white space, lines and fields.

use vstd::prelude::*;

verus! {

/// Calls `String::push`. The contract claims what the standard library
/// documents of it: the character is appended to the end of the string.
#[verifier::external_body]
pub(crate) fn push_char(s: &mut String, c: char)
    ensures
        final(s)@ == old(s)@.push(c),
{
    s.push(c)
}

/// The characters of `s`, in order.
pub fn to_chars(s: &str) -> (chars: Vec<char>)
    ensures
        chars@ == s@,
{
    let mut chars: Vec<char> = Vec::new();
    for c in it: s.chars()
        invariant
            it.seq() == s@,
            chars@ == it.seq().take(it.index()),
    {
        chars.push(c);
    }
    chars
}

/// The string made of the characters of `chars`, in order.
pub fn from_chars(chars: &[char]) -> (s: String)
    ensures
        s@ == chars@,
{
    let mut s = String::new();
    let mut i: usize = 0;
    while i < chars.len()
        invariant
            i <= chars.len(),
            s@ == chars@.take(i as int),
        decreases chars.len() - i,
    {
        push_char(&mut s, chars[i]);
        i += 1;
    }
    s
}

/// A copy of the characters `chars[from..to]`.
pub fn copy_range(chars: &[char], from: usize, to: usize) -> (part: Vec<char>)
    requires
        from <= to <= chars.len(),
    ensures
        part@ == chars@.subrange(from as int, to as int),
{
    let mut part: Vec<char> = Vec::new();
    let mut i: usize = from;
    while i < to
        invariant
            from <= i <= to <= chars.len(),
            part@ == chars@.subrange(from as int, i as int),
        decreases to - i,
    {
        part.push(chars[i]);
        i += 1;
    }
    part
}

/// Appends the characters `chars[from..to]` to `out`.
pub fn append_range(out: &mut Vec<char>, chars: &[char], from: usize, to: usize)
    requires
        from <= to <= chars.len(),
    ensures
        final(out)@ == old(out)@ + chars@.subrange(from as int, to as int),
{
    let mut i: usize = from;
    while i < to
        invariant
            from <= i <= to <= chars.len(),
            out@ == old(out)@ + chars@.subrange(from as int, i as int),
        decreases to - i,
    {
        out.push(chars[i]);
        i += 1;
    }
}

/// `needle` stands in `hay` at offset `at`.
pub open spec fn occurs_at(hay: Seq<char>, needle: Seq<char>, at: int) -> bool {
    &&& 0 <= at
    &&& at + needle.len() <= hay.len()
    &&& hay.subrange(at, at + needle.len()) == needle
}

/// `needle` is a contiguous part of `hay`. The empty needle is part of every text.
pub open spec fn contains_text(hay: Seq<char>, needle: Seq<char>) -> bool {
    exists|at: int| occurs_at(hay, needle, at)
}

/// `at` is the least offset at which `needle` stands in `hay`.
pub open spec fn is_first_occurrence(hay: Seq<char>, needle: Seq<char>, at: int) -> bool {
    &&& occurs_at(hay, needle, at)
    &&& forall|k: int| 0 <= k < at ==> !occurs_at(hay, needle, k)
}

/// The least offset at which `needle` stands in `hay`, if there is one.
pub open spec fn first_occurrence(hay: Seq<char>, needle: Seq<char>) -> Option<int> {
    if contains_text(hay, needle) {
        Some(choose|at: int| is_first_occurrence(hay, needle, at))
    } else {
        None
    }
}

/// A least offset is the value of `first_occurrence`.
pub proof fn lemma_first_occurrence(hay: Seq<char>, needle: Seq<char>, at: int)
    requires
        is_first_occurrence(hay, needle, at),
    ensures
        first_occurrence(hay, needle) == Some(at),
{
    let chosen = choose|k: int| is_first_occurrence(hay, needle, k);
    assert(is_first_occurrence(hay, needle, chosen));
    assert(chosen == at) by {
        if chosen < at {
            assert(!occurs_at(hay, needle, chosen));
        } else if at < chosen {
            assert(!occurs_at(hay, needle, at));
        }
    }
}

/// Whether `needle` stands in `hay` at offset `at`.
pub fn matches_at(hay: &[char], needle: &[char], at: usize) -> (r: bool)
    requires
        at + needle.len() <= hay.len(),
    ensures
        r == occurs_at(hay@, needle@, at as int),
{
    let mut k: usize = 0;
    while k < needle.len()
        invariant
            k <= needle.len(),
            at + needle.len() <= hay.len(),
            forall|j: int| 0 <= j < k ==> hay@[at + j] == needle@[j],
        decreases needle.len() - k,
    {
        if hay[at + k] != needle[k] {
            proof {
                let part = hay@.subrange(at as int, at + needle@.len());
                assert(part[k as int] == hay@[at + k]);
            }
            return false;
        }
        k += 1;
    }
    assert(hay@.subrange(at as int, at + needle@.len()) =~= needle@);
    true
}

/// The least offset at which `needle` stands in `hay`.
pub fn find_text(hay: &[char], needle: &[char]) -> (r: Option<usize>)
    ensures
        match r {
            Some(at) => first_occurrence(hay@, needle@) == Some(at as int) && is_first_occurrence(
                hay@,
                needle@,
                at as int,
            ),
            None => first_occurrence(hay@, needle@) is None && !contains_text(hay@, needle@),
        },
{
    if needle.len() > hay.len() {
        return None;
    }
    let last: usize = hay.len() - needle.len();
    let mut at: usize = 0;
    loop
        invariant
            at <= last,
            last == hay.len() - needle.len(),
            forall|k: int| 0 <= k < at ==> !occurs_at(hay@, needle@, k),
        decreases last - at,
    {
        if matches_at(hay, needle, at) {
            proof {
                lemma_first_occurrence(hay@, needle@, at as int);
            }
            return Some(at);
        }
        if at == last {
            return None;
        }
        at += 1;
    }
}

/// Whether `needle` is a contiguous part of `hay`.
pub fn has_text(hay: &[char], needle: &[char]) -> (r: bool)
    ensures
        r == contains_text(hay@, needle@),
{
    find_text(hay, needle).is_some()
}

/// White space as `char::is_whitespace` defines it: the code points with the
/// Unicode property `White_Space`.
pub open spec fn is_white_space(c: char) -> bool {
    let n = c as u32;
    ||| 0x09 <= n <= 0x0d
    ||| n == 0x20
    ||| n == 0x85
    ||| n == 0xa0
    ||| n == 0x1680
    ||| 0x2000 <= n <= 0x200a
    ||| n == 0x2028
    ||| n == 0x2029
    ||| n == 0x202f
    ||| n == 0x205f
    ||| n == 0x3000
}

/// Whether `c` is white space.
pub fn char_is_white_space(c: char) -> (r: bool)
    ensures
        r == is_white_space(c),
{
    let n: u32 = c as u32;
    (0x09 <= n && n <= 0x0d) || n == 0x20 || n == 0x85 || n == 0xa0 || n == 0x1680 || (0x2000
        <= n && n <= 0x200a) || n == 0x2028 || n == 0x2029 || n == 0x202f || n == 0x205f || n
        == 0x3000
}

/// The first offset at or after `from` that holds no white space; the length
/// of `s` where only white space follows.
pub open spec fn skip_white_space(s: Seq<char>, from: int) -> int
    decreases s.len() - from,
{
    if 0 <= from < s.len() && is_white_space(s[from]) {
        skip_white_space(s, from + 1)
    } else {
        from
    }
}

/// The end of the run of characters other than white space that starts at `from`.
pub open spec fn skip_word(s: Seq<char>, from: int) -> int
    decreases s.len() - from,
{
    if 0 <= from < s.len() && !is_white_space(s[from]) {
        skip_word(s, from + 1)
    } else {
        from
    }
}

/// The least end, not below `low`, of `s[..to]` without its trailing white space.
pub open spec fn drop_white_space(s: Seq<char>, low: int, to: int) -> int
    decreases to - low,
{
    if 0 <= low < to <= s.len() && is_white_space(s[to - 1]) {
        drop_white_space(s, low, to - 1)
    } else {
        to
    }
}

/// `s` without its leading and trailing white space.
pub open spec fn trimmed(s: Seq<char>) -> Seq<char> {
    let from = skip_white_space(s, 0);
    s.subrange(from, drop_white_space(s, from, s.len() as int))
}

/// Skipping white space ends within the text, at a character that is no
/// white space or at the end.
pub proof fn lemma_skip_white_space_range(s: Seq<char>, from: int)
    requires
        0 <= from <= s.len(),
    ensures
        from <= skip_white_space(s, from) <= s.len(),
        skip_white_space(s, from) < s.len() ==> !is_white_space(s[skip_white_space(s, from)]),
    decreases s.len() - from,
{
    if from < s.len() && is_white_space(s[from]) {
        lemma_skip_white_space_range(s, from + 1);
    }
}

/// Skipping a word ends within the text, and behind its start where a word
/// starts there.
pub proof fn lemma_skip_word_range(s: Seq<char>, from: int)
    requires
        0 <= from <= s.len(),
    ensures
        from <= skip_word(s, from) <= s.len(),
        from < s.len() && !is_white_space(s[from]) ==> from < skip_word(s, from),
    decreases s.len() - from,
{
    if from < s.len() && !is_white_space(s[from]) {
        lemma_skip_word_range(s, from + 1);
    }
}

/// The first offset at or after `from` that holds no white space.
pub fn white_space_end(s: &[char], from: usize) -> (r: usize)
    requires
        from <= s.len(),
    ensures
        r == skip_white_space(s@, from as int),
        from <= r <= s.len(),
{
    let mut i: usize = from;
    while i < s.len() && char_is_white_space(s[i])
        invariant
            from <= i <= s.len(),
            skip_white_space(s@, i as int) == skip_white_space(s@, from as int),
        decreases s.len() - i,
    {
        i += 1;
    }
    i
}

/// The end of the run of characters other than white space that starts at `from`.
pub fn word_end(s: &[char], from: usize) -> (r: usize)
    requires
        from <= s.len(),
    ensures
        r == skip_word(s@, from as int),
        from <= r <= s.len(),
{
    let mut i: usize = from;
    while i < s.len() && !char_is_white_space(s[i])
        invariant
            from <= i <= s.len(),
            skip_word(s@, i as int) == skip_word(s@, from as int),
        decreases s.len() - i,
    {
        i += 1;
    }
    i
}

/// A copy of `s` without its leading and trailing white space.
pub fn trim(s: &[char]) -> (r: Vec<char>)
    ensures
        r@ == trimmed(s@),
{
    let from = white_space_end(s, 0);
    let mut to: usize = s.len();
    while to > from && char_is_white_space(s[to - 1])
        invariant
            from <= to <= s.len(),
            drop_white_space(s@, from as int, to as int) == drop_white_space(
                s@,
                from as int,
                s@.len() as int,
            ),
        decreases to,
    {
        to -= 1;
    }
    copy_range(s, from, to)
}

/// The offset of the first line feed at or after `from`; the length of
/// `text` where none follows.
pub open spec fn line_end(text: Seq<char>, from: int) -> int
    decreases text.len() - from,
{
    if 0 <= from < text.len() && text[from] != '\n' {
        line_end(text, from + 1)
    } else {
        from
    }
}

/// The end of a line lies within the text, at a line feed or at the end.
pub proof fn lemma_line_end_range(text: Seq<char>, from: int)
    requires
        0 <= from <= text.len(),
    ensures
        from <= line_end(text, from) <= text.len(),
        line_end(text, from) < text.len() ==> text[line_end(text, from)] == '\n',
    decreases text.len() - from,
{
    if from < text.len() && text[from] != '\n' {
        lemma_line_end_range(text, from + 1);
    }
}

/// `line` without the carriage return at its end, if it has one.
pub open spec fn without_carriage_return(line: Seq<char>) -> Seq<char> {
    if line.len() > 0 && line.last() == '\r' {
        line.drop_last()
    } else {
        line
    }
}

/// The lines of `text` from offset `from` on, as `str::lines` yields them: a
/// line ends at a line feed, or at a carriage return directly before one, and
/// the terminator is no part of it; the last line needs no terminator, and is
/// left out where it would be empty.
pub open spec fn lines_from(text: Seq<char>, from: int) -> Seq<Seq<char>>
    decreases text.len() - from,
{
    if 0 <= from < text.len() {
        let end = line_end(text, from);
        proof {
            lemma_line_end_range(text, from);
        }
        if end < text.len() {
            seq![without_carriage_return(text.subrange(from, end))] + lines_from(text, end + 1)
        } else {
            seq![text.subrange(from, end)]
        }
    } else {
        Seq::empty()
    }
}

/// The lines of `text`.
pub open spec fn lines_of(text: Seq<char>) -> Seq<Seq<char>> {
    lines_from(text, 0)
}

/// The texts that a sequence of character vectors holds.
pub open spec fn texts_of(parts: Seq<Vec<char>>) -> Seq<Seq<char>> {
    Seq::new(parts.len(), |i: int| parts[i]@)
}

/// The lines of `text`, each as a vector of its characters.
pub fn split_lines(text: &[char]) -> (lines: Vec<Vec<char>>)
    ensures
        texts_of(lines@) == lines_of(text@),
{
    let mut lines: Vec<Vec<char>> = Vec::new();
    let mut from: usize = 0;
    while from < text.len()
        invariant
            from <= text.len(),
            texts_of(lines@) + lines_from(text@, from as int) == lines_of(text@),
        decreases text.len() - from,
    {
        let mut end: usize = from;
        while end < text.len() && text[end] != '\n'
            invariant
                from <= end <= text.len(),
                line_end(text@, end as int) == line_end(text@, from as int),
            decreases text.len() - end,
        {
            end += 1;
        }
        let ghost before = texts_of(lines@);
        if end < text.len() {
            let stop: usize = if end > from && text[end - 1] == '\r' {
                end - 1
            } else {
                end
            };
            let line = copy_range(text, from, stop);
            proof {
                let raw = text@.subrange(from as int, end as int);
                assert(line@ =~= without_carriage_return(raw));
            }
            lines.push(line);
            proof {
                assert(texts_of(lines@) =~= before.push(line@));
                assert(before + lines_from(text@, from as int) =~= before.push(line@) + lines_from(
                    text@,
                    end + 1,
                ));
            }
            from = end + 1;
        } else {
            let line = copy_range(text, from, end);
            lines.push(line);
            proof {
                assert(texts_of(lines@) =~= before.push(line@));
                assert(lines_from(text@, end as int) =~= Seq::<Seq<char>>::empty());
                assert(before + lines_from(text@, from as int) =~= before.push(line@) + lines_from(
                    text@,
                    end as int,
                ));
            }
            from = end;
        }
    }
    assert(lines_from(text@, from as int) =~= Seq::<Seq<char>>::empty());
    assert(texts_of(lines@) + Seq::<Seq<char>>::empty() =~= texts_of(lines@));
    lines
}

/// The fields of `s` from offset `from` on, as `str::split_whitespace` yields
/// them: the maximal runs of characters other than white space.
pub open spec fn fields_from(s: Seq<char>, from: int) -> Seq<Seq<char>>
    decreases s.len() - from,
{
    if 0 <= from <= s.len() {
        let start = skip_white_space(s, from);
        let end = skip_word(s, start);
        proof {
            lemma_skip_white_space_range(s, from);
            lemma_skip_word_range(s, start);
        }
        if start < s.len() {
            seq![s.subrange(start, end)] + fields_from(s, end)
        } else {
            Seq::empty()
        }
    } else {
        Seq::empty()
    }
}

/// The fields of `s`.
pub open spec fn fields_of(s: Seq<char>) -> Seq<Seq<char>> {
    fields_from(s, 0)
}

/// The fields of `s`, each as a vector of its characters.
pub fn split_fields(s: &[char]) -> (fields: Vec<Vec<char>>)
    ensures
        texts_of(fields@) == fields_of(s@),
{
    let mut fields: Vec<Vec<char>> = Vec::new();
    let mut from: usize = 0;
    loop
        invariant
            from <= s.len(),
            texts_of(fields@) + fields_from(s@, from as int) == fields_of(s@),
        decreases s.len() - from,
    {
        let start = white_space_end(s, from);
        if start == s.len() {
            assert(fields_from(s@, from as int) =~= Seq::<Seq<char>>::empty());
            assert(texts_of(fields@) + Seq::<Seq<char>>::empty() =~= texts_of(fields@));
            return fields;
        }
        let end = word_end(s, start);
        let field = copy_range(s, start, end);
        let ghost before = texts_of(fields@);
        fields.push(field);
        proof {
            lemma_skip_word_range(s@, start as int);
            assert(texts_of(fields@) =~= before.push(field@));
            assert(before + fields_from(s@, from as int) =~= before.push(field@) + fields_from(
                s@,
                end as int,
            ));
        }
        from = end;
    }
}

/// An ASCII decimal digit.
pub open spec fn is_digit(c: char) -> bool {
    0x30 <= c as u32 <= 0x39
}

/// The number that the digit `c` stands for.
pub open spec fn digit_value(c: char) -> nat {
    if is_digit(c) {
        (c as u32 - 0x30) as nat
    } else {
        0
    }
}

/// Every character of `s` is a decimal digit.
pub open spec fn all_digits(s: Seq<char>) -> bool {
    forall|i: int| 0 <= i < s.len() ==> is_digit(#[trigger] s[i])
}

/// The number that the decimal digits `s` write, the first digit counting most.
pub open spec fn decimal_value(s: Seq<char>) -> nat
    decreases s.len(),
{
    if s.len() == 0 {
        0
    } else {
        decimal_value(s.drop_last()) * 10 + digit_value(s.last())
    }
}

/// The digits of an unsigned number written as `s`: `s` without one leading plus sign.
pub open spec fn unsigned_digits(s: Seq<char>) -> Seq<char> {
    if s.len() > 0 && s[0] == '+' {
        s.skip(1)
    } else {
        s
    }
}

/// The number that `s` writes, as `str::parse::<u32>` reads it: an optional
/// plus sign, then at least one ASCII decimal digit and nothing else, the
/// value within the range of `u32`.
pub open spec fn u32_of_text(s: Seq<char>) -> Option<u32> {
    let digits = unsigned_digits(s);
    if digits.len() > 0 && all_digits(digits) && decimal_value(digits) <= u32::MAX {
        Some(decimal_value(digits) as u32)
    } else {
        None
    }
}

/// A number written with more digits is no smaller.
pub proof fn lemma_decimal_value_grows(s: Seq<char>, k: int)
    requires
        0 <= k <= s.len(),
    ensures
        decimal_value(s.take(k)) <= decimal_value(s),
    decreases s.len() - k,
{
    if k < s.len() {
        lemma_decimal_value_grows(s, k + 1);
        assert(s.take(k + 1).drop_last() =~= s.take(k));
    } else {
        assert(s.take(k) =~= s);
    }
}

/// The number that `s` writes, if it writes one that fits `u32`.
pub fn parse_u32(s: &[char]) -> (r: Option<u32>)
    ensures
        r == u32_of_text(s@),
{
    let start: usize = if s.len() > 0 && s[0] == '+' {
        1
    } else {
        0
    };
    let ghost digits = unsigned_digits(s@);
    assert(digits =~= s@.skip(start as int));
    if start == s.len() {
        return None;
    }
    let mut value: u64 = 0;
    let mut i: usize = start;
    while i < s.len()
        invariant
            start <= i <= s.len(),
            digits == unsigned_digits(s@),
            digits == s@.skip(start as int),
            all_digits(digits.take(i - start)),
            value == decimal_value(digits.take(i - start)),
            value <= u32::MAX,
        decreases s.len() - i,
    {
        let c: char = s[i];
        let code: u32 = c as u32;
        assert(digits[i - start] == c);
        if code < 0x30 || code > 0x39 {
            assert(!is_digit(digits[i - start]));
            return None;
        }
        let ghost next = digits.take(i - start + 1);
        proof {
            assert(next.drop_last() =~= digits.take(i - start));
            assert(next.last() == c);
            assert forall|j: int| 0 <= j < next.len() implies is_digit(#[trigger] next[j]) by {
                if j < i - start {
                    assert(next[j] == digits.take(i - start)[j]);
                }
            }
        }
        value = value * 10 + (code - 0x30) as u64;
        assert(value == decimal_value(next));
        if value > 0xffff_ffff {
            proof {
                lemma_decimal_value_grows(digits, i - start + 1);
            }
            return None;
        }
        i += 1;
    }
    assert(digits.take(i - start) =~= digits);
    Some(value as u32)
}

} // verus!
