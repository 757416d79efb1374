//! Text primitives: white space, lines, words, splitting, and numbers in
//! decimal and hexadecimal, each with an exact description over character
//! sequences.

use vstd::prelude::*;
use vstd::utf8::{decode_utf8, encode_utf8, valid_utf8};

verus! {

/// `String::push` appends one character to the end of the string.
pub assume_specification[ String::push ](s: &mut String, c: char)
    ensures
        final(s)@ == old(s)@.push(c),
;

/// The text that `String::from_utf8_lossy` makes of bytes that are not UTF-8.
pub uninterp spec fn utf8_replaced(bytes: Seq<u8>) -> Seq<char>;

/// The text that bytes stand for: what they encode where they are UTF-8, and
/// otherwise the text with the replacement characters.
pub open spec fn lossy_text(bytes: Seq<u8>) -> Seq<char> {
    if valid_utf8(bytes) {
        decode_utf8(bytes)
    } else {
        utf8_replaced(bytes)
    }
}

/// `String::from_utf8_lossy`: bytes that are UTF-8 are decoded as they are.
/// From other bytes it makes a text that only the bytes determine, with
/// replacement characters for what is not UTF-8. What is UTF-8 at the front
/// stands decoded at the front of the text; where the replacement characters
/// stand behind it is not stated.
#[verifier::external_body]
pub(crate) fn from_utf8_lossy(bytes: &[u8]) -> (text: String)
    ensures
        valid_utf8(bytes@) ==> text@ == decode_utf8(bytes@),
        !valid_utf8(bytes@) ==> text@ == utf8_replaced(bytes@),
        forall|n: int|
            0 <= n <= bytes@.len() && valid_utf8(bytes@.take(n)) ==> (#[trigger] decode_utf8(
                bytes@.take(n),
            )).is_prefix_of(text@),
{
    String::from_utf8_lossy(bytes).into_owned()
}

/// A text that is written in UTF-8 and read back is the same text.
pub proof fn law_utf8_is_read_exactly(text: Seq<char>)
    ensures
        lossy_text(encode_utf8(text)) == text,
{
    broadcast use vstd::utf8::encode_utf8_valid_utf8, vstd::utf8::encode_utf8_decode_utf8;

}

// ---------------------------------------------------------------------------
// Conversions
// ---------------------------------------------------------------------------

/// The characters of `s`, in order.
pub fn chars_of(s: &str) -> (out: Vec<char>)
    ensures
        out@ == s@,
{
    let mut out: Vec<char> = Vec::new();
    for c in it: s.chars()
        invariant
            out@ == it.seq().take(it.index() as int),
            it.seq() == s@,
    {
        out.push(c);
    }
    assert(s@.take(s@.len() as int) == s@);
    out
}

/// Appends `chars` to `out`.
pub fn push_chars(out: &mut String, chars: &[char])
    ensures
        final(out)@ == old(out)@ + chars@,
{
    let ghost start = out@;
    for i in 0..chars.len()
        invariant
            out@ == start + chars@.take(i as int),
    {
        out.push(chars[i]);
        assert(chars@.take(i + 1) == chars@.take(i as int).push(chars@[i as int]));
    }
    assert(chars@.take(chars@.len() as int) == chars@);
}

/// The text made of `chars`, in order.
pub fn string_of(chars: &[char]) -> (out: String)
    ensures
        out@ == chars@,
{
    let mut out = String::new();
    push_chars(&mut out, chars);
    assert(out@ == chars@);
    out
}

/// Whether two character slices hold the same characters.
pub fn chars_eq(a: &[char], b: &[char]) -> (same: bool)
    ensures
        same == (a@ == b@),
{
    if a.len() != b.len() {
        return false;
    }
    for i in 0..a.len()
        invariant
            a@.len() == b@.len(),
            a@.take(i as int) == b@.take(i as int),
    {
        if a[i] != b[i] {
            assert(a@[i as int] != b@[i as int]);
            return false;
        }
        assert(a@.take(i + 1) == a@.take(i as int).push(a@[i as int]));
        assert(b@.take(i + 1) == b@.take(i as int).push(b@[i as int]));
    }
    assert(a@.take(a@.len() as int) == a@);
    assert(b@.take(b@.len() as int) == b@);
    true
}

/// Whether the characters of `chars` spell `word`.
pub fn spells(chars: &[char], word: &str) -> (same: bool)
    ensures
        same == (chars@ == word@),
{
    let word = chars_of(word);
    chars_eq(chars, word.as_slice())
}

// ---------------------------------------------------------------------------
// White space
// ---------------------------------------------------------------------------

/// The Unicode property `White_Space`.
pub open spec fn is_white(c: char) -> bool {
    ||| '\u{9}' <= c <= '\u{d}'
    ||| c == '\u{20}'
    ||| c == '\u{85}'
    ||| c == '\u{a0}'
    ||| c == '\u{1680}'
    ||| '\u{2000}' <= c <= '\u{200a}'
    ||| c == '\u{2028}'
    ||| c == '\u{2029}'
    ||| c == '\u{202f}'
    ||| c == '\u{205f}'
    ||| c == '\u{3000}'
}

/// Whether `c` is white space.
pub fn is_whitespace(c: char) -> (white: bool)
    ensures
        white == is_white(c),
{
    ('\u{9}' <= c && c <= '\u{d}') || c == '\u{20}' || c == '\u{85}' || c == '\u{a0}' || c
        == '\u{1680}' || ('\u{2000}' <= c && c <= '\u{200a}') || c == '\u{2028}' || c == '\u{2029}'
        || c == '\u{202f}' || c == '\u{205f}' || c == '\u{3000}'
}

/// How many characters at the front of `s` are white space.
pub open spec fn white_prefix(s: Seq<char>) -> nat
    decreases s.len(),
{
    if s.len() > 0 && is_white(s[0]) {
        1 + white_prefix(s.skip(1))
    } else {
        0
    }
}

/// `s` without the white space at its front.
pub open spec fn trim_start(s: Seq<char>) -> Seq<char> {
    s.skip(white_prefix(s) as int)
}

/// `s` without the white space at its back.
pub open spec fn trim_end(s: Seq<char>) -> Seq<char>
    decreases s.len(),
{
    if s.len() > 0 && is_white(s.last()) {
        trim_end(s.drop_last())
    } else {
        s
    }
}

/// `s` without the white space at either end.
pub open spec fn trim(s: Seq<char>) -> Seq<char> {
    trim_end(trim_start(s))
}

/// Whether every character of `s` is white space.
pub open spec fn is_blank(s: Seq<char>) -> bool {
    forall|i: int| 0 <= i < s.len() ==> is_white(#[trigger] s[i])
}

/// The white space at the front of `s` ends at the first character that is
/// not white.
proof fn lemma_white_prefix(s: Seq<char>, n: int)
    requires
        0 <= n <= s.len(),
        forall|i: int| 0 <= i < n ==> is_white(#[trigger] s[i]),
        n < s.len() ==> !is_white(s[n]),
    ensures
        white_prefix(s) == n,
    decreases s.len(),
{
    if n > 0 {
        assert(is_white(s[0]));
        assert forall|i: int| 0 <= i < n - 1 implies is_white(#[trigger] s.skip(1)[i]) by {
            assert(s.skip(1)[i] == s[i + 1]);
        }
        lemma_white_prefix(s.skip(1), n - 1);
    }
}

pub proof fn lemma_white_prefix_bound(s: Seq<char>)
    ensures
        white_prefix(s) <= s.len(),
        white_prefix(s) < s.len() ==> !is_white(s[white_prefix(s) as int]),
        forall|i: int| 0 <= i < white_prefix(s) ==> is_white(#[trigger] s[i]),
    decreases s.len(),
{
    if s.len() > 0 && is_white(s[0]) {
        lemma_white_prefix_bound(s.skip(1));
        assert forall|i: int| 0 <= i < white_prefix(s) implies is_white(#[trigger] s[i]) by {
            if i > 0 {
                assert(s.skip(1)[i - 1] == s[i]);
            }
        }
    }
}

/// Trimming leaves nothing exactly where there is only white space.
pub proof fn law_trimming_empties_blanks(s: Seq<char>)
    ensures
        (trim(s).len() == 0) == is_blank(s),
{
    lemma_white_prefix_bound(s);
    let t = trim_start(s);
    if is_blank(s) {
        assert(white_prefix(s) == s.len());
    } else {
        let n = white_prefix(s) as int;
        assert(n < s.len());
        assert(!is_white(t[0]));
        lemma_trim_end_keeps_front(t);
    }
}

proof fn lemma_trim_end_keeps_front(t: Seq<char>)
    requires
        t.len() > 0,
        !is_white(t[0]),
    ensures
        trim_end(t).len() > 0,
    decreases t.len(),
{
    if is_white(t.last()) {
        assert(t.drop_last().len() > 0);
        lemma_trim_end_keeps_front(t.drop_last());
    }
}

/// The index of the first character at or after `from` that is not white.
pub fn skip_white(s: &[char], from: usize) -> (at: usize)
    requires
        from <= s@.len(),
    ensures
        from <= at <= s@.len(),
        at == from + white_prefix(s@.skip(from as int)),
        s@.skip(at as int) == trim_start(s@.skip(from as int)),
{
    let mut at: usize = from;
    while at < s.len() && is_whitespace(s[at])
        invariant
            from <= at <= s@.len(),
            forall|i: int| from <= i < at ==> is_white(#[trigger] s@[i]),
        decreases s@.len() - at,
    {
        at += 1;
    }
    proof {
        let t = s@.skip(from as int);
        assert forall|i: int| 0 <= i < at - from implies is_white(#[trigger] t[i]) by {
            assert(t[i] == s@[from + i]);
        }
        lemma_white_prefix(t, at - from);
        assert(s@.skip(at as int) == trim_start(t));
    }
    at
}

/// `s` without the white space at either end.
pub fn trimmed<'a>(s: &'a [char]) -> (out: &'a [char])
    ensures
        out@ == trim(s@),
{
    let from = skip_white(s, 0);
    assert(s@.skip(0) == s@);
    let mut end: usize = s.len();
    while end > from && is_whitespace(s[end - 1])
        invariant
            from <= end <= s@.len(),
            trim_end(s@.subrange(from as int, end as int)) == trim(s@),
        decreases end,
    {
        assert(s@.subrange(from as int, end as int).drop_last() == s@.subrange(
            from as int,
            end - 1,
        ));
        end -= 1;
    }
    assert(s@.subrange(from as int, s@.len() as int) == s@.skip(from as int));
    vstd::slice::slice_subrange(s, from, end)
}

/// Whether `s` holds nothing but white space.
pub fn blank(s: &[char]) -> (only_white: bool)
    ensures
        only_white == is_blank(s@),
{
    for i in 0..s.len()
        invariant
            forall|j: int| 0 <= j < i ==> is_white(#[trigger] s@[j]),
    {
        if !is_whitespace(s[i]) {
            assert(!is_white(s@[i as int]));
            return false;
        }
    }
    true
}

// ---------------------------------------------------------------------------
// Words and lines
// ---------------------------------------------------------------------------

/// The character sequences that a list of character vectors holds.
pub open spec fn views(list: Seq<Vec<char>>) -> Seq<Seq<char>> {
    list.map_values(|w: Vec<char>| w@)
}

/// The texts that a list of strings holds.
pub open spec fn texts(list: Seq<String>) -> Seq<Seq<char>> {
    list.map_values(|w: String| w@)
}

/// How many characters at the front of `s` are not white space.
pub open spec fn word_prefix(s: Seq<char>) -> nat
    decreases s.len(),
{
    if s.len() > 0 && !is_white(s[0]) {
        1 + word_prefix(s.skip(1))
    } else {
        0
    }
}

/// The maximal runs of characters of `s` that are not white space, in order.
pub open spec fn words(s: Seq<char>) -> Seq<Seq<char>>
    decreases s.len(),
{
    if s.len() == 0 {
        seq![]
    } else if is_white(s[0]) {
        words(s.skip(1))
    } else {
        let n = word_prefix(s) as int;
        if 0 < n <= s.len() {
            seq![s.take(n)] + words(s.skip(n))
        } else {
            seq![]
        }
    }
}

proof fn lemma_word_prefix(s: Seq<char>, n: int)
    requires
        0 <= n <= s.len(),
        forall|i: int| 0 <= i < n ==> !is_white(#[trigger] s[i]),
        n < s.len() ==> is_white(s[n]),
    ensures
        word_prefix(s) == n,
    decreases s.len(),
{
    if n > 0 {
        assert(!is_white(s[0]));
        assert forall|i: int| 0 <= i < n - 1 implies !is_white(#[trigger] s.skip(1)[i]) by {
            assert(s.skip(1)[i] == s[i + 1]);
        }
        lemma_word_prefix(s.skip(1), n - 1);
    }
}

/// The words of `s`.
pub fn split_words(s: &[char]) -> (out: Vec<Vec<char>>)
    ensures
        views(out@) == words(s@),
{
    let mut out: Vec<Vec<char>> = Vec::new();
    let mut at: usize = 0;
    assert(s@.skip(0) == s@);
    while at < s.len()
        invariant
            at <= s@.len(),
            views(out@) + words(s@.skip(at as int)) == words(s@),
        decreases s@.len() - at,
    {
        let ghost rest = s@.skip(at as int);
        if is_whitespace(s[at]) {
            assert(rest.skip(1) == s@.skip(at + 1));
            at += 1;
        } else {
            let start = at;
            while at < s.len() && !is_whitespace(s[at])
                invariant
                    start <= at <= s@.len(),
                    forall|i: int| start <= i < at ==> !is_white(#[trigger] s@[i]),
                decreases s@.len() - at,
            {
                at += 1;
            }
            let ghost n = at - start;
            let ghost before = out@;
            let word = vstd::slice::slice_to_vec(vstd::slice::slice_subrange(s, start, at));
            proof {
                assert forall|i: int| 0 <= i < n implies !is_white(#[trigger] rest[i]) by {
                    assert(rest[i] == s@[start + i]);
                }
                lemma_word_prefix(rest, n);
                assert(!is_white(rest[0]));
                if n == 0 {
                    assert(rest[0] == s@[start as int]);
                }
                assert(rest.take(n) == word@);
                assert(rest.skip(n) == s@.skip(at as int));
            }
            out.push(word);
            assert(views(out@) == views(before).push(word@));
            assert(views(before) + (seq![word@] + words(s@.skip(at as int))) == views(before).push(
                word@,
            ) + words(s@.skip(at as int)));
        }
    }
    assert(s@.skip(at as int).len() == 0);
    assert(views(out@) + words(s@.skip(at as int)) == views(out@));
    out
}

proof fn lemma_word_prefix_bound(s: Seq<char>)
    ensures
        word_prefix(s) <= s.len(),
        word_prefix(s) < s.len() ==> is_white(s[word_prefix(s) as int]),
        forall|i: int| 0 <= i < word_prefix(s) ==> !is_white(#[trigger] s[i]),
    decreases s.len(),
{
    if s.len() > 0 && !is_white(s[0]) {
        lemma_word_prefix_bound(s.skip(1));
        assert forall|i: int| 0 <= i < word_prefix(s) implies !is_white(#[trigger] s[i]) by {
            if i > 0 {
                assert(s.skip(1)[i - 1] == s[i]);
            }
        }
    }
}

/// White space parts the words before it from those after it.
pub proof fn lemma_words_parted(a: Seq<char>, space: char, b: Seq<char>)
    requires
        is_white(space),
    ensures
        words(a + seq![space] + b) == words(a) + words(b),
    decreases a.len(),
{
    let s = a + seq![space] + b;
    if a.len() == 0 {
        assert(s[0] == space);
        assert(s.skip(1) == b);
        assert(words(a) + words(b) == words(b));
    } else if is_white(a[0]) {
        assert(s.skip(1) == a.skip(1) + seq![space] + b);
        lemma_words_parted(a.skip(1), space, b);
    } else {
        lemma_word_prefix_bound(a);
        let n = word_prefix(a) as int;
        assert(n > 0);
        assert forall|i: int| 0 <= i < n implies !is_white(#[trigger] s[i]) by {
            assert(s[i] == a[i]);
        }
        lemma_word_prefix(s, n);
        assert(s.take(n) == a.take(n));
        assert(s.skip(n) == a.skip(n) + seq![space] + b);
        lemma_words_parted(a.skip(n), space, b);
        assert(words(s) == seq![a.take(n)] + (words(a.skip(n)) + words(b)));
        assert(words(s) == words(a) + words(b));
    }
}

/// There are no words in white space.
pub proof fn lemma_blank_words(s: Seq<char>)
    requires
        is_blank(s),
    ensures
        words(s) == Seq::<Seq<char>>::empty(),
    decreases s.len(),
{
    if s.len() > 0 {
        assert(is_white(s[0]));
        assert forall|i: int| 0 <= i < s.skip(1).len() implies is_white(#[trigger] s.skip(1)[i]) by {
            assert(s.skip(1)[i] == s[i + 1]);
        }
        lemma_blank_words(s.skip(1));
    }
}

/// A text without white space is one word.
pub proof fn lemma_only_word(word: Seq<char>)
    requires
        word.len() > 0,
        forall|i: int| 0 <= i < word.len() ==> !is_white(#[trigger] word[i]),
    ensures
        words(word) == seq![word],
{
    lemma_word_prefix(word, word.len() as int);
    assert(!is_white(word[0]));
    assert(word.take(word.len() as int) == word);
    assert(words(word.skip(word.len() as int)) == Seq::<Seq<char>>::empty());
    assert(seq![word] + Seq::<Seq<char>>::empty() == seq![word]);
}

/// The index of the first `c` in `s`, or the length of `s`.
pub open spec fn index_of_char(s: Seq<char>, c: char) -> nat
    decreases s.len(),
{
    if s.len() == 0 || s[0] == c {
        0
    } else {
        1 + index_of_char(s.skip(1), c)
    }
}

/// `line` without one carriage return at its back.
pub open spec fn strip_return(line: Seq<char>) -> Seq<char> {
    if line.len() > 0 && line.last() == '\r' {
        line.drop_last()
    } else {
        line
    }
}

/// The lines of `s`: each ends at a line feed, which a carriage return may
/// precede, and the last one may have no end.
pub open spec fn lines(s: Seq<char>) -> Seq<Seq<char>>
    decreases s.len(),
{
    if s.len() == 0 {
        seq![]
    } else {
        let n = index_of_char(s, '\n') as int;
        if n < s.len() {
            seq![strip_return(s.take(n))] + lines(s.skip(n + 1))
        } else {
            seq![s]
        }
    }
}

pub proof fn lemma_index_of_char(s: Seq<char>, c: char, n: int)
    requires
        0 <= n <= s.len(),
        forall|i: int| 0 <= i < n ==> #[trigger] s[i] != c,
        n < s.len() ==> s[n] == c,
    ensures
        index_of_char(s, c) == n,
    decreases s.len(),
{
    if n > 0 {
        assert(s[0] != c);
        assert forall|i: int| 0 <= i < n - 1 implies #[trigger] s.skip(1)[i] != c by {
            assert(s.skip(1)[i] == s[i + 1]);
        }
        lemma_index_of_char(s.skip(1), c, n - 1);
    }
}

pub proof fn lemma_index_of_char_bound(s: Seq<char>, c: char)
    ensures
        index_of_char(s, c) <= s.len(),
        index_of_char(s, c) < s.len() ==> s[index_of_char(s, c) as int] == c,
        forall|i: int| 0 <= i < index_of_char(s, c) ==> #[trigger] s[i] != c,
    decreases s.len(),
{
    if s.len() > 0 && s[0] != c {
        lemma_index_of_char_bound(s.skip(1), c);
        assert forall|i: int| 0 <= i < index_of_char(s, c) implies #[trigger] s[i] != c by {
            if i > 0 {
                assert(s.skip(1)[i - 1] == s[i]);
            }
        }
    }
}

/// A line that a line feed ends is the first line.
pub proof fn lemma_first_line(line: Seq<char>, rest: Seq<char>)
    requires
        forall|i: int| 0 <= i < line.len() ==> #[trigger] line[i] != '\n',
    ensures
        lines(line + seq!['\n'] + rest) == seq![strip_return(line)] + lines(rest),
{
    let s = line + seq!['\n'] + rest;
    let n = line.len() as int;
    assert forall|i: int| 0 <= i < n implies #[trigger] s[i] != '\n' by {
        assert(s[i] == line[i]);
    }
    lemma_index_of_char(s, '\n', n);
    assert(s.take(n) == line);
    assert(s.skip(n + 1) == rest);
}

/// A text that one line can hold to its last character.
pub open spec fn fits_line(s: Seq<char>) -> bool {
    (forall|i: int| 0 <= i < s.len() ==> #[trigger] s[i] != '\n') && (s.len() > 0 ==> s.last()
        != '\r')
}

/// What stands behind the last line feed is a line.
pub proof fn lemma_new_line(before: Seq<char>, line: Seq<char>)
    requires
        fits_line(line),
        line.len() > 0,
    ensures
        lines(before + seq!['\n'] + line).contains(line),
{
    lemma_index_of_char(line, '\n', line.len() as int);
    assert(lines(line)[0] == line);
    lemma_lines_behind(before, line, line);
}

/// A line stays a line when a line feed and more follow.
pub proof fn lemma_line_kept(s: Seq<char>, line: Seq<char>, more: Seq<char>)
    requires
        fits_line(line),
        lines(s).contains(line),
        more.len() > 0,
        more[0] == '\n',
    ensures
        lines(s + more).contains(line),
    decreases s.len(),
{
    let k = choose|k: int| 0 <= k < lines(s).len() && lines(s)[k] == line;
    lemma_index_of_char_bound(s, '\n');
    let n = index_of_char(s, '\n') as int;
    let whole = s + more;
    assert forall|i: int| 0 <= i < n implies #[trigger] whole[i] != '\n' by {
        assert(whole[i] == s[i]);
    }
    assert(whole[n] == '\n');
    lemma_index_of_char(whole, '\n', n);
    assert(whole.take(n) == s.take(n));
    let rest = whole.skip(n + 1);
    let first = strip_return(s.take(n));
    assert(lines(whole) == seq![first] + lines(rest));
    if n == s.len() {
        assert(s.take(n) == s);
        assert(first == line);
        assert(lines(whole)[0] == line);
    } else if k == 0 {
        assert(lines(whole)[0] == line);
    } else {
        assert(lines(s.skip(n + 1))[k - 1] == line);
        assert(rest == s.skip(n + 1) + more);
        lemma_line_kept(s.skip(n + 1), line, more);
        let m = choose|m: int| 0 <= m < lines(rest).len() && lines(rest)[m] == line;
        assert(lines(whole)[m + 1] == line);
    }
}

/// The lines behind a line feed are lines of the whole.
proof fn lemma_lines_behind(before: Seq<char>, tail: Seq<char>, line: Seq<char>)
    requires
        lines(tail).contains(line),
    ensures
        lines(before + seq!['\n'] + tail).contains(line),
    decreases before.len(),
{
    let s = before + seq!['\n'] + tail;
    lemma_index_of_char_bound(s, '\n');
    let n = index_of_char(s, '\n') as int;
    let m = before.len() as int;
    assert(s[m] == '\n');
    assert(n <= m);
    let first = strip_return(s.take(n));
    let rest = s.skip(n + 1);
    if n == m {
        assert(rest == tail);
    } else {
        assert(rest == before.skip(n + 1) + seq!['\n'] + tail);
        lemma_lines_behind(before.skip(n + 1), tail, line);
    }
    let k = choose|k: int| 0 <= k < lines(rest).len() && lines(rest)[k] == line;
    assert((seq![first] + lines(rest))[k + 1] == line);
}

/// The index of the first `c` at or after `from`, or the length of `s`.
pub fn find_char(s: &[char], from: usize, c: char) -> (at: usize)
    requires
        from <= s@.len(),
    ensures
        from <= at <= s@.len(),
        at - from == index_of_char(s@.skip(from as int), c),
        at < s@.len() ==> s@[at as int] == c,
        forall|i: int| from <= i < at ==> #[trigger] s@[i] != c,
{
    let mut at: usize = from;
    while at < s.len() && s[at] != c
        invariant
            from <= at <= s@.len(),
            forall|i: int| from <= i < at ==> #[trigger] s@[i] != c,
        decreases s@.len() - at,
    {
        at += 1;
    }
    proof {
        let t = s@.skip(from as int);
        assert forall|i: int| 0 <= i < at - from implies #[trigger] t[i] != c by {
            assert(t[i] == s@[from + i]);
        }
        lemma_index_of_char(t, c, at - from);
    }
    at
}

/// The lines of `s`.
pub fn split_lines(s: &[char]) -> (out: Vec<Vec<char>>)
    ensures
        views(out@) == lines(s@),
{
    let mut out: Vec<Vec<char>> = Vec::new();
    let mut at: usize = 0;
    assert(s@.skip(0) == s@);
    while at < s.len()
        invariant
            at <= s@.len(),
            views(out@) + lines(s@.skip(at as int)) == lines(s@),
        decreases s@.len() - at,
    {
        let ghost rest = s@.skip(at as int);
        let ghost before = out@;
        let end = find_char(s, at, '\n');
        let ghost n = end - at;
        if end < s.len() {
            let mut stop: usize = end;
            if stop > at && s[stop - 1] == '\r' {
                stop -= 1;
            }
            let line = vstd::slice::slice_to_vec(vstd::slice::slice_subrange(s, at, stop));
            proof {
                let full = rest.take(n);
                assert(full == s@.subrange(at as int, end as int));
                if stop < end {
                    assert(full.last() == '\r');
                    assert(full.drop_last() == line@);
                } else {
                    assert(full == line@);
                    assert(full.len() > 0 ==> full.last() == s@[end - 1]);
                }
                assert(strip_return(full) == line@);
                assert(rest.skip(n + 1) == s@.skip(end + 1));
            }
            out.push(line);
            assert(views(out@) == views(before).push(line@));
            assert(views(before) + (seq![line@] + lines(s@.skip(end + 1))) == views(before).push(
                line@,
            ) + lines(s@.skip(end + 1)));
            at = end + 1;
        } else {
            let line = vstd::slice::slice_to_vec(vstd::slice::slice_subrange(s, at, end));
            assert(rest == line@);
            out.push(line);
            assert(views(out@) == views(before).push(line@));
            at = end;
            assert(s@.skip(end as int).len() == 0);
            assert(lines(s@.skip(end as int)) == Seq::<Seq<char>>::empty());
        }
    }
    assert(s@.skip(at as int).len() == 0);
    assert(views(out@) + lines(s@.skip(at as int)) == views(out@));
    out
}

// ---------------------------------------------------------------------------
// Splitting
// ---------------------------------------------------------------------------

/// `pat` stands in `s` at index `i`.
pub open spec fn occurs_at(s: Seq<char>, pat: Seq<char>, i: int) -> bool {
    0 <= i && i + pat.len() <= s.len() && s.subrange(i, i + pat.len()) == pat
}

/// `i` is the least index at which `pat` stands in `s`.
pub open spec fn first_at(s: Seq<char>, pat: Seq<char>, i: int) -> bool {
    occurs_at(s, pat, i) && forall|j: int| 0 <= j < i ==> !(#[trigger] occurs_at(s, pat, j))
}

/// What stands before and after the first `pat` in `s`.
pub open spec fn split_once(s: Seq<char>, pat: Seq<char>) -> Option<(Seq<char>, Seq<char>)> {
    if exists|i: int| first_at(s, pat, i) {
        let i = choose|i: int| first_at(s, pat, i);
        Some((s.take(i), s.skip(i + pat.len())))
    } else {
        None
    }
}

/// `i` is the greatest index at which `c` stands in `s`.
pub open spec fn last_at(s: Seq<char>, c: char, i: int) -> bool {
    0 <= i < s.len() && s[i] == c && forall|j: int| i < j < s.len() ==> #[trigger] s[j] != c
}

/// What stands before and after the last `c` in `s`.
pub open spec fn rsplit_once(s: Seq<char>, c: char) -> Option<(Seq<char>, Seq<char>)> {
    if exists|i: int| last_at(s, c, i) {
        let i = choose|i: int| last_at(s, c, i);
        Some((s.take(i), s.skip(i + 1)))
    } else {
        None
    }
}

/// What stands before and after the first `c` in `s`.
pub open spec fn split_char(s: Seq<char>, c: char) -> Option<(Seq<char>, Seq<char>)> {
    let n = index_of_char(s, c) as int;
    if n < s.len() {
        Some((s.take(n), s.skip(n + 1)))
    } else {
        None
    }
}

/// The pieces of `s` between its `c`s, in order.
pub open spec fn split_all(s: Seq<char>, c: char) -> Seq<Seq<char>>
    decreases s.len(),
{
    let n = index_of_char(s, c) as int;
    if n < s.len() {
        seq![s.take(n)] + split_all(s.skip(n + 1), c)
    } else {
        seq![s]
    }
}

/// The pair of slices before and after an occurrence is `split_once`.
pub proof fn lemma_split_once(s: Seq<char>, pat: Seq<char>, i: int)
    requires
        first_at(s, pat, i),
    ensures
        split_once(s, pat) == Some((s.take(i), s.skip(i + pat.len()))),
{
    let k = choose|k: int| first_at(s, pat, k);
    assert(first_at(s, pat, k));
    if k < i {
        assert(occurs_at(s, pat, k));
    } else if i < k {
        assert(occurs_at(s, pat, i));
    }
}

pub proof fn lemma_rsplit_once(s: Seq<char>, c: char, i: int)
    requires
        last_at(s, c, i),
    ensures
        rsplit_once(s, c) == Some((s.take(i), s.skip(i + 1))),
{
    let k = choose|k: int| last_at(s, c, k);
    assert(last_at(s, c, k));
    assert(k == i) by {
        if k < i {
            assert(s[i] != c);
        } else if i < k {
            assert(s[k] != c);
        }
    }
}

/// The least index at which `pat` stands in `s`.
pub fn find(s: &[char], pat: &[char]) -> (at: Option<usize>)
    ensures
        match at {
            Some(i) => first_at(s@, pat@, i as int) && split_once(s@, pat@) == Some(
                (s@.take(i as int), s@.skip(i + pat@.len())),
            ),
            None => split_once(s@, pat@) is None,
        },
{
    let mut i: usize = 0;
    while i <= s.len() && pat.len() <= s.len() - i
        invariant
            i <= s@.len() + 1,
            forall|j: int| 0 <= j < i ==> !(#[trigger] occurs_at(s@, pat@, j)),
        decreases s@.len() + 1 - i,
    {
        if chars_eq(vstd::slice::slice_subrange(s, i, i + pat.len()), pat) {
            proof {
                assert(occurs_at(s@, pat@, i as int));
                lemma_split_once(s@, pat@, i as int);
            }
            return Some(i);
        }
        assert(!occurs_at(s@, pat@, i as int));
        if i == s.len() {
            assert forall|j: int| !first_at(s@, pat@, j) by {
                if first_at(s@, pat@, j) {
                    assert(occurs_at(s@, pat@, j));
                }
            }
            return None;
        }
        i += 1;
    }
    assert forall|j: int| !first_at(s@, pat@, j) by {
        if first_at(s@, pat@, j) {
            assert(occurs_at(s@, pat@, j));
        }
    }
    None
}

/// The greatest index at which `c` stands in `s`.
pub fn find_last(s: &[char], c: char) -> (at: Option<usize>)
    ensures
        match at {
            Some(i) => i < s@.len() && rsplit_once(s@, c) == Some(
                (s@.take(i as int), s@.skip(i + 1)),
            ),
            None => rsplit_once(s@, c) is None,
        },
{
    let mut i: usize = s.len();
    while i > 0
        invariant
            i <= s@.len(),
            forall|j: int| i <= j < s@.len() ==> #[trigger] s@[j] != c,
        decreases i,
    {
        i -= 1;
        if s[i] == c {
            proof {
                lemma_rsplit_once(s@, c, i as int);
            }
            return Some(i);
        }
    }
    None
}

/// The pieces of `s` between its `c`s.
pub fn split_pieces(s: &[char], c: char) -> (out: Vec<Vec<char>>)
    ensures
        views(out@) == split_all(s@, c),
{
    let mut out: Vec<Vec<char>> = Vec::new();
    let mut at: usize = 0;
    assert(s@.skip(0) == s@);
    assert(views(out@) + split_all(s@, c) == split_all(s@, c));
    loop
        invariant
            at <= s@.len(),
            views(out@) + split_all(s@.skip(at as int), c) == split_all(s@, c),
        decreases s@.len() - at,
    {
        let ghost rest = s@.skip(at as int);
        let ghost before = out@;
        let end = find_char(s, at, c);
        let piece = vstd::slice::slice_to_vec(vstd::slice::slice_subrange(s, at, end));
        out.push(piece);
        assert(views(out@) == views(before).push(piece@));
        if end == s.len() {
            assert(rest == piece@);
            assert(views(before) + seq![piece@] == views(before).push(piece@));
            return out;
        }
        assert(rest.take(end - at) == piece@);
        assert(rest.skip(end - at + 1) == s@.skip(end + 1));
        assert(views(before) + (seq![piece@] + split_all(s@.skip(end + 1), c)) == views(
            before,
        ).push(piece@) + split_all(s@.skip(end + 1), c));
        at = end + 1;
    }
}

// ---------------------------------------------------------------------------
// Numbers
// ---------------------------------------------------------------------------

/// Why a text is not a number of the wanted type.
#[derive(Clone, Copy, Debug, PartialEq, Eq, Structural)]
pub enum NumError {
    /// There is no character at all.
    Empty,
    /// A character is no digit of the base.
    InvalidDigit,
    /// The number is above the greatest one that fits.
    PosOverflow,
}

impl NumError {
    /// The words that describe the error.
    pub open spec fn words(self) -> Seq<char> {
        match self {
            NumError::Empty => "cannot parse integer from empty string"@,
            NumError::InvalidDigit => "invalid digit found in string"@,
            NumError::PosOverflow => "number too large to fit in target type"@,
        }
    }

    /// The words that describe the error.
    pub fn message(self) -> (text: String)
        ensures
            text@ == self.words(),
    {
        match self {
            NumError::Empty => "cannot parse integer from empty string".to_owned(),
            NumError::InvalidDigit => "invalid digit found in string".to_owned(),
            NumError::PosOverflow => "number too large to fit in target type".to_owned(),
        }
    }
}

/// A decimal digit.
pub open spec fn is_digit(c: char) -> bool {
    '0' <= c <= '9'
}

/// The value of `c` as a digit of base `radix`, which is at most sixteen.
pub open spec fn digit_value(c: char, radix: nat) -> Option<nat> {
    let v = if '0' <= c <= '9' {
        (c as u32 - '0' as u32) as nat
    } else if 'a' <= c <= 'f' {
        (c as u32 - 'a' as u32 + 10) as nat
    } else if 'A' <= c <= 'F' {
        (c as u32 - 'A' as u32 + 10) as nat
    } else {
        16
    };
    if v < radix {
        Some(v)
    } else {
        None
    }
}

/// The number that the digits `s` denote, if it is at most `max`. The first
/// character, from the left, at which this fails decides the error.
pub open spec fn parse_digits(s: Seq<char>, radix: nat, max: nat) -> Result<nat, NumError>
    decreases s.len(),
{
    if s.len() == 0 {
        Ok(0)
    } else {
        match parse_digits(s.drop_last(), radix, max) {
            Err(e) => Err(e),
            Ok(v) => match digit_value(s.last(), radix) {
                None => Err(NumError::InvalidDigit),
                Some(d) => if v * radix + d > max {
                    Err(NumError::PosOverflow)
                } else {
                    Ok((v * radix + d) as nat)
                },
            },
        }
    }
}

/// The number that `s` denotes: digits, which one plus sign may precede.
pub open spec fn parse_number(s: Seq<char>, radix: nat, max: nat) -> Result<nat, NumError> {
    if s.len() == 0 {
        Err(NumError::Empty)
    } else if s == seq!['+'] {
        Err(NumError::InvalidDigit)
    } else if s[0] == '+' {
        parse_digits(s.skip(1), radix, max)
    } else {
        parse_digits(s, radix, max)
    }
}

/// An error in a prefix is the error of the whole.
proof fn lemma_parse_digits_error(s: Seq<char>, n: int, radix: nat, max: nat)
    requires
        0 <= n <= s.len(),
        parse_digits(s.take(n), radix, max) is Err,
    ensures
        parse_digits(s, radix, max) == parse_digits(s.take(n), radix, max),
    decreases s.len() - n,
{
    if n == s.len() {
        assert(s.take(n) == s);
    } else {
        assert(s.take(n + 1).drop_last() == s.take(n));
        lemma_parse_digits_error(s, n + 1, radix, max);
    }
}

/// The value of `c` as a digit of base `radix`.
fn digit_of(c: char, radix: u64) -> (value: Option<u64>)
    requires
        radix <= 16,
    ensures
        match value {
            Some(v) => digit_value(c, radix as nat) == Some(v as nat) && v < radix,
            None => digit_value(c, radix as nat) is None,
        },
{
    let v: u64 = if '0' <= c && c <= '9' {
        c as u64 - 48
    } else if 'a' <= c && c <= 'f' {
        c as u64 - 87
    } else if 'A' <= c && c <= 'F' {
        c as u64 - 55
    } else {
        16
    };
    if v < radix {
        Some(v)
    } else {
        None
    }
}

/// The number that the digits `s` denote.
fn read_digits(s: &[char], radix: u64, max: u64) -> (value: Result<u64, NumError>)
    requires
        radix <= 16,
    ensures
        match value {
            Ok(v) => parse_digits(s@, radix as nat, max as nat) == Ok::<nat, NumError>(v as nat)
                && v <= max,
            Err(e) => parse_digits(s@, radix as nat, max as nat) == Err::<nat, NumError>(e),
        },
{
    let mut v: u64 = 0;
    for i in 0..s.len()
        invariant
            radix <= 16,
            v <= max,
            parse_digits(s@.take(i as int), radix as nat, max as nat) == Ok::<nat, NumError>(
                v as nat,
            ),
    {
        proof {
            assert(s@.take(i + 1).drop_last() == s@.take(i as int));
            assert(s@.take(i + 1).last() == s@[i as int]);
            assert(0 <= v * radix <= 0xffff_ffff_ffff_ffff * 16) by (nonlinear_arith)
                requires
                    0 <= v <= 0xffff_ffff_ffff_ffff,
                    0 <= radix <= 16,
            ;
        }
        match digit_of(s[i], radix) {
            None => {
                proof {
                    lemma_parse_digits_error(s@, i + 1, radix as nat, max as nat);
                }
                return Err(NumError::InvalidDigit);
            },
            Some(d) => {
                let next: u128 = v as u128 * radix as u128 + d as u128;
                if next > max as u128 {
                    proof {
                        lemma_parse_digits_error(s@, i + 1, radix as nat, max as nat);
                    }
                    return Err(NumError::PosOverflow);
                }
                v = next as u64;
            },
        }
    }
    assert(s@.take(s@.len() as int) == s@);
    Ok(v)
}

/// The number that `s` denotes in base `radix`, if it is at most `max`.
pub fn read_number(s: &[char], radix: u64, max: u64) -> (value: Result<u64, NumError>)
    requires
        radix <= 16,
    ensures
        match value {
            Ok(v) => parse_number(s@, radix as nat, max as nat) == Ok::<nat, NumError>(v as nat)
                && v <= max,
            Err(e) => parse_number(s@, radix as nat, max as nat) == Err::<nat, NumError>(e),
        },
{
    if s.len() == 0 {
        return Err(NumError::Empty);
    }
    if s[0] == '+' {
        if s.len() == 1 {
            assert(s@ == seq!['+']);
            return Err(NumError::InvalidDigit);
        }
        let rest = vstd::slice::slice_subrange(s, 1, s.len());
        assert(rest@ == s@.skip(1));
        read_digits(rest, radix, max)
    } else {
        read_digits(s, radix, max)
    }
}

/// The character of a digit below sixteen.
pub open spec fn digit_char(d: nat) -> char {
    seq!['0', '1', '2', '3', '4', '5', '6', '7', '8', '9', 'a', 'b', 'c', 'd', 'e', 'f'][d as int]
}

/// The decimal digits of `n`, without leading zeros.
pub open spec fn dec(n: nat) -> Seq<char>
    decreases n,
{
    if n < 10 {
        seq![digit_char(n)]
    } else {
        dec(n / 10).push(digit_char(n % 10))
    }
}

/// The decimal digits of `n`, filled with zeros at the front up to `width`.
pub open spec fn dec_padded(n: nat, width: nat) -> Seq<char> {
    let digits = dec(n);
    if digits.len() < width {
        Seq::new((width - digits.len()) as nat, |i: int| '0') + digits
    } else {
        digits
    }
}

/// The two hexadecimal digits of a byte.
pub open spec fn hex2(b: u8) -> Seq<char> {
    seq![digit_char(b as nat / 16), digit_char(b as nat % 16)]
}

/// The character of a digit below sixteen.
fn to_digit(d: u8) -> (c: char)
    requires
        d < 16,
    ensures
        c == digit_char(d as nat),
{
    let digits: [char; 16] = [
        '0', '1', '2', '3', '4', '5', '6', '7', '8', '9', 'a', 'b', 'c', 'd', 'e', 'f',
    ];
    digits[d as usize]
}

/// Appends the decimal digits of `n`.
pub fn push_dec(out: &mut String, n: u64)
    ensures
        final(out)@ == old(out)@ + dec(n as nat),
    decreases n,
{
    let ghost start = out@;
    if n >= 10 {
        push_dec(out, n / 10);
    }
    out.push(to_digit((n % 10) as u8));
    assert(out@ == start + dec(n as nat));
}

/// Appends the decimal digits of `n`, filled with zeros up to `width`.
pub fn push_dec_padded(out: &mut String, n: u64, width: usize)
    ensures
        final(out)@ == old(out)@ + dec_padded(n as nat, width as nat),
{
    let ghost start = out@;
    let mut digits = String::new();
    push_dec(&mut digits, n);
    let digits = chars_of(digits.as_str());
    assert(digits@ == dec(n as nat));
    let mut have: usize = digits.len();
    while have < width
        invariant
            digits@.len() <= have,
            have <= width || have == digits@.len(),
            out@ == start + Seq::new((have - digits@.len()) as nat, |i: int| '0'),
        decreases width - have,
    {
        out.push('0');
        have += 1;
        assert(out@ == start + Seq::new((have - digits@.len()) as nat, |i: int| '0'));
    }
    push_chars(out, digits.as_slice());
    assert(out@ == start + dec_padded(n as nat, width as nat));
}

/// Appends the two hexadecimal digits of `b`.
pub fn push_hex2(out: &mut String, b: u8)
    ensures
        final(out)@ == old(out)@ + hex2(b),
{
    let ghost start = out@;
    out.push(to_digit(b / 16));
    out.push(to_digit(b % 16));
    assert(out@ == start + hex2(b));
}

/// Writing a number in decimal and reading it back gives the number.
pub proof fn law_decimal_round_trip(n: nat, max: nat)
    requires
        n <= max,
    ensures
        parse_digits(dec(n), 10, max) == Ok::<nat, NumError>(n),
        parse_number(dec(n), 10, max) == Ok::<nat, NumError>(n),
{
    lemma_parse_dec(n, max);
    lemma_dec_chars(n);
    assert('0' <= dec(n)[0] <= '9');
}

proof fn lemma_parse_dec(n: nat, max: nat)
    requires
        n <= max,
    ensures
        parse_digits(dec(n), 10, max) == Ok::<nat, NumError>(n),
    decreases n,
{
    let s = dec(n);
    let d = n % 10;
    assert(digit_value(digit_char(d), 10) == Some(d));
    if n < 10 {
        assert(s.drop_last() == Seq::<char>::empty());
        assert(parse_digits(s.drop_last(), 10, max) == Ok::<nat, NumError>(0));
    } else {
        lemma_parse_dec(n / 10, max);
        assert(s.drop_last() == dec(n / 10));
        assert(s.last() == digit_char(d));
    }
}

/// A number in decimal is at least one digit long, and all of it is digits.
pub proof fn lemma_dec_chars(n: nat)
    ensures
        dec(n).len() > 0,
        forall|i: int| 0 <= i < dec(n).len() ==> '0' <= #[trigger] dec(n)[i] <= '9',
    decreases n,
{
    if n >= 10 {
        lemma_dec_chars(n / 10);
        assert forall|i: int| 0 <= i < dec(n).len() implies '0' <= #[trigger] dec(n)[i] <= '9' by {
            if i < dec(n / 10).len() {
                assert(dec(n)[i] == dec(n / 10)[i]);
            }
        }
    }
}

// ---------------------------------------------------------------------------
// Laws
// ---------------------------------------------------------------------------

/// Trimming takes away the white space around a text that begins and ends with
/// something else, however much of it there is, and nothing of the text.
pub proof fn law_trim_takes_surrounding_space(a: Seq<char>, t: Seq<char>, b: Seq<char>)
    requires
        forall|i: int| 0 <= i < a.len() ==> is_white(#[trigger] a[i]),
        forall|i: int| 0 <= i < b.len() ==> is_white(#[trigger] b[i]),
        t.len() > 0 ==> !is_white(t[0]) && !is_white(t.last()),
    ensures
        trim(a + t + b) == t,
        trim_start(a + t) == t,
{
    let s = a + t + b;
    assert forall|i: int| 0 <= i < a.len() implies is_white(#[trigger] (a + t)[i]) by {
        assert((a + t)[i] == a[i]);
    }
    lemma_white_prefix(a + t, a.len() as int);
    assert(trim_start(a + t) == t);
    if t.len() == 0 {
        assert forall|i: int| 0 <= i < s.len() implies is_white(#[trigger] s[i]) by {
            if i < a.len() {
                assert(s[i] == a[i]);
            } else {
                assert(s[i] == b[i - a.len()]);
            }
        }
        law_trimming_empties_blanks(s);
        assert(trim(s) == t);
    } else {
        assert forall|i: int| 0 <= i < a.len() implies is_white(#[trigger] s[i]) by {
            assert(s[i] == a[i]);
        }
        assert(s[a.len() as int] == t[0]);
        lemma_white_prefix(s, a.len() as int);
        assert(trim_start(s) == t + b);
        lemma_trim_end(t, b);
    }
}

proof fn lemma_trim_end(t: Seq<char>, b: Seq<char>)
    requires
        t.len() > 0,
        !is_white(t.last()),
        forall|i: int| 0 <= i < b.len() ==> is_white(#[trigger] b[i]),
    ensures
        trim_end(t + b) == t,
    decreases b.len(),
{
    let s = t + b;
    if b.len() == 0 {
        assert(s == t);
    } else {
        assert(s.last() == b[b.len() - 1]);
        assert(s.drop_last() == t + b.drop_last());
        lemma_trim_end(t, b.drop_last());
    }
}

/// The words are the longest runs without white space: a text without any is one
/// word, the empty text is none, and a white character parts what is before it
/// from what is behind it.
pub proof fn law_words(a: Seq<char>, space: char, b: Seq<char>, word: Seq<char>)
    requires
        is_white(space),
        forall|i: int| 0 <= i < word.len() ==> !is_white(#[trigger] word[i]),
    ensures
        words(a + seq![space] + b) == words(a) + words(b),
        word.len() > 0 ==> words(word) == seq![word],
        words(Seq::<char>::empty()) == Seq::<Seq<char>>::empty(),
{
    lemma_words_parted(a, space, b);
    if word.len() > 0 {
        lemma_only_word(word);
    }
}

/// A line ends at a line feed, or at a carriage return and a line feed, of which
/// neither belongs to it. The last line needs no end, and nothing is no line.
pub proof fn law_lines(line: Seq<char>, rest: Seq<char>)
    requires
        forall|i: int| 0 <= i < line.len() ==> #[trigger] line[i] != '\n',
    ensures
        lines(line + seq!['\r', '\n'] + rest) == seq![line] + lines(rest),
        line.len() == 0 || line.last() != '\r' ==> lines(line + seq!['\n'] + rest) == seq![line]
            + lines(rest),
        line.len() > 0 ==> lines(line) == seq![line],
        lines(Seq::<char>::empty()) == Seq::<Seq<char>>::empty(),
{
    let ended = line.push('\r');
    assert forall|i: int| 0 <= i < ended.len() implies #[trigger] ended[i] != '\n' by {
        if i < line.len() {
            assert(ended[i] == line[i]);
        }
    }
    lemma_first_line(ended, rest);
    assert(ended + seq!['\n'] + rest == line + seq!['\r', '\n'] + rest);
    assert(strip_return(ended) == line);
    lemma_first_line(line, rest);
    if line.len() > 0 {
        lemma_index_of_char(line, '\n', line.len() as int);
    }
}

/// A text is split at the first occurrence of a pattern, and it is split wherever
/// the pattern occurs at all.
pub proof fn law_split_at_first_pattern(a: Seq<char>, pat: Seq<char>, b: Seq<char>)
    ensures
        split_once(a + pat + b, pat) matches Some((before, after)) && before.len() <= a.len()
            && before + pat + after == a + pat + b,
{
    let s = a + pat + b;
    assert(s.subrange(a.len() as int, (a.len() + pat.len()) as int) == pat);
    assert(occurs_at(s, pat, a.len() as int));
    lemma_first_exists(s, pat, a.len() as int);
    let i = choose|i: int| first_at(s, pat, i);
    if a.len() < i {
        assert(!occurs_at(s, pat, a.len() as int));
    }
    lemma_split_once(s, pat, i);
    assert(s.take(i) + pat + s.skip(i + pat.len()) == s) by {
        assert(s.subrange(i, i + pat.len()) == pat);
        assert(s == s.take(i) + s.subrange(i, i + pat.len()) + s.skip(i + pat.len()));
    }
}

/// A text is split only where the pattern occurs.
pub proof fn law_split_needs_pattern(s: Seq<char>, pat: Seq<char>)
    ensures
        split_once(s, pat) matches Some((before, after)) ==> before + pat + after == s,
{
    if split_once(s, pat) is Some {
        let i = choose|i: int| first_at(s, pat, i);
        assert(first_at(s, pat, i));
        assert(s.subrange(i, i + pat.len()) == pat);
        assert(s == s.take(i) + s.subrange(i, i + pat.len()) + s.skip(i + pat.len()));
    }
}

proof fn lemma_first_exists(s: Seq<char>, pat: Seq<char>, n: int)
    requires
        occurs_at(s, pat, n),
    ensures
        exists|i: int| first_at(s, pat, i),
    decreases n,
{
    if exists|j: int| 0 <= j < n && occurs_at(s, pat, j) {
        let j = choose|j: int| 0 <= j < n && occurs_at(s, pat, j);
        lemma_first_exists(s, pat, j);
    } else {
        assert forall|j: int| 0 <= j < n implies !(#[trigger] occurs_at(s, pat, j)) by {}
        assert(first_at(s, pat, n));
    }
}

/// A text is split at its last, its first, or each of its occurrences of a
/// character, wherever these stand.
pub proof fn law_split_at_character(a: Seq<char>, c: char, b: Seq<char>)
    ensures
        (forall|i: int| 0 <= i < b.len() ==> #[trigger] b[i] != c) ==> rsplit_once(
            a + seq![c] + b,
            c,
        ) == Some((a, b)),
        (forall|i: int| 0 <= i < a.len() ==> #[trigger] a[i] != c) ==> {
            &&& split_char(a + seq![c] + b, c) == Some((a, b))
            &&& split_all(a + seq![c] + b, c) == seq![a] + split_all(b, c)
            &&& rsplit_once(a, c) is None
            &&& split_char(a, c) is None
            &&& split_all(a, c) == seq![a]
        },
{
    let s = a + seq![c] + b;
    let n = a.len() as int;
    assert(s.take(n) == a);
    assert(s.skip(n + 1) == b);
    assert(s[n] == c);
    if forall|i: int| 0 <= i < b.len() ==> #[trigger] b[i] != c {
        assert forall|j: int| n < j < s.len() implies #[trigger] s[j] != c by {
            assert(s[j] == b[j - n - 1]);
        }
        assert(last_at(s, c, n));
        lemma_rsplit_once(s, c, n);
    }
    if forall|i: int| 0 <= i < a.len() ==> #[trigger] a[i] != c {
        assert forall|i: int| 0 <= i < n implies #[trigger] s[i] != c by {
            assert(s[i] == a[i]);
        }
        lemma_index_of_char(s, c, n);
        lemma_index_of_char(a, c, n);
        assert forall|i: int| !last_at(a, c, i) by {}
    }
}

/// Decimal digits are read from the left, each as ten times what is before it
/// and its own value. A character that is no digit, and a number that is too
/// great, is refused where it stands.
pub proof fn law_decimal_is_read_digit_by_digit(s: Seq<char>, c: char, max: nat)
    ensures
        parse_digits(Seq::<char>::empty(), 10, max) == Ok::<nat, NumError>(0),
        ({
            let next = parse_digits(s.push(c), 10, max);
            match parse_digits(s, 10, max) {
                Err(e) => next == Err::<nat, NumError>(e),
                Ok(v) => if 48 <= c as int <= 57 {
                    let sum = v * 10 + (c as int - 48);
                    next == if sum <= max {
                        Ok::<nat, NumError>(sum as nat)
                    } else {
                        Err(NumError::PosOverflow)
                    }
                } else {
                    next == Err::<nat, NumError>(NumError::InvalidDigit)
                },
            }
        }),
{
    assert(s.push(c).drop_last() == s);
}

/// The value of a hexadecimal digit, in either case.
pub open spec fn nibble(c: char) -> int {
    if 48 <= c as int <= 57 {
        c as int - 48
    } else if 97 <= c as int <= 102 {
        c as int - 87
    } else if 65 <= c as int <= 70 {
        c as int - 55
    } else {
        -1
    }
}

/// Hexadecimal digits are read in the same way, in steps of sixteen.
pub proof fn law_hexadecimal_is_read_digit_by_digit(s: Seq<char>, c: char, max: nat)
    ensures
        parse_digits(Seq::<char>::empty(), 16, max) == Ok::<nat, NumError>(0),
        ({
            let next = parse_digits(s.push(c), 16, max);
            match parse_digits(s, 16, max) {
                Err(e) => next == Err::<nat, NumError>(e),
                Ok(v) => if nibble(c) >= 0 {
                    let sum = v * 16 + nibble(c);
                    next == if sum <= max {
                        Ok::<nat, NumError>(sum as nat)
                    } else {
                        Err(NumError::PosOverflow)
                    }
                } else {
                    next == Err::<nat, NumError>(NumError::InvalidDigit)
                },
            }
        }),
{
    assert(s.push(c).drop_last() == s);
}

/// One plus sign may stand before the digits, and there is at least one digit.
pub proof fn law_numbers_may_have_a_plus_sign(s: Seq<char>, radix: nat, max: nat)
    ensures
        parse_number(Seq::<char>::empty(), radix, max) == Err::<nat, NumError>(NumError::Empty),
        parse_number(seq!['+'], radix, max) == Err::<nat, NumError>(NumError::InvalidDigit),
        s.len() > 0 ==> parse_number(seq!['+'] + s, radix, max) == parse_digits(s, radix, max),
        s.len() > 0 && s[0] != '+' ==> parse_number(s, radix, max) == parse_digits(s, radix, max),
{
    assert(seq!['+'].len() == 1);
    if s.len() > 0 {
        let signed = seq!['+'] + s;
        assert(signed.len() > 1);
        assert(signed.skip(1) == s);
    }
    if s.len() > 0 && s[0] != '+' {
        assert(s != seq!['+']);
    }
}

/// The decimal digits of a number: its last digit is the remainder by ten, and
/// the digits before it are those of the quotient.
pub proof fn law_decimal_digits(n: nat)
    ensures
        dec(n).len() > 0,
        dec(n).last() as int == 48 + n % 10,
        n < 10 ==> dec(n).len() == 1,
        n >= 10 ==> dec(n).drop_last() == dec(n / 10),
{
    let d = n % 10;
    assert(digit_char(d) as int == 48 + d);
    if n >= 10 {
        assert(dec(n).drop_last() == dec(n / 10));
    }
}

/// Zeros fill a number up to its width, and a longer number stands as it is.
pub proof fn law_padding_is_zeros(n: nat, width: nat)
    ensures
        dec(n).len() >= width ==> dec_padded(n, width) == dec(n),
        dec(n).len() < width ==> {
            &&& dec_padded(n, width).len() == width
            &&& dec_padded(n, width).skip(width - dec(n).len()) == dec(n)
            &&& forall|i: int|
                0 <= i < width - dec(n).len() ==> #[trigger] dec_padded(n, width)[i] == '0'
        },
{
    if dec(n).len() < width {
        assert(dec_padded(n, width).skip(width - dec(n).len()) == dec(n));
    }
}

/// The two hexadecimal digits of a byte denote the byte.
pub proof fn law_byte_digits(b: u8)
    ensures
        hex2(b).len() == 2,
        nibble(hex2(b)[0]) * 16 + nibble(hex2(b)[1]) == b,
        nibble(hex2(b)[0]) >= 0,
        nibble(hex2(b)[1]) >= 0,
        parse_digits(hex2(b), 16, 255) == Ok::<nat, NumError>(b as nat),
        forall|i: int|
            0 <= i < 2 ==> '0' <= #[trigger] hex2(b)[i] <= '9' || 'a' <= hex2(b)[i] <= 'f',
{
    let hi = b as nat / 16;
    let lo = b as nat % 16;
    assert(nibble(digit_char(hi)) == hi);
    assert(nibble(digit_char(lo)) == lo);
    let one = seq![digit_char(hi)];
    assert(Seq::<char>::empty().push(digit_char(hi)) == one);
    assert(one.push(digit_char(lo)) == hex2(b));
    law_hexadecimal_is_read_digit_by_digit(Seq::<char>::empty(), digit_char(hi), 255);
    law_hexadecimal_is_read_digit_by_digit(one, digit_char(lo), 255);
}

} // verus!
