//! Text as sequences of characters: whitespace, lines, words, numbers, columns.
use crate::sequences::{find, join, lemma_find_is, occurs};
use vstd::prelude::*;
use vstd::utf8::{
    char_is_scalar, char_u32_cast, decode_utf8, encode_scalar, encode_utf8, encode_utf8_decode_utf8, encode_utf8_valid_utf8,
    is_ascii_chars, is_scalar, valid_utf8,
};

verus! {

/// `String::push` appends one character.
pub assume_specification[ String::push ](s: &mut String, c: char)
    ensures
        final(s)@ == old(s)@.push(c),
;

/// What `String::from_utf8_lossy` makes of bytes that are not UTF-8.
pub uninterp spec fn lossy(bytes: Seq<u8>) -> Seq<char>;

/// Bytes as text: what they encode where they are UTF-8, and a stand-in where they are not.
pub open spec fn shown(bytes: Seq<u8>) -> Seq<char> {
    if valid_utf8(bytes) {
        decode_utf8(bytes)
    } else {
        lossy(bytes)
    }
}

/// Calls `String::from_utf8_lossy`: UTF-8 gives the text that it encodes. Other bytes give a text
/// that depends on the bytes alone, in which an ASCII character comes from a byte of its own.
#[verifier::external_body]
pub(crate) fn text_lossy(bytes: &[u8]) -> (res: String)
    ensures
        res@ == (if valid_utf8(bytes@) {
            decode_utf8(bytes@)
        } else {
            lossy(bytes@)
        }),
        forall|c: char|
            (c as u32) < 128 && #[trigger] res@.contains(c) ==> bytes@.contains(c as u8),
{
    String::from_utf8_lossy(bytes).into_owned()
}

/// What `str::to_lowercase` makes of a text.
pub uninterp spec fn lowercase(s: Seq<char>) -> Seq<char>;

/// The lower case of an ASCII letter; any other character as it is.
pub open spec fn ascii_lowercase(c: char) -> char {
    if 'A' <= c <= 'Z' {
        ((c as u32) + 32) as char
    } else {
        c
    }
}

/// Calls `str::to_lowercase`: the result depends on the text alone, and an ASCII text changes
/// letter by letter. What becomes of other letters is not stated.
#[verifier::external_body]
pub(crate) fn text_lowercase(text: &str) -> (res: String)
    ensures
        res@ == lowercase(text@),
        is_ascii_chars(text@) ==> res@ == text@.map_values(|c: char| ascii_lowercase(c)),
{
    text.to_lowercase()
}

/// The characters of `text`.
pub fn chars_of(text: &str) -> (res: Vec<char>)
    ensures
        res@ == text@,
{
    let mut out: Vec<char> = Vec::new();
    for c in it: text.chars()
        invariant
            it.seq() == text@,
            out@ == text@.take(it.index() as int),
    {
        out.push(c);
        assert(out@ =~= text@.take(it.index() + 1));
    }
    assert(out@ =~= text@);
    out
}

/// The characters of `chars` from `from` up to `to`, as text.
pub fn text_of(chars: &Vec<char>, from: usize, to: usize) -> (res: String)
    requires
        from <= to <= chars@.len(),
    ensures
        res@ == chars@.subrange(from as int, to as int),
{
    let mut out = String::new();
    let mut i: usize = from;
    while i < to
        invariant
            from <= i <= to <= chars@.len(),
            out@ == chars@.subrange(from as int, i as int),
        decreases to - i,
    {
        out.push(chars[i]);
        assert(out@ =~= chars@.subrange(from as int, i + 1));
        i = i + 1;
    }
    out
}

// ---------------------------------------------------------------------------------------------
// Whitespace
// ---------------------------------------------------------------------------------------------

/// The characters with the Unicode property `White_Space`.
pub open spec fn white_space(c: char) -> bool {
    ||| '\u{9}' <= c <= '\u{d}'
    ||| c == '\u{20}'
    ||| c == '\u{85}'
    ||| c == '\u{a0}'
    ||| c == '\u{1680}'
    ||| '\u{2000}' <= c <= '\u{200a}'
    ||| c == '\u{2028}'
    ||| c == '\u{2029}'
    ||| c == '\u{202f}'
    ||| c == '\u{205f}'
    ||| c == '\u{3000}'
}

/// Whether `c` is whitespace.
pub fn is_white_space(c: char) -> (res: bool)
    ensures
        res == white_space(c),
{
    ('\u{9}' <= c && c <= '\u{d}') || c == '\u{20}' || c == '\u{85}' || c == '\u{a0}' || c
        == '\u{1680}' || ('\u{2000}' <= c && c <= '\u{200a}') || c == '\u{2028}' || c == '\u{2029}'
        || c == '\u{202f}' || c == '\u{205f}' || c == '\u{3000}'
}

/// `s` without the whitespace at its start.
pub open spec fn trim_start(s: Seq<char>) -> Seq<char>
    decreases s.len(),
{
    if s.len() > 0 && white_space(s[0]) {
        trim_start(s.drop_first())
    } else {
        s
    }
}

/// `s` without the whitespace at its end.
pub open spec fn trim_end(s: Seq<char>) -> Seq<char>
    decreases s.len(),
{
    if s.len() > 0 && white_space(s.last()) {
        trim_end(s.drop_last())
    } else {
        s
    }
}

/// `s` without the whitespace at either end.
pub open spec fn trimmed(s: Seq<char>) -> Seq<char> {
    trim_end(trim_start(s))
}

/// `text` without the whitespace at either end.
pub fn trim(text: &str) -> (res: String)
    ensures
        res@ == trimmed(text@),
{
    let chars = chars_of(text);
    let mut from: usize = 0;
    assert(chars@.skip(0) =~= chars@);
    while from < chars.len() && is_white_space(chars[from])
        invariant
            from <= chars@.len(),
            trim_start(chars@) == trim_start(chars@.skip(from as int)),
        decreases chars@.len() - from,
    {
        assert(chars@.skip(from as int).drop_first() =~= chars@.skip(from + 1));
        from = from + 1;
    }
    let mut to: usize = chars.len();
    assert(chars@.skip(from as int) =~= chars@.subrange(from as int, to as int));
    while from < to && is_white_space(chars[to - 1])
        invariant
            from <= to <= chars@.len(),
            trim_end(chars@.skip(from as int)) == trim_end(
                chars@.subrange(from as int, to as int),
            ),
        decreases to - from,
    {
        assert(chars@.subrange(from as int, to as int).drop_last() =~= chars@.subrange(
            from as int,
            to - 1,
        ));
        to = to - 1;
    }
    text_of(&chars, from, to)
}

// ---------------------------------------------------------------------------------------------
// Lines
// ---------------------------------------------------------------------------------------------

/// A line without the carriage return at its end.
pub open spec fn strip_return(s: Seq<char>) -> Seq<char> {
    if s.len() > 0 && s.last() == '\r' {
        s.drop_last()
    } else {
        s
    }
}

/// The lines of `s`: each ends at a line feed, with or without a carriage return before it, and
/// what follows the last line feed is a line too unless it is empty.
pub open spec fn lines(s: Seq<char>) -> Seq<Seq<char>>
    decreases s.len(),
{
    let i = find(s, '\n') as int;
    if s.len() == 0 {
        seq![]
    } else if i >= s.len() {
        seq![s]
    } else {
        seq![strip_return(s.take(i))] + lines(s.skip(i + 1))
    }
}

/// The lines of `text`.
pub fn lines_of(text: &str) -> (res: Vec<Vec<char>>)
    ensures
        res.deep_view() == lines(text@),
{
    let chars = chars_of(text);
    let mut out: Vec<Vec<char>> = Vec::new();
    let mut from: usize = 0;
    assert(chars@.skip(0) =~= chars@);
    assert(out.deep_view() + lines(chars@) =~= lines(chars@));
    while from < chars.len()
        invariant
            from <= chars@.len(),
            out.deep_view() + lines(chars@.skip(from as int)) == lines(chars@),
        decreases chars@.len() - from,
    {
        let ghost rest = chars@.skip(from as int);
        let mut to: usize = from;
        while to < chars.len() && chars[to] != '\n'
            invariant
                from <= to <= chars@.len(),
                forall|j: int| from <= j < to ==> chars@[j] != '\n',
            decreases chars@.len() - to,
        {
            to = to + 1;
        }
        proof {
            lemma_find_is(rest, '\n', to - from);
        }
        let mut end: usize = to;
        if to < chars.len() && from < to && chars[to - 1] == '\r' {
            end = to - 1;
        }
        let line = slice_of(&chars, from, end);
        let ghost before = out.deep_view();
        let ghost line_view = line@;
        out.push(line);
        proof {
            assert(out.deep_view() =~= before.push(line_view));
            assert(rest.take(to - from) =~= chars@.subrange(from as int, to as int));
            if to < chars@.len() {
                assert(line_view =~= strip_return(rest.take(to - from)));
                assert(rest.skip(to - from + 1) =~= chars@.skip(to + 1));
                assert(before + lines(rest) =~= before.push(line_view) + lines(
                    chars@.skip(to + 1),
                ));
            } else {
                assert(line_view =~= rest);
                assert(lines(rest) =~= seq![rest]);
                assert(chars@.skip(to as int) =~= seq![]);
                assert(before + lines(rest) =~= before.push(line_view) + lines(
                    chars@.skip(to as int),
                ));
            }
        }
        if to < chars.len() {
            from = to + 1;
        } else {
            from = to;
        }
    }
    assert(chars@.skip(from as int) =~= seq![]);
    assert(out.deep_view() + lines(chars@.skip(from as int)) =~= out.deep_view());
    out
}

/// The characters of `chars` from `from` up to `to`.
pub fn slice_of(chars: &Vec<char>, from: usize, to: usize) -> (res: Vec<char>)
    requires
        from <= to <= chars@.len(),
    ensures
        res@ == chars@.subrange(from as int, to as int),
        res.deep_view() == res@,
{
    let mut out: Vec<char> = Vec::new();
    let mut i: usize = from;
    while i < to
        invariant
            from <= i <= to <= chars@.len(),
            out@ == chars@.subrange(from as int, i as int),
        decreases to - i,
    {
        out.push(chars[i]);
        assert(out@ =~= chars@.subrange(from as int, i + 1));
        i = i + 1;
    }
    assert(out.deep_view() =~= out@);
    out
}

// ---------------------------------------------------------------------------------------------
// Words
// ---------------------------------------------------------------------------------------------

/// How many characters stand in `s` before the first whitespace.
pub open spec fn word_len(s: Seq<char>) -> nat
    decreases s.len(),
{
    if s.len() == 0 || white_space(s[0]) {
        0
    } else {
        1 + word_len(s.drop_first())
    }
}

/// The longest stretches of `s` without whitespace.
pub open spec fn words(s: Seq<char>) -> Seq<Seq<char>>
    decreases s.len(),
{
    if s.len() == 0 {
        seq![]
    } else if white_space(s[0]) {
        words(s.drop_first())
    } else {
        proof {
            lemma_word_len(s);
        }
        seq![s.take(word_len(s) as int)] + words(s.skip(word_len(s) as int))
    }
}

/// A word is no longer than the text that it begins.
pub proof fn lemma_word_len(s: Seq<char>)
    ensures
        word_len(s) <= s.len(),
    decreases s.len(),
{
    if s.len() > 0 && !white_space(s[0]) {
        lemma_word_len(s.drop_first());
    }
}

proof fn lemma_word_len_is(s: Seq<char>, n: int)
    requires
        0 <= n <= s.len(),
        n < s.len() ==> white_space(s[n]),
        forall|j: int| 0 <= j < n ==> !white_space(s[j]),
    ensures
        word_len(s) == n,
    decreases s.len(),
{
    if n > 0 {
        assert forall|j: int| 0 <= j < n - 1 implies !white_space(s.drop_first()[j]) by {
            assert(s.drop_first()[j] == s[j + 1]);
        }
        lemma_word_len_is(s.drop_first(), n - 1);
    }
}

/// The words of a line.
pub fn words_of(chars: &Vec<char>) -> (res: Vec<Vec<char>>)
    ensures
        res.deep_view() == words(chars@),
{
    let mut out: Vec<Vec<char>> = Vec::new();
    let mut from: usize = 0;
    assert(chars@.skip(0) =~= chars@);
    assert(out.deep_view() + words(chars@) =~= words(chars@));
    while from < chars.len()
        invariant
            from <= chars@.len(),
            out.deep_view() + words(chars@.skip(from as int)) == words(chars@),
        decreases chars@.len() - from,
    {
        let ghost rest = chars@.skip(from as int);
        if is_white_space(chars[from]) {
            assert(rest.drop_first() =~= chars@.skip(from + 1));
            from = from + 1;
        } else {
            let mut to: usize = from;
            while to < chars.len() && !is_white_space(chars[to])
                invariant
                    from <= to <= chars@.len(),
                    forall|j: int| from <= j < to ==> !white_space(chars@[j]),
                decreases chars@.len() - to,
            {
                to = to + 1;
            }
            let word = slice_of(chars, from, to);
            let ghost before = out.deep_view();
            let ghost word_view = word@;
            out.push(word);
            proof {
                lemma_word_len_is(rest, to - from);
                assert(out.deep_view() =~= before.push(word_view));
                assert(rest.take(to - from) =~= word_view);
                assert(rest.skip(to - from) =~= chars@.skip(to as int));
                assert(before + words(rest) =~= before.push(word_view) + words(
                    chars@.skip(to as int),
                ));
                assert(to > from);
            }
            from = to;
        }
    }
    assert(chars@.skip(from as int) =~= seq![]);
    assert(out.deep_view() + words(chars@.skip(from as int)) =~= out.deep_view());
    out
}

// ---------------------------------------------------------------------------------------------
// Comparing and searching
// ---------------------------------------------------------------------------------------------

/// Whether `part` stands in `chars` from `at` on.
pub fn stands_at(chars: &Vec<char>, part: &Vec<char>, at: usize) -> (res: bool)
    requires
        at <= chars@.len(),
    ensures
        res == (at + part@.len() <= chars@.len() && chars@.subrange(
            at as int,
            at + part@.len(),
        ) == part@),
{
    if part.len() > chars.len() - at {
        return false;
    }
    let mut i: usize = 0;
    while i < part.len()
        invariant
            at + part.len() <= chars.len(),
            i <= part.len(),
            forall|j: int| 0 <= j < i ==> chars@[at + j] == part@[j],
        decreases part@.len() - i,
    {
        if chars[at + i] != part[i] {
            assert(chars@.subrange(at as int, at + part@.len())[i as int] != part@[i as int]);
            return false;
        }
        i = i + 1;
    }
    assert(chars@.subrange(at as int, at + part@.len()) =~= part@);
    true
}

/// Whether the line begins with `prefix`.
pub fn starts_with(chars: &Vec<char>, prefix: &str) -> (res: bool)
    ensures
        res == prefix@.is_prefix_of(chars@),
{
    let part = chars_of(prefix);
    proof {
        if prefix@.len() <= chars@.len() {
            assert(chars@.subrange(0, prefix@.len() as int) =~= chars@.take(prefix@.len() as int));
        }
    }
    stands_at(chars, &part, 0)
}

/// Whether `part` stands somewhere in `whole`.
pub fn contains_text(whole: &str, part: &str) -> (res: bool)
    ensures
        res == occurs(part@, whole@),
{
    let chars = chars_of(whole);
    let wanted = chars_of(part);
    if wanted.len() > chars.len() {
        return false;
    }
    let last: usize = chars.len() - wanted.len();
    let mut i: usize = 0;
    while i <= last
        invariant
            chars@ == whole@,
            wanted@ == part@,
            last == chars@.len() - wanted@.len(),
            i <= last + 1,
            forall|j: int|
                0 <= j < i ==> #[trigger] whole@.subrange(j, j + part@.len()) != part@,
        decreases last + 1 - i,
    {
        if stands_at(&chars, &wanted, i) {
            return true;
        }
        if i == last {
            return false;
        }
        i = i + 1;
    }
    false
}

/// Whether two texts are the same.
pub fn same_text(a: &str, b: &str) -> (res: bool)
    ensures
        res == (a@ == b@),
{
    let left = chars_of(a);
    let right = chars_of(b);
    assert(a@.subrange(0, a@.len() as int) =~= a@);
    left.len() == right.len() && stands_at(&left, &right, 0)
}

/// Whether `c` stands in `text`.
pub fn has_char(text: &str, c: char) -> (res: bool)
    ensures
        res == text@.contains(c),
{
    let chars = chars_of(text);
    let mut i: usize = 0;
    while i < chars.len()
        invariant
            chars@ == text@,
            i <= chars@.len(),
            forall|j: int| 0 <= j < i ==> text@[j] != c,
        decreases chars@.len() - i,
    {
        if chars[i] == c {
            assert(text@[i as int] == c);
            return true;
        }
        i = i + 1;
    }
    false
}

// ---------------------------------------------------------------------------------------------
// Numbers
// ---------------------------------------------------------------------------------------------

/// The digit for a number below ten.
pub open spec fn digit(n: nat) -> char {
    (('0' as u32) + n) as char
}

/// A number in decimal digits, without leading zeros.
pub open spec fn decimal(n: nat) -> Seq<char>
    decreases n,
{
    if n < 10 {
        seq![digit(n)]
    } else {
        decimal(n / 10).push(digit(n % 10))
    }
}

/// A number in decimal digits, with a minus sign before it where it is negative.
pub open spec fn signed_decimal(n: int) -> Seq<char> {
    if n < 0 {
        seq!['-'] + decimal((-n) as nat)
    } else {
        decimal(n as nat)
    }
}

fn digit_char(n: u64) -> (res: char)
    requires
        n < 10,
    ensures
        res == digit(n as nat),
{
    ('0' as u8 + n as u8) as char
}

/// `n` in decimal digits.
pub fn decimal_text(n: u64) -> (res: String)
    ensures
        res@ == decimal(n as nat),
    decreases n,
{
    if n < 10 {
        let mut out = String::new();
        out.push(digit_char(n));
        assert(out@ =~= decimal(n as nat));
        out
    } else {
        let mut out = decimal_text(n / 10);
        out.push(digit_char(n % 10));
        out
    }
}

/// `n` in decimal digits, signed.
pub fn signed_decimal_text(n: i64) -> (res: String)
    ensures
        res@ == signed_decimal(n as int),
{
    if n >= 0 {
        decimal_text(n as u64)
    } else {
        let size: u64 = (-(n as i128)) as u64;
        let mut out = String::new();
        out.push('-');
        let digits = decimal_text(size);
        out.append(digits.as_str());
        assert(out@ =~= signed_decimal(n as int));
        out
    }
}

// ---------------------------------------------------------------------------------------------
// Joining and padding
// ---------------------------------------------------------------------------------------------

/// `parts` with `sep` between neighbours.
pub fn join_text(parts: &Vec<String>, sep: &str) -> (res: String)
    ensures
        res@ == join(parts.deep_view(), sep@),
{
    let mut out = String::new();
    let mut i: usize = 0;
    assert(parts.deep_view().take(0) =~= seq![]);
    while i < parts.len()
        invariant
            i <= parts@.len(),
            out@ == join(parts.deep_view().take(i as int), sep@),
        decreases parts@.len() - i,
    {
        proof {
            let next = parts.deep_view().take(i + 1);
            assert(next.drop_last() =~= parts.deep_view().take(i as int));
            assert(next.last() == parts@[i as int]@);
        }
        if i > 0 {
            out.append(sep);
        }
        out.append(parts[i].as_str());
        assert(i == 0 ==> out@ =~= parts@[0]@);
        i = i + 1;
    }
    assert(parts.deep_view().take(i as int) =~= parts.deep_view());
    out
}

/// `n` spaces.
pub open spec fn spaces(n: nat) -> Seq<char> {
    Seq::new(n, |i: int| ' ')
}

/// The spaces that `s` lacks to be `width` characters long.
pub open spec fn fill(s: Seq<char>, width: nat) -> Seq<char> {
    spaces(if s.len() < width { (width - s.len()) as nat } else { 0 })
}

/// `text` with spaces after it, up to `width` characters.
pub fn pad_right(text: &str, width: usize) -> (res: String)
    ensures
        res@ == text@ + fill(text@, width as nat),
{
    let mut out = text.to_owned();
    let mut have: usize = text.unicode_len();
    while have < width
        invariant
            have >= text@.len(),
            have > text@.len() ==> have <= width,
            out@ == text@ + spaces((have - text@.len()) as nat),
        decreases width - have,
    {
        out.push(' ');
        have = have + 1;
        assert(out@ =~= text@ + spaces((have - text@.len()) as nat));
    }
    assert(out@ =~= text@ + fill(text@, width as nat));
    out
}

/// `text` with spaces before it, up to `width` characters.
pub fn pad_left(text: &str, width: usize) -> (res: String)
    ensures
        res@ == fill(text@, width as nat) + text@,
{
    let mut out = String::new();
    let mut have: usize = text.unicode_len();
    assert(out@ =~= spaces(0));
    while have < width
        invariant
            have >= text@.len(),
            have > text@.len() ==> have <= width,
            out@ == spaces((have - text@.len()) as nat),
        decreases width - have,
    {
        out.push(' ');
        have = have + 1;
        assert(out@ =~= spaces((have - text@.len()) as nat));
    }
    assert(out@ =~= fill(text@, width as nat));
    out.append(text);
    out
}

// ---------------------------------------------------------------------------------------------
// Encoding
// ---------------------------------------------------------------------------------------------

/// A text is at least as long in bytes as in characters.
pub proof fn lemma_encoding_len(s: Seq<char>)
    ensures
        s.len() <= encode_utf8(s).len(),
    decreases s.len(),
{
    if s.len() > 0 {
        lemma_encoding_len(s.drop_first());
    }
}

proof fn lemma_bytes_of_scalar(v: u32)
    requires
        is_scalar(v),
    ensures
        v < 128 ==> encode_scalar(v) == seq![v as u8],
        v >= 128 ==> forall|i: int|
            0 <= i < encode_scalar(v).len() ==> #[trigger] encode_scalar(v)[i] >= 128,
        encode_scalar(v).len() > 0,
{
    if v < 128 {
        assert((v & 0x7F) as u8 == v as u8) by (bit_vector)
            requires
                v < 128,
        ;
    } else {
        assert(forall|b: u8| #[trigger] (0xC0u8 | b) >= 128) by (bit_vector);
        assert(forall|b: u8| #[trigger] (0xE0u8 | b) >= 128) by (bit_vector);
        assert(forall|b: u8| #[trigger] (0xF0u8 | b) >= 128) by (bit_vector);
        assert(forall|b: u8| #[trigger] (0x80u8 | b) >= 128) by (bit_vector);
    }
}

/// A byte below 128 stands in an encoding exactly where its character stands in the text.
pub proof fn lemma_ascii_in_encoding(s: Seq<char>, c: char)
    requires
        (c as u32) < 128,
    ensures
        encode_utf8(s).contains(c as u8) <==> s.contains(c),
        s.len() > 0 ==> encode_utf8(s).len() > 0 && (encode_utf8(s)[0] == c as u8 <==> s[0] == c),
    decreases s.len(),
{
    if s.len() > 0 {
        let first = encode_scalar(s[0] as u32);
        let rest = s.drop_first();
        let bytes = encode_utf8(s);
        char_is_scalar(s[0]);
        lemma_bytes_of_scalar(s[0] as u32);
        char_u32_cast(s[0], s[0] as u32);
        char_u32_cast(c, c as u32);
        assert(bytes[0] == first[0]);
        assert(first[0] == c as u8 ==> s[0] as u32 == c as u32);
        lemma_ascii_in_encoding(rest, c);
        if s.contains(c) {
            let i = choose|i: int| 0 <= i < s.len() && s[i] == c;
            if i == 0 {
                assert(bytes[0] == c as u8);
            } else {
                assert(rest[i - 1] == c);
                let j = choose|j: int|
                    0 <= j < encode_utf8(rest).len() && encode_utf8(rest)[j] == c as u8;
                assert(bytes[first.len() + j] == c as u8);
            }
        }
        if bytes.contains(c as u8) {
            let j = choose|j: int| 0 <= j < bytes.len() && bytes[j] == c as u8;
            if j < first.len() {
                assert(first[j] == c as u8);
                assert(s[0] == c);
            } else {
                assert(encode_utf8(rest)[j - first.len()] == c as u8);
                let i = choose|i: int| 0 <= i < rest.len() && rest[i] == c;
                assert(s[i + 1] == c);
            }
        }
    }
}

/// A text is shown as itself.
pub proof fn lemma_shown_text(s: Seq<char>)
    ensures
        shown(encode_utf8(s)) == s,
{
    encode_utf8_valid_utf8(s);
    encode_utf8_decode_utf8(s);
}

/// The encoding of two texts in a row is that of the one, then that of the other.
pub proof fn lemma_encoding_concat(a: Seq<char>, b: Seq<char>)
    ensures
        encode_utf8(a + b) == encode_utf8(a) + encode_utf8(b),
    decreases a.len(),
{
    if a.len() == 0 {
        assert(a + b =~= b);
        assert(encode_utf8(a) + encode_utf8(b) =~= encode_utf8(b));
    } else {
        lemma_encoding_concat(a.drop_first(), b);
        assert((a + b).drop_first() =~= a.drop_first() + b);
        assert(encode_utf8(a + b) =~= encode_utf8(a) + encode_utf8(b));
    }
}

// ---------------------------------------------------------------------------------------------
// What the parts of a text are
// ---------------------------------------------------------------------------------------------

/// Whether all of `s` is whitespace.
pub open spec fn is_blank(s: Seq<char>) -> bool {
    forall|i: int| 0 <= i < s.len() ==> white_space(#[trigger] s[i])
}

proof fn lemma_trim_start(blank: Seq<char>, s: Seq<char>)
    requires
        is_blank(blank),
    ensures
        trim_start(blank + s) == trim_start(s),
    decreases blank.len(),
{
    if blank.len() > 0 {
        assert(white_space(blank[0]));
        assert((blank + s).drop_first() =~= blank.drop_first() + s);
        lemma_trim_start(blank.drop_first(), s);
    } else {
        assert(blank + s =~= s);
    }
}

proof fn lemma_trim_end(s: Seq<char>, blank: Seq<char>)
    requires
        is_blank(blank),
    ensures
        trim_end(s + blank) == trim_end(s),
    decreases blank.len(),
{
    if blank.len() > 0 {
        assert(white_space(blank.last()));
        assert((s + blank).drop_last() =~= s + blank.drop_last());
        lemma_trim_end(s, blank.drop_last());
    } else {
        assert(s + blank =~= s);
    }
}

/// Trimming takes away the whitespace around a text, and nothing of the text.
pub proof fn trimming_takes_the_blanks(before: Seq<char>, core: Seq<char>, behind: Seq<char>)
    requires
        is_blank(before),
        is_blank(behind),
        core.len() > 0 ==> !white_space(core[0]) && !white_space(core.last()),
    ensures
        trimmed(before + core + behind) == core,
{
    if core.len() > 0 {
        assert(before + core + behind =~= before + (core + behind));
        lemma_trim_start(before, core + behind);
        assert((core + behind)[0] == core[0]);
        lemma_trim_end(core, behind);
    } else {
        let all = before + core + behind;
        assert(is_blank(all)) by {
            assert forall|i: int| 0 <= i < all.len() implies white_space(#[trigger] all[i]) by {
                if i < before.len() {
                    assert(all[i] == before[i]);
                } else {
                    assert(all[i] == behind[i - before.len()]);
                }
            }
        }
        lemma_trim_start(all, seq![]);
        assert(all + seq![] =~= all);
        assert(trimmed(all) =~= core);
    }
}

/// A line ends at the first line feed; a carriage return before it is no part of the line; what
/// follows the last line feed is a line unless it is empty.
pub proof fn lines_end_at_line_feeds(a: Seq<char>, rest: Seq<char>)
    requires
        !a.contains('\n'),
    ensures
        lines(Seq::<char>::empty()) == Seq::<Seq<char>>::empty(),
        a.len() > 0 ==> lines(a) == seq![a],
        a.len() > 0 && a.last() == '\r' ==> lines(a + seq!['\n'] + rest) == seq![a.drop_last()]
            + lines(rest),
        a.len() == 0 || a.last() != '\r' ==> lines(a + seq!['\n'] + rest) == seq![a] + lines(rest),
{
    let whole = a + seq!['\n'] + rest;
    let n = a.len() as int;
    assert forall|j: int| 0 <= j < n implies a[j] != '\n' by {
        assert(a.contains(a[j]));
    }
    lemma_find_is(a, '\n', n);
    lemma_find_is(whole, '\n', n);
    assert(whole.take(n) =~= a);
    assert(whole.skip(n + 1) =~= rest);
}

/// Words are what stands between whitespace: whitespace before a word is passed over, and a word ends
/// at the whitespace behind it.
pub proof fn words_stand_between_blanks(word: Seq<char>, blank: char, rest: Seq<char>)
    requires
        white_space(blank),
        forall|i: int| 0 <= i < word.len() ==> !white_space(#[trigger] word[i]),
    ensures
        words(Seq::<char>::empty()) == Seq::<Seq<char>>::empty(),
        words(seq![blank] + rest) == words(rest),
        word.len() > 0 ==> words(word) == seq![word],
        word.len() > 0 ==> words(word + seq![blank] + rest) == seq![word] + words(rest),
{
    reveal_with_fuel(words, 2);
    let n = word.len() as int;
    assert((seq![blank] + rest).drop_first() =~= rest);
    if n > 0 {
        let whole = word + seq![blank] + rest;
        lemma_word_len_is(word, n);
        lemma_word_len_is(whole, n);
        assert(word.take(n) =~= word);
        assert(word.skip(n) =~= Seq::<char>::empty());
        assert(whole.take(n) =~= word);
        assert(whole.skip(n) =~= seq![blank] + rest);
        assert(whole.skip(n).drop_first() =~= rest);
        assert(words(word) =~= seq![word]);
        assert(words(whole.skip(n)) == words(rest));
    }
}

/// The number that decimal digits stand for.
pub open spec fn number_of(digits: Seq<char>) -> int
    decreases digits.len(),
{
    if digits.len() == 0 {
        0
    } else {
        number_of(digits.drop_last()) * 10 + (digits.last() as int - 48)
    }
}

/// A number is written in decimal digits that stand for it, without a zero before them.
pub proof fn decimal_stands_for_its_number(n: nat)
    ensures
        number_of(decimal(n)) == n,
        decimal(n).len() > 0,
        forall|i: int| 0 <= i < decimal(n).len() ==> '0' <= #[trigger] decimal(n)[i] <= '9',
        n > 0 ==> decimal(n)[0] != '0',
        decimal(0) == seq!['0'],
    decreases n,
{
    reveal_with_fuel(decimal, 2);
    reveal_with_fuel(number_of, 2);
    if n >= 10 {
        decimal_stands_for_its_number(n / 10);
        assert(decimal(n).drop_last() =~= decimal(n / 10));
    } else {
        assert(decimal(n) =~= seq![digit(n)]);
        assert(decimal(n).drop_last() =~= seq![]);
    }
}

/// A number below zero has a minus sign before its digits.
pub proof fn sign_stands_before_the_digits(n: int)
    ensures
        n >= 0 ==> signed_decimal(n) == decimal(n as nat),
        n < 0 ==> signed_decimal(n) == seq!['-'] + decimal((-n) as nat),
{
    reveal_strlit("-");
    assert("-"@ =~= seq!['-']);
}

/// What fills a cell is spaces, as many as it lacks.
pub proof fn fill_is_what_lacks(s: Seq<char>, width: nat)
    ensures
        s.len() < width ==> s.len() + fill(s, width).len() == width,
        s.len() >= width ==> fill(s, width).len() == 0,
        forall|i: int| 0 <= i < fill(s, width).len() ==> #[trigger] fill(s, width)[i] == ' ',
{
}

/// The whitespace of Unicode, by the numbers of the characters.
pub proof fn blanks_are_those_of_unicode(c: char)
    ensures
        white_space(c) <==> ({
            let n = c as u32;
            9 <= n <= 13 || n == 32 || n == 133 || n == 160 || n == 5760 || 8192 <= n <= 8202 || n
                == 8232 || n == 8233 || n == 8239 || n == 8287 || n == 12288
        }),
{
}

/// Only the capital letters of ASCII have another lower case: the letter thirty-two places on.
pub proof fn capitals_have_small_letters(c: char)
    ensures
        65 <= c as u32 <= 90 ==> ascii_lowercase(c) as u32 == c as u32 + 32,
        !(65 <= c as u32 <= 90) ==> ascii_lowercase(c) == c,
{
}

} // verus!
