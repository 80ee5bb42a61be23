//! Text primitives over sequences of characters.
//!
//! Every function states its result over `Seq<char>`, the view of `str` and
//! `String`. Functions that look inside a text work on character slices, which
//! [`to_chars`] and [`to_text`] convert from and to strings.
use vstd::prelude::*;

verus! {

/// `String::push` appends the given character to the end of the string.
pub assume_specification[ String::push ](s: &mut String, c: char)
    ensures
        final(s)@ == old(s)@.push(c),
;

/// The views of a sequence of strings.
pub open spec fn texts(strings: Seq<String>) -> Seq<Seq<char>> {
    strings.map_values(|s: String| s@)
}

/// The view of an optional string.
pub open spec fn opt_text(text: Option<String>) -> Option<Seq<char>> {
    match text {
        Some(s) => Some(s@),
        None => None,
    }
}

/// The Unicode `White_Space` property.
pub open spec fn is_white_space(c: char) -> bool {
    let u = c as u32;
    ||| 0x09 <= u <= 0x0d
    ||| u == 0x20
    ||| u == 0x85
    ||| u == 0xa0
    ||| u == 0x1680
    ||| 0x2000 <= u <= 0x200a
    ||| u == 0x2028
    ||| u == 0x2029
    ||| u == 0x202f
    ||| u == 0x205f
    ||| u == 0x3000
}

pub open spec fn is_ascii_upper(c: char) -> bool {
    'A' <= c <= 'Z'
}

pub open spec fn is_ascii_alnum(c: char) -> bool {
    'A' <= c <= 'Z' || 'a' <= c <= 'z' || '0' <= c <= '9'
}

/// The ASCII lower-case form of a character; other characters stay as they are.
pub open spec fn ascii_lower(c: char) -> char {
    if is_ascii_upper(c) {
        (c as u8 + 32) as char
    } else {
        c
    }
}

/// A text with its ASCII letters in lower case.
pub open spec fn lower(s: Seq<char>) -> Seq<char> {
    s.map_values(|c: char| ascii_lower(c))
}

/// `pat` stands in `s` at index `i`.
pub open spec fn occurs_at(s: Seq<char>, pat: Seq<char>, i: int) -> bool {
    &&& 0 <= i
    &&& i + pat.len() <= s.len()
    &&& s.subrange(i, i + pat.len()) == pat
}

/// `pat` stands somewhere in `s`.
pub open spec fn has_text(s: Seq<char>, pat: Seq<char>) -> bool {
    exists|i: int| occurs_at(s, pat, i)
}

/// A text begins with another.
pub open spec fn begins_with(s: Seq<char>, prefix: Seq<char>) -> bool {
    prefix.len() <= s.len() && s.take(prefix.len() as int) == prefix
}

/// A text ends with another.
pub open spec fn finishes_with(s: Seq<char>, suffix: Seq<char>) -> bool {
    suffix.len() <= s.len() && s.skip(s.len() - suffix.len()) == suffix
}

/// A text without the white space at its beginning.
pub open spec fn trim_start_of(s: Seq<char>) -> Seq<char>
    decreases s.len(),
{
    if s.len() > 0 && is_white_space(s[0]) {
        trim_start_of(s.skip(1))
    } else {
        s
    }
}

/// A text without the white space at its end.
pub open spec fn trim_end_of(s: Seq<char>) -> Seq<char>
    decreases s.len(),
{
    if s.len() > 0 && is_white_space(s.last()) {
        trim_end_of(s.drop_last())
    } else {
        s
    }
}

/// A text without the white space at its two ends.
pub open spec fn trim_of(s: Seq<char>) -> Seq<char> {
    trim_end_of(trim_start_of(s))
}

/// A text without the characters `c` that it begins with.
pub open spec fn trim_start_char_of(s: Seq<char>, c: char) -> Seq<char>
    decreases s.len(),
{
    if s.len() > 0 && s[0] == c {
        trim_start_char_of(s.skip(1), c)
    } else {
        s
    }
}

/// A text without the characters `c` that it ends with.
pub open spec fn trim_end_char_of(s: Seq<char>, c: char) -> Seq<char>
    decreases s.len(),
{
    if s.len() > 0 && s.last() == c {
        trim_end_char_of(s.drop_last(), c)
    } else {
        s
    }
}

/// The lines of a text, each with its line ending: a line ends behind every
/// line feed, and the last line may have none.
pub open spec fn raw_lines(s: Seq<char>) -> Seq<Seq<char>>
    decreases s.len(),
{
    if s.len() == 0 {
        seq![]
    } else {
        let before = raw_lines(s.drop_last());
        if s.len() == 1 || s[s.len() - 2] == '\n' {
            before.push(seq![s.last()])
        } else {
            before.drop_last().push(before.last().push(s.last()))
        }
    }
}

/// A raw line without its line ending, which is a line feed or a carriage
/// return and a line feed.
pub open spec fn line_body(line: Seq<char>) -> Seq<char> {
    if line.len() >= 2 && line[line.len() - 2] == '\r' && line.last() == '\n' {
        line.take(line.len() - 2)
    } else if line.len() >= 1 && line.last() == '\n' {
        line.drop_last()
    } else {
        line
    }
}

/// The line ending of a raw line.
pub open spec fn line_ending(line: Seq<char>) -> Seq<char> {
    line.skip(line_body(line).len() as int)
}

/// The lines of a text without their line endings.
pub open spec fn lines_of(s: Seq<char>) -> Seq<Seq<char>> {
    raw_lines(s).map_values(|line: Seq<char>| line_body(line))
}

/// The maximal runs of characters other than white space.
pub open spec fn words_of(s: Seq<char>) -> Seq<Seq<char>>
    decreases s.len(),
{
    if s.len() == 0 {
        seq![]
    } else {
        let before = words_of(s.drop_last());
        if is_white_space(s.last()) {
            before
        } else if s.len() == 1 || is_white_space(s[s.len() - 2]) {
            before.push(seq![s.last()])
        } else {
            before.drop_last().push(before.last().push(s.last()))
        }
    }
}

/// The length of a text in UTF-8.
pub open spec fn byte_len(s: Seq<char>) -> nat {
    vstd::utf8::encode_utf8(s).len()
}

/// The UTF-8 width of one character.
pub open spec fn char_width(c: char) -> nat {
    if c as u32 <= 0x7f {
        1
    } else if c as u32 <= 0x7ff {
        2
    } else if c as u32 <= 0xffff {
        3
    } else {
        4
    }
}

/// The views of a vector of character vectors.
pub open spec fn char_rows(rows: Seq<Vec<char>>) -> Seq<Seq<char>> {
    rows.map_values(|row: Vec<char>| row@)
}

/// The characters of a string slice.
pub fn to_chars(s: &str) -> (chars: Vec<char>)
    ensures
        chars@ == s@,
{
    let mut chars: Vec<char> = Vec::new();
    for c in it: s.chars()
        invariant
            it.seq() == s@,
            chars@ == s@.take(it.index()),
    {
        chars.push(c);
    }
    chars
}

/// The string that holds the given characters.
pub fn to_text(chars: &[char]) -> (text: String)
    ensures
        text@ == chars@,
{
    let mut text = String::new();
    let mut i: usize = 0;
    while i < chars.len()
        invariant
            i <= chars@.len(),
            text@ == chars@.take(i as int),
        decreases chars@.len() - i,
    {
        text.push(chars[i]);
        i = i + 1;
        assert(chars@.take(i as int) == chars@.take(i - 1).push(chars@[i - 1]));
    }
    assert(chars@.take(i as int) == chars@);
    text
}

/// Whether two character slices hold the same text.
pub fn same_chars(a: &[char], b: &[char]) -> (same: bool)
    ensures
        same == (a@ == b@),
{
    if a.len() != b.len() {
        return false;
    }
    let mut i: usize = 0;
    while i < a.len()
        invariant
            i <= a@.len(),
            a@.len() == b@.len(),
            forall|j: int| 0 <= j < i ==> a@[j] == b@[j],
        decreases a@.len() - i,
    {
        if a[i] != b[i] {
            return false;
        }
        i = i + 1;
    }
    assert(a@ == b@);
    true
}

/// Whether two string slices hold the same text.
pub fn same_str(a: &str, b: &str) -> (same: bool)
    ensures
        same == (a@ == b@),
{
    let a_chars = to_chars(a);
    let b_chars = to_chars(b);
    same_chars(&a_chars, &b_chars)
}

/// Whether two optional strings hold the same text.
pub fn same_opt(a: &Option<String>, b: &Option<String>) -> (same: bool)
    ensures
        same == (opt_text(*a) == opt_text(*b)),
{
    match (a, b) {
        (Some(x), Some(y)) => *x == *y,
        (None, None) => true,
        _ => false,
    }
}

/// Whether a character is white space.
pub fn white_space(c: char) -> (r: bool)
    ensures
        r == is_white_space(c),
{
    let u: u32 = c as u32;
    (0x09 <= u && u <= 0x0d) || u == 0x20 || u == 0x85 || u == 0xa0 || u == 0x1680 || (0x2000 <= u
        && u <= 0x200a) || u == 0x2028 || u == 0x2029 || u == 0x202f || u == 0x205f || u == 0x3000
}

/// Whether a character is an ASCII letter or digit.
pub fn ascii_alnum(c: char) -> (r: bool)
    ensures
        r == is_ascii_alnum(c),
{
    ('A' <= c && c <= 'Z') || ('a' <= c && c <= 'z') || ('0' <= c && c <= '9')
}

/// The ASCII lower-case form of a character.
pub fn to_lower(c: char) -> (r: char)
    ensures
        r == ascii_lower(c),
{
    if 'A' <= c && c <= 'Z' {
        (c as u8 + 32) as char
    } else {
        c
    }
}

/// A copy of the text with its ASCII letters in lower case.
pub fn lower_chars(s: &[char]) -> (r: Vec<char>)
    ensures
        r@ == lower(s@),
{
    let mut r: Vec<char> = Vec::new();
    let mut i: usize = 0;
    while i < s.len()
        invariant
            i <= s@.len(),
            r@ == lower(s@.take(i as int)),
        decreases s@.len() - i,
    {
        r.push(to_lower(s[i]));
        i = i + 1;
        assert(lower(s@.take(i as int)) == lower(s@.take(i - 1)).push(ascii_lower(s@[i - 1])));
    }
    assert(s@.take(i as int) == s@);
    r
}

/// A copy of the string with its ASCII letters in lower case.
pub fn lower_text(s: &str) -> (r: String)
    ensures
        r@ == lower(s@),
{
    let chars = to_chars(s);
    let lowered = lower_chars(&chars);
    to_text(&lowered)
}

/// Whether `pat` stands in `s` at index `at`.
pub fn stands_at(s: &[char], pat: &[char], at: usize) -> (r: bool)
    ensures
        r == occurs_at(s@, pat@, at as int),
{
    if at > s.len() || pat.len() > s.len() - at {
        return false;
    }
    same_chars(&s[at..at + pat.len()], pat)
}

/// Whether `pat` stands somewhere in `s`.
pub fn contains_chars(s: &[char], pat: &[char]) -> (r: bool)
    ensures
        r == has_text(s@, pat@),
{
    if pat.len() > s.len() {
        assert(forall|i: int| !occurs_at(s@, pat@, i));
        return false;
    }
    let last: usize = s.len() - pat.len();
    let mut i: usize = 0;
    while i <= last
        invariant
            pat@.len() <= s@.len(),
            last == s@.len() - pat@.len(),
            i <= last + 1,
            forall|j: int| 0 <= j < i ==> !occurs_at(s@, pat@, j),
        decreases last + 1 - i,
    {
        if stands_at(s, pat, i) {
            return true;
        }
        if i == last {
            assert(forall|j: int| !occurs_at(s@, pat@, j));
            return false;
        }
        i = i + 1;
    }
    false
}

/// Whether the literal `pat` stands somewhere in `s`.
pub fn contains_str(s: &[char], pat: &str) -> (r: bool)
    ensures
        r == has_text(s@, pat@),
{
    let pat_chars = to_chars(pat);
    contains_chars(s, &pat_chars)
}

/// Whether the text holds the character.
pub fn contains_char(s: &[char], c: char) -> (r: bool)
    ensures
        r == s@.contains(c),
{
    let mut i: usize = 0;
    while i < s.len()
        invariant
            i <= s@.len(),
            forall|j: int| 0 <= j < i ==> s@[j] != c,
        decreases s@.len() - i,
    {
        if s[i] == c {
            assert(s@.contains(c));
            return true;
        }
        i = i + 1;
    }
    false
}

/// Whether a text begins with another.
pub fn starts_with(s: &[char], prefix: &[char]) -> (r: bool)
    ensures
        r == begins_with(s@, prefix@),
{
    if prefix.len() > s.len() {
        return false;
    }
    assert(s@.subrange(0, prefix@.len() as int) == s@.take(prefix@.len() as int));
    same_chars(&s[0..prefix.len()], prefix)
}

/// Whether a text ends with another.
pub fn ends_with(s: &[char], suffix: &[char]) -> (r: bool)
    ensures
        r == finishes_with(s@, suffix@),
{
    if suffix.len() > s.len() {
        return false;
    }
    let from: usize = s.len() - suffix.len();
    assert(s@.subrange(from as int, s@.len() as int) == s@.skip(from as int));
    same_chars(&s[from..s.len()], suffix)
}

/// What follows `prefix` in `s`, where `s` begins with it.
pub fn strip_prefix<'a>(s: &'a [char], prefix: &str) -> (r: Option<&'a [char]>)
    ensures
        r is Some == begins_with(s@, prefix@),
        r is Some ==> r->0@ == s@.skip(prefix@.len() as int),
{
    let prefix_chars = to_chars(prefix);
    if starts_with(s, &prefix_chars) {
        let n: usize = prefix_chars.len();
        assert(s@.subrange(n as int, s@.len() as int) == s@.skip(n as int));
        Some(&s[n..s.len()])
    } else {
        None
    }
}

/// What precedes `suffix` in `s`, where `s` ends with it.
pub fn strip_suffix<'a>(s: &'a [char], suffix: &str) -> (r: Option<&'a [char]>)
    ensures
        r is Some == finishes_with(s@, suffix@),
        r is Some ==> r->0@ == s@.take(s@.len() - suffix@.len()),
{
    let suffix_chars = to_chars(suffix);
    if ends_with(s, &suffix_chars) {
        let n: usize = s.len() - suffix_chars.len();
        assert(s@.subrange(0, n as int) == s@.take(n as int));
        Some(&s[0..n])
    } else {
        None
    }
}

/// A text without the white space at its beginning.
pub fn trim_start<'a>(s: &'a [char]) -> (r: &'a [char])
    ensures
        r@ == trim_start_of(s@),
{
    let mut i: usize = 0;
    assert(s@.skip(0) == s@);
    while i < s.len() && white_space(s[i])
        invariant
            i <= s@.len(),
            trim_start_of(s@) == trim_start_of(s@.skip(i as int)),
        decreases s@.len() - i,
    {
        assert(s@.skip(i as int).skip(1) == s@.skip(i + 1));
        i = i + 1;
    }
    assert(s@.subrange(i as int, s@.len() as int) == s@.skip(i as int));
    &s[i..s.len()]
}

/// A text without the white space at its end.
pub fn trim_end<'a>(s: &'a [char]) -> (r: &'a [char])
    ensures
        r@ == trim_end_of(s@),
{
    let mut n: usize = s.len();
    assert(s@.take(n as int) == s@);
    while n > 0 && white_space(s[n - 1])
        invariant
            n <= s@.len(),
            trim_end_of(s@) == trim_end_of(s@.take(n as int)),
        decreases n,
    {
        assert(s@.take(n as int).drop_last() == s@.take(n - 1));
        n = n - 1;
    }
    assert(s@.subrange(0, n as int) == s@.take(n as int));
    &s[0..n]
}

/// A text without the white space around it.
pub fn trim<'a>(s: &'a [char]) -> (r: &'a [char])
    ensures
        r@ == trim_of(s@),
{
    trim_end(trim_start(s))
}

/// A text without the given character at its beginning.
pub fn trim_start_char<'a>(s: &'a [char], c: char) -> (r: &'a [char])
    ensures
        r@ == trim_start_char_of(s@, c),
{
    let mut i: usize = 0;
    assert(s@.skip(0) == s@);
    while i < s.len() && s[i] == c
        invariant
            i <= s@.len(),
            trim_start_char_of(s@, c) == trim_start_char_of(s@.skip(i as int), c),
        decreases s@.len() - i,
    {
        assert(s@.skip(i as int).skip(1) == s@.skip(i + 1));
        i = i + 1;
    }
    assert(s@.subrange(i as int, s@.len() as int) == s@.skip(i as int));
    &s[i..s.len()]
}

/// A text without the given character at its end.
pub fn trim_end_char<'a>(s: &'a [char], c: char) -> (r: &'a [char])
    ensures
        r@ == trim_end_char_of(s@, c),
{
    let mut n: usize = s.len();
    assert(s@.take(n as int) == s@);
    while n > 0 && s[n - 1] == c
        invariant
            n <= s@.len(),
            trim_end_char_of(s@, c) == trim_end_char_of(s@.take(n as int), c),
        decreases n,
    {
        assert(s@.take(n as int).drop_last() == s@.take(n - 1));
        n = n - 1;
    }
    assert(s@.subrange(0, n as int) == s@.take(n as int));
    &s[0..n]
}

/// The UTF-8 form of a text followed by another is the two forms in turn.
proof fn lemma_encode_concat(a: Seq<char>, b: Seq<char>)
    ensures
        vstd::utf8::encode_utf8(a + b) == vstd::utf8::encode_utf8(a) + vstd::utf8::encode_utf8(b),
    decreases a.len(),
{
    if a.len() == 0 {
        assert(a + b == b);
        assert(vstd::utf8::encode_utf8(a) + vstd::utf8::encode_utf8(b) == vstd::utf8::encode_utf8(b));
    } else {
        assert((a + b).drop_first() == a.drop_first() + b);
        lemma_encode_concat(a.drop_first(), b);
        assert((a + b)[0] == a[0]);
        assert(vstd::utf8::encode_utf8(a + b) == vstd::utf8::encode_utf8(a) + vstd::utf8::encode_utf8(b));
    }
}

/// The byte length of a text is the sum of the widths of its characters.
pub proof fn lemma_byte_len_push(s: Seq<char>, c: char)
    ensures
        byte_len(s.push(c)) == byte_len(s) + char_width(c),
{
    let one = seq![c];
    assert(s.push(c) == s + one);
    lemma_encode_concat(s, one);
    assert(one.drop_first() == Seq::<char>::empty());
    assert(vstd::utf8::encode_utf8(one.drop_first()) == Seq::<u8>::empty());
    assert(vstd::utf8::encode_utf8(one).len() == char_width(c));
}

/// The byte length of two texts in turn.
pub proof fn lemma_byte_len_concat(a: Seq<char>, b: Seq<char>)
    ensures
        byte_len(a + b) == byte_len(a) + byte_len(b),
{
    lemma_encode_concat(a, b);
}

/// The length of the string in UTF-8.
pub fn text_bytes(s: &str) -> (n: usize)
    ensures
        n == byte_len(s@),
{
    s.as_bytes().len()
}

/// The UTF-8 width of the character.
pub fn width(c: char) -> (n: usize)
    ensures
        n == char_width(c),
{
    let u: u32 = c as u32;
    if u <= 0x7f {
        1
    } else if u <= 0x7ff {
        2
    } else if u <= 0xffff {
        3
    } else {
        4
    }
}

/// The lines of a text, each with its line ending.
pub fn split_raw_lines(s: &[char]) -> (rows: Vec<Vec<char>>)
    ensures
        char_rows(rows@) == raw_lines(s@),
{
    let mut done: Vec<Vec<char>> = Vec::new();
    let mut current: Vec<char> = Vec::new();
    let mut i: usize = 0;
    assert(s@.take(0) == Seq::<char>::empty());
    assert(char_rows(done@) == Seq::<Seq<char>>::empty());
    while i < s.len()
        invariant
            i <= s@.len(),
            (current@.len() == 0) == (i == 0 || s@[i - 1] == '\n'),
            current@.len() == 0 ==> raw_lines(s@.take(i as int)) == char_rows(done@),
            current@.len() > 0 ==> raw_lines(s@.take(i as int)) == char_rows(done@).push(current@),
        decreases s@.len() - i,
    {
        let c = s[i];
        let ghost before = current@;
        let ghost rows_before = char_rows(done@);
        assert(s@.take(i + 1).drop_last() == s@.take(i as int));
        current.push(c);
        proof {
            if before.len() == 0 {
                assert(before.push(c) == seq![c]);
            } else {
                assert(rows_before.push(before).drop_last() == rows_before);
            }
            assert(raw_lines(s@.take(i + 1)) == rows_before.push(current@));
        }
        if c == '\n' {
            done.push(current);
            assert(char_rows(done@) == rows_before.push(before.push(c)));
            current = Vec::new();
        }
        i = i + 1;
    }
    assert(s@.take(i as int) == s@);
    if current.len() > 0 {
        let ghost rows_before = char_rows(done@);
        let ghost last = current@;
        done.push(current);
        assert(char_rows(done@) == rows_before.push(last));
    }
    done
}

/// A raw line without its line ending, and the line ending.
pub fn split_line_ending_chars<'a>(line: &'a [char]) -> (r: (&'a [char], &'a [char]))
    ensures
        r.0@ == line_body(line@),
        r.1@ == line_ending(line@),
{
    let n: usize = line.len();
    let keep: usize = if n >= 2 && line[n - 2] == '\r' && line[n - 1] == '\n' {
        n - 2
    } else if n >= 1 && line[n - 1] == '\n' {
        n - 1
    } else {
        n
    };
    assert(line@.subrange(0, keep as int) == line_body(line@));
    assert(line@.subrange(keep as int, n as int) == line_ending(line@));
    (&line[0..keep], &line[keep..n])
}

/// The lines of a string without their line endings.
pub fn text_lines(s: &str) -> (lines: Vec<String>)
    ensures
        texts(lines@) == lines_of(s@),
{
    let chars = to_chars(s);
    let rows = split_raw_lines(&chars);
    let mut lines: Vec<String> = Vec::new();
    let mut i: usize = 0;
    while i < rows.len()
        invariant
            i <= rows@.len(),
            lines@.len() == i,
            forall|j: int| 0 <= j < i ==> (#[trigger] lines@[j])@ == line_body(rows@[j]@),
        decreases rows@.len() - i,
    {
        let (body, _) = split_line_ending_chars(&rows[i]);
        lines.push(to_text(body));
        i = i + 1;
    }
    proof {
        assert(raw_lines(s@).len() == rows@.len());
        assert forall|j: int| 0 <= j < rows@.len() implies #[trigger] texts(lines@)[j] == lines_of(
            s@,
        )[j] by {
            assert(char_rows(rows@)[j] == rows@[j]@);
        }
        assert(texts(lines@) == lines_of(s@));
    }
    lines
}

/// A text has a line unless it is empty.
pub proof fn lemma_lines_empty(s: Seq<char>)
    ensures
        lines_of(s).len() == 0 <==> s.len() == 0,
{
}

/// The maximal runs of characters other than white space.
pub fn split_words(s: &[char]) -> (rows: Vec<Vec<char>>)
    ensures
        char_rows(rows@) == words_of(s@),
{
    let mut done: Vec<Vec<char>> = Vec::new();
    let mut current: Vec<char> = Vec::new();
    let mut i: usize = 0;
    assert(s@.take(0) == Seq::<char>::empty());
    assert(char_rows(done@) == Seq::<Seq<char>>::empty());
    while i < s.len()
        invariant
            i <= s@.len(),
            (current@.len() == 0) == (i == 0 || is_white_space(s@[i - 1])),
            current@.len() == 0 ==> words_of(s@.take(i as int)) == char_rows(done@),
            current@.len() > 0 ==> words_of(s@.take(i as int)) == char_rows(done@).push(current@),
        decreases s@.len() - i,
    {
        let c = s[i];
        let ghost before = current@;
        let ghost rows_before = char_rows(done@);
        assert(s@.take(i + 1).drop_last() == s@.take(i as int));
        if white_space(c) {
            if current.len() > 0 {
                done.push(current);
                assert(char_rows(done@) == rows_before.push(before));
                current = Vec::new();
            }
        } else {
            current.push(c);
            proof {
                if before.len() == 0 {
                    assert(before.push(c) == seq![c]);
                } else {
                    assert(rows_before.push(before).drop_last() == rows_before);
                }
                assert(words_of(s@.take(i + 1)) == rows_before.push(current@));
            }
        }
        i = i + 1;
    }
    assert(s@.take(i as int) == s@);
    if current.len() > 0 {
        let ghost rows_before = char_rows(done@);
        let ghost last = current@;
        done.push(current);
        assert(char_rows(done@) == rows_before.push(last));
    }
    done
}

/// A text that neither begins nor ends with white space.
pub open spec fn is_trimmed(s: Seq<char>) -> bool {
    s.len() == 0 || (!is_white_space(s[0]) && !is_white_space(s.last()))
}

proof fn lemma_trim_start_trims(s: Seq<char>)
    ensures
        trim_start_of(s).len() == 0 || !is_white_space(trim_start_of(s)[0]),
    decreases s.len(),
{
    if s.len() > 0 && is_white_space(s[0]) {
        lemma_trim_start_trims(s.skip(1));
    }
}

proof fn lemma_trim_end_trims(s: Seq<char>)
    ensures
        trim_end_of(s).len() == 0 || !is_white_space(trim_end_of(s).last()),
        trim_end_of(s).len() <= s.len(),
        trim_end_of(s) == s.take(trim_end_of(s).len() as int),
    decreases s.len(),
{
    if s.len() > 0 && is_white_space(s.last()) {
        lemma_trim_end_trims(s.drop_last());
        let n = trim_end_of(s).len() as int;
        assert(s.drop_last().take(n) == s.take(n));
    } else {
        assert(s.take(s.len() as int) == s);
    }
}

/// Trimming leaves a trimmed text, and leaves a trimmed text as it is.
pub proof fn lemma_trim(s: Seq<char>)
    ensures
        is_trimmed(trim_of(s)),
        is_trimmed(s) ==> trim_of(s) == s,
        trim_of(trim_of(s)) == trim_of(s),
{
    let front = trim_start_of(s);
    lemma_trim_start_trims(s);
    lemma_trim_end_trims(front);
    let t = trim_of(s);
    if t.len() > 0 {
        assert(t[0] == front[0]);
    }
}

/// All characters of a text are white space.
pub open spec fn is_blank(s: Seq<char>) -> bool {
    forall|i: int| 0 <= i < s.len() ==> is_white_space(#[trigger] s[i])
}

/// What trimming takes from the beginning of a text is white space.
pub proof fn lemma_trim_start_cuts(s: Seq<char>)
    ensures
        trim_start_of(s).len() <= s.len(),
        trim_start_of(s) == s.skip(s.len() - trim_start_of(s).len()),
        is_blank(s.take(s.len() - trim_start_of(s).len())),
    decreases s.len(),
{
    if s.len() > 0 && is_white_space(s[0]) {
        let rest = s.skip(1);
        lemma_trim_start_cuts(rest);
        let n = s.len() - trim_start_of(s).len();
        assert(rest.skip(n - 1) == s.skip(n));
        assert forall|i: int| 0 <= i < n implies is_white_space(#[trigger] s.take(n)[i]) by {
            if i > 0 {
                assert(rest.take(n - 1)[i - 1] == s[i]);
            }
        }
    } else {
        assert(s.skip(0) == s);
    }
}

/// What trimming takes from the end of a text is white space.
pub proof fn lemma_trim_end_cuts(s: Seq<char>)
    ensures
        trim_end_of(s).len() <= s.len(),
        trim_end_of(s) == s.take(trim_end_of(s).len() as int),
        is_blank(s.skip(trim_end_of(s).len() as int)),
    decreases s.len(),
{
    if s.len() > 0 && is_white_space(s.last()) {
        let rest = s.drop_last();
        lemma_trim_end_cuts(rest);
        let n = trim_end_of(s).len() as int;
        assert(rest.take(n) == s.take(n));
        assert forall|i: int| 0 <= i < s.len() - n implies is_white_space(
            #[trigger] s.skip(n)[i],
        ) by {
            if i < rest.len() - n {
                assert(rest.skip(n)[i] == s[n + i]);
            }
        }
    } else {
        assert(s.take(s.len() as int) == s);
    }
}

/// Trimming takes white space from the two ends of a text, all of it, and nothing
/// else.
pub proof fn law_trim_takes_white_space_alone(s: Seq<char>) -> (ends: (Seq<char>, Seq<char>))
    ensures
        s == ends.0 + trim_of(s) + ends.1,
        is_blank(ends.0),
        is_blank(ends.1),
        is_trimmed(trim_of(s)),
{
    let front = trim_start_of(s);
    let t = trim_of(s);
    lemma_trim(s);
    lemma_trim_start_cuts(s);
    lemma_trim_end_cuts(front);
    let a = s.take(s.len() - front.len());
    let b = front.skip(t.len() as int);
    assert(s == a + t + b);
    (a, b)
}

/// Texts one behind the other.
pub open spec fn concatenated(rows: Seq<Seq<char>>) -> Seq<char>
    decreases rows.len(),
{
    if rows.len() == 0 {
        seq![]
    } else {
        concatenated(rows.drop_last()) + rows.last()
    }
}

/// A line is its text and its line ending, and the ending is none, a line feed, or
/// a carriage return and a line feed.
pub proof fn law_line_has_two_parts(line: Seq<char>)
    ensures
        line == line_body(line) + line_ending(line),
        line.len() > 0 && line.last() == '\n' ==> line_ending(line) == seq!['\n'] || line_ending(line)
            == seq!['\r', '\n'],
        line.len() == 0 || line.last() != '\n' ==> line_ending(line) == Seq::<char>::empty(),
        line.len() >= 2 && line.last() == '\n' && line[line.len() - 2] == '\r'
            ==> line_ending(line) == seq!['\r', '\n'],
{
    let ending = line_ending(line);
    if line.len() >= 2 && line[line.len() - 2] == '\r' && line.last() == '\n' {
        assert(ending == seq!['\r', '\n']);
    } else if line.len() >= 1 && line.last() == '\n' {
        assert(ending == seq!['\n']);
    } else {
        assert(ending == Seq::<char>::empty());
    }
    assert(line == line_body(line) + ending);
}

/// The lines of a text, one behind the other, are the text. Each has a character;
/// a line feed ends it, except perhaps the last, and stands nowhere else in it.
pub proof fn law_lines_make_the_text(s: Seq<char>)
    ensures
        concatenated(raw_lines(s)) == s,
        forall|i: int| 0 <= i < raw_lines(s).len() ==> (#[trigger] raw_lines(s)[i]).len() > 0,
        forall|i: int, j: int|
            0 <= i < raw_lines(s).len() && 0 <= j < raw_lines(s)[i].len() - 1
                ==> #[trigger] raw_lines(s)[i][j] != '\n',
        forall|i: int|
            0 <= i < raw_lines(s).len() - 1 ==> (#[trigger] raw_lines(s)[i]).last() == '\n',
        s.len() > 0 ==> raw_lines(s).len() > 0 && raw_lines(s).last().last() == s.last(),
    decreases s.len(),
{
    if s.len() > 0 {
        let t = s.drop_last();
        let before = raw_lines(t);
        let after = raw_lines(s);
        law_lines_make_the_text(t);
        if s.len() == 1 || s[s.len() - 2] == '\n' {
            assert(after.drop_last() == before);
            assert(concatenated(after) == t + seq![s.last()]);
            assert forall|i: int, j: int|
                0 <= i < after.len() && 0 <= j < after[i].len() - 1 implies #[trigger] after[i][j]
                != '\n' by {
                if i < before.len() {
                    assert(after[i] == before[i]);
                }
            }
            assert forall|i: int| 0 <= i < after.len() - 1 implies (#[trigger] after[i]).last()
                == '\n' by {
                assert(after[i] == before[i]);
                if i == before.len() - 1 {
                    assert(t.last() == s[s.len() - 2]);
                }
            }
        } else {
            let last = before.last();
            assert(t.last() == s[s.len() - 2]);
            assert(after.drop_last() == before.drop_last());
            assert(concatenated(after) == concatenated(before).push(s.last()));
            assert(before[before.len() - 1] == last);
            assert forall|i: int, j: int|
                0 <= i < after.len() && 0 <= j < after[i].len() - 1 implies #[trigger] after[i][j]
                != '\n' by {
                if i < before.len() - 1 {
                    assert(after[i] == before[i]);
                } else {
                    assert(after[i][j] == last[j]);
                    if j == last.len() - 1 {
                        assert(last.last() == t.last());
                    } else {
                        assert(before[i][j] != '\n');
                    }
                }
            }
            assert forall|i: int| 0 <= i < after.len() - 1 implies (#[trigger] after[i]).last()
                == '\n' by {
                assert(after[i] == before[i]);
            }
        }
        assert(s == t.push(s.last()));
    }
}

/// Taking a character from the end of a text takes all of them there, and nothing
/// else.
pub proof fn law_trim_end_char_takes_the_character_alone(s: Seq<char>, c: char)
    ensures
        trim_end_char_of(s, c).len() <= s.len(),
        trim_end_char_of(s, c) == s.take(trim_end_char_of(s, c).len() as int),
        forall|i: int| trim_end_char_of(s, c).len() <= i < s.len() ==> #[trigger] s[i] == c,
        trim_end_char_of(s, c).len() == 0 || trim_end_char_of(s, c).last() != c,
    decreases s.len(),
{
    if s.len() > 0 && s.last() == c {
        let t = s.drop_last();
        law_trim_end_char_takes_the_character_alone(t, c);
        let n = trim_end_char_of(s, c).len() as int;
        assert(t.take(n) == s.take(n));
        assert forall|i: int| n <= i < s.len() implies #[trigger] s[i] == c by {
            if i < t.len() {
                assert(t[i] == s[i]);
            }
        }
    } else {
        assert(s.take(s.len() as int) == s);
    }
}

/// What stands in a part of a text stands in the text.
pub proof fn lemma_has_text_in_part(s: Seq<char>, from: int, to: int, pat: Seq<char>)
    requires
        0 <= from <= to <= s.len(),
        has_text(s.subrange(from, to), pat),
    ensures
        has_text(s, pat),
{
    let part = s.subrange(from, to);
    let i = choose|i: int| occurs_at(part, pat, i);
    assert(s.subrange(from + i, from + i + pat.len()) == part.subrange(i, i + pat.len()));
    assert(occurs_at(s, pat, from + i));
}

/// The words of two texts with white space between them are the words of each.
pub proof fn law_white_space_parts_words(a: Seq<char>, space: char, b: Seq<char>)
    requires
        is_white_space(space),
    ensures
        words_of(a.push(space) + b) == words_of(a) + words_of(b),
    decreases b.len(),
{
    let start = a.push(space);
    let whole = start + b;
    if b.len() == 0 {
        assert(whole == start);
        assert(start.drop_last() == a);
        assert(words_of(b) == Seq::<Seq<char>>::empty());
        assert(words_of(a) + words_of(b) == words_of(a));
    } else {
        let shorter = b.drop_last();
        law_white_space_parts_words(a, space, shorter);
        assert(whole.drop_last() == start + shorter);
        assert(whole.last() == b.last());
        let own = words_of(shorter);
        if is_white_space(b.last()) {
        } else if b.len() == 1 {
            assert(whole[whole.len() - 2] == space);
            assert(own == Seq::<Seq<char>>::empty());
            assert(words_of(a) + own.push(seq![b.last()]) == (words_of(a) + own).push(
                seq![b.last()],
            ));
        } else {
            assert(whole[whole.len() - 2] == b[b.len() - 2]);
            if is_white_space(b[b.len() - 2]) {
                assert(words_of(a) + own.push(seq![b.last()]) == (words_of(a) + own).push(
                    seq![b.last()],
                ));
            } else {
                lemma_words_not_empty(shorter);
                let before = words_of(a) + own;
                assert(before.last() == own.last());
                assert(before.drop_last() == words_of(a) + own.drop_last());
                assert(words_of(a) + own.drop_last().push(own.last().push(b.last()))
                    == before.drop_last().push(own.last().push(b.last())));
            }
        }
    }
}

proof fn lemma_words_not_empty(s: Seq<char>)
    requires
        s.len() > 0,
        !is_white_space(s.last()),
    ensures
        words_of(s).len() > 0,
{
}

/// A text without white space is one word.
pub proof fn law_word_alone(s: Seq<char>)
    requires
        s.len() > 0,
        forall|i: int| 0 <= i < s.len() ==> !is_white_space(#[trigger] s[i]),
    ensures
        words_of(s) == seq![s],
    decreases s.len(),
{
    let shorter = s.drop_last();
    assert(s[s.len() - 1] == s.last());
    if s.len() == 1 {
        assert(words_of(shorter) == Seq::<Seq<char>>::empty());
        assert(seq![s.last()] == s);
    } else {
        assert forall|i: int| 0 <= i < shorter.len() implies !is_white_space(
            #[trigger] shorter[i],
        ) by {
            assert(shorter[i] == s[i]);
        }
        law_word_alone(shorter);
        assert(!is_white_space(s[s.len() - 2]));
        assert(seq![shorter].drop_last() == Seq::<Seq<char>>::empty());
        assert(shorter.push(s.last()) == s);
    }
}

/// White space is what Unicode says it is.
pub proof fn law_white_space_signs(c: char)
    ensures
        is_white_space(c) == (c == '\t' || c == '\n' || c == '\u{b}' || c == '\u{c}' || c == '\r' || c
            == ' ' || c == '\u{85}' || c == '\u{a0}' || c == '\u{1680}' || '\u{2000}' <= c
            <= '\u{200a}' || c == '\u{2028}' || c == '\u{2029}' || c == '\u{202f}' || c
            == '\u{205f}' || c == '\u{3000}'),
{
}

/// Writing a text in small letters changes the capital letters of ASCII alone, each
/// into its small one, and once is enough.
pub proof fn law_small_letters(s: Seq<char>, i: int)
    requires
        0 <= i < s.len(),
    ensures
        lower(s).len() == s.len(),
        'A' <= s[i] <= 'Z' ==> lower(s)[i] as int == s[i] as int + ('a' as int - 'A' as int),
        !('A' <= s[i] <= 'Z') ==> lower(s)[i] == s[i],
        lower(lower(s)) == lower(s),
{
    assert forall|k: int| 0 <= k < s.len() implies ascii_lower(
        ascii_lower(#[trigger] s[k]),
    ) == ascii_lower(s[k]) by {}
    assert(lower(lower(s)) =~= lower(s));
}

} // verus!
