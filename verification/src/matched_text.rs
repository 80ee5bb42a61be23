//! The text of a match in the scan output, kept within bounds.
use vstd::prelude::*;

use crate::text;

verus! {

/// The longest line, in bytes, that the text of a match shows in full.
pub const MAX_OUTPUT_MATCHED_TEXT_LINE_LENGTH: usize = 10_000;

/// The longest text of a match, in bytes: 128 KiB.
pub const MAX_OUTPUT_MATCHED_TEXT_BYTES: usize = 131_072;

/// What stands for the rest of a text that was cut.
pub const MATCHED_TEXT_TRUNCATION_MARKER: &'static str = "… [truncated]";

/// The longest beginning of a text with at most so many bytes.
pub open spec fn byte_prefix(s: Seq<char>, max: nat) -> Seq<char>
    decreases s.len(),
{
    if s.len() == 0 || text::byte_len(s) <= max {
        s
    } else {
        byte_prefix(s.drop_last(), max)
    }
}

/// A text cut to so many bytes, the marker at its end included.
pub open spec fn truncated(s: Seq<char>, max: nat) -> Seq<char> {
    let marker = MATCHED_TEXT_TRUNCATION_MARKER@;
    if text::byte_len(s) <= max {
        s
    } else if max <= text::byte_len(marker) {
        byte_prefix(marker, max)
    } else {
        byte_prefix(s, (max - text::byte_len(marker)) as nat) + marker
    }
}

/// A text within the bound for matched text.
pub open spec fn capped(s: Seq<char>) -> Seq<char> {
    truncated(s, MAX_OUTPUT_MATCHED_TEXT_BYTES as nat)
}

/// A range of lines that is one: lines count from one.
pub open spec fn proper_range(start: nat, end: nat) -> bool {
    1 <= start <= end
}

/// The lines of a text that lie in a range, each with its line ending.
pub open spec fn selected(s: Seq<char>, start: nat, end: nat) -> Seq<Seq<char>> {
    let lines = text::raw_lines(s);
    if !proper_range(start, end) || start > lines.len() {
        seq![]
    } else if end > lines.len() {
        lines.skip(start - 1)
    } else {
        lines.subrange(start - 1, end as int)
    }
}

/// A line without its ending, cut where it is longer than a bound.
pub open spec fn shown_line(line: Seq<char>, max: Option<nat>) -> Seq<char> {
    match max {
        Some(n) => truncated(text::line_body(line), n),
        None => text::line_body(line),
    }
}

/// Lines one behind the other, the last without its ending.
pub open spec fn joined_lines(lines: Seq<Seq<char>>, max: Option<nat>) -> Seq<char>
    decreases lines.len(),
{
    if lines.len() == 0 {
        seq![]
    } else if lines.len() == 1 {
        shown_line(lines[0], max)
    } else {
        joined_lines(lines.drop_last(), max) + text::line_ending(lines[lines.len() - 2])
            + shown_line(lines.last(), max)
    }
}

/// The lines of a range of a text.
pub open spec fn lines_between(s: Seq<char>, start: nat, end: nat) -> Seq<char> {
    joined_lines(selected(s, start, end), None)
}

/// The lines of a range of a text, each cut where it is longer than a bound.
pub open spec fn capped_lines_between(s: Seq<char>, start: nat, end: nat, max: nat) -> Seq<char> {
    joined_lines(selected(s, start, end), Some(max))
}

/// A line of the range is longer than so many bytes.
pub open spec fn has_long_line(s: Seq<char>, start: nat, end: nat, max: nat) -> bool {
    proper_range(start, end) && exists|i: int|
        start <= i + 1 <= end && 0 <= i < text::lines_of(s).len() && text::byte_len(
            #[trigger] text::lines_of(s)[i],
        ) > max
}

proof fn lemma_byte_len_take(s: Seq<char>, i: int, j: int)
    requires
        0 <= i <= j <= s.len(),
    ensures
        text::byte_len(s.take(i)) <= text::byte_len(s.take(j)),
{
    assert(s.take(j) == s.take(i) + s.subrange(i, j));
    text::lemma_byte_len_concat(s.take(i), s.subrange(i, j));
}

proof fn lemma_byte_prefix(s: Seq<char>, max: nat, k: int)
    requires
        0 <= k <= s.len(),
        text::byte_len(s.take(k)) <= max,
        k < s.len() ==> text::byte_len(s.take(k + 1)) > max,
    ensures
        byte_prefix(s, max) == s.take(k),
    decreases s.len(),
{
    assert(s.take(s.len() as int) == s);
    if k < s.len() {
        lemma_byte_len_take(s, k + 1, s.len() as int);
        assert(s.drop_last().take(k) == s.take(k));
        if k + 1 < s.len() {
            assert(s.drop_last().take(k + 1) == s.take(k + 1));
        }
        lemma_byte_prefix(s.drop_last(), max, k);
    }
}

fn cut_chars<'a>(s: &'a [char], max: usize) -> (r: &'a [char])
    ensures
        r@ == byte_prefix(s@, max as nat),
{
    let mut total: usize = 0;
    let mut k: usize = 0;
    proof {
        reveal_with_fuel(vstd::utf8::encode_utf8, 1);
        assert(s@.take(0) == Seq::<char>::empty());
    }
    while k < s.len()
        invariant
            k <= s@.len(),
            total <= max,
            total == text::byte_len(s@.take(k as int)),
        decreases s@.len() - k,
    {
        let w: usize = text::width(s[k]);
        proof {
            assert(s@.take(k + 1) == s@.take(k as int).push(s@[k as int]));
            text::lemma_byte_len_push(s@.take(k as int), s@[k as int]);
        }
        if w > max - total {
            proof {
                lemma_byte_prefix(s@, max as nat, k as int);
                assert(s@.subrange(0, k as int) == s@.take(k as int));
            }
            return &s[0..k];
        }
        total = total + w;
        k = k + 1;
    }
    proof {
        lemma_byte_prefix(s@, max as nat, k as int);
        assert(s@.take(k as int) == s@);
    }
    s
}

/// The longest beginning of a text with at most so many bytes.
pub fn truncate_at_char_boundary(content: &str, max_bytes: usize) -> (r: String)
    ensures
        r@ == byte_prefix(content@, max_bytes as nat),
{
    let chars = text::to_chars(content);
    text::to_text(cut_chars(&chars, max_bytes))
}

/// A text cut to so many bytes, with a marker at its end where anything is cut.
pub fn truncate_with_marker(content: &str, max_bytes: usize) -> (r: String)
    ensures
        r@ == truncated(content@, max_bytes as nat),
{
    if text::text_bytes(content) <= max_bytes {
        return content.to_owned();
    }
    let marker_bytes: usize = text::text_bytes(MATCHED_TEXT_TRUNCATION_MARKER);
    if max_bytes <= marker_bytes {
        return truncate_at_char_boundary(MATCHED_TEXT_TRUNCATION_MARKER, max_bytes);
    }
    let mut r = truncate_at_char_boundary(content, max_bytes - marker_bytes);
    r.append(MATCHED_TEXT_TRUNCATION_MARKER);
    r
}

/// A text within the bound for matched text.
pub fn cap_output_matched_text(content: String) -> (r: String)
    ensures
        r@ == capped(content@),
{
    if text::text_bytes(content.as_str()) <= MAX_OUTPUT_MATCHED_TEXT_BYTES {
        return content;
    }
    truncate_with_marker(content.as_str(), MAX_OUTPUT_MATCHED_TEXT_BYTES)
}

/// A line in two: its text and its line ending.
pub fn split_line_ending(line: &str) -> (r: (String, String))
    ensures
        r.0@ == text::line_body(line@),
        r.1@ == text::line_ending(line@),
{
    let chars = text::to_chars(line);
    let (body, ending) = text::split_line_ending_chars(&chars);
    (text::to_text(body), text::to_text(ending))
}

/// Whether a line of the range is longer than so many bytes.
pub fn line_range_has_oversized_line(
    content: &str,
    start_line: usize,
    end_line: usize,
    max_line_length: usize,
) -> (r: bool)
    ensures
        r == has_long_line(
            content@,
            start_line as nat,
            end_line as nat,
            max_line_length as nat,
        ),
{
    if start_line == 0 || end_line == 0 || start_line > end_line {
        return false;
    }
    let lines = text::text_lines(content);
    let ghost all = text::lines_of(content@);
    assert(all.len() == lines@.len());
    let mut i: usize = 0;
    while i < lines.len()
        invariant
            1 <= start_line <= end_line,
            all == text::lines_of(content@),
            all == text::texts(lines@),
            all.len() == lines@.len(),
            i <= lines@.len(),
            forall|j: int|
                0 <= j < i && start_line <= j + 1 <= end_line ==> text::byte_len(#[trigger] all[j])
                    <= max_line_length,
        decreases lines@.len() - i,
    {
        assert(all[i as int] == lines@[i as int]@);
        let line_num: usize = i + 1;
        if line_num >= start_line && line_num <= end_line && text::text_bytes(lines[i].as_str())
            > max_line_length {
            assert(start_line <= i + 1 <= end_line);
            return true;
        }
        i = i + 1;
    }
    false
}

/// The lines of a range, each cut where it is longer than a bound, if there is one.
fn render_lines(
    content: &str,
    start_line: usize,
    end_line: usize,
    max_line_length: Option<usize>,
) -> (r: String)
    ensures
        r@ == joined_lines(
            selected(content@, start_line as nat, end_line as nat),
            match max_line_length {
                Some(n) => Some(n as nat),
                None => None,
            },
        ),
{
    let ghost max = match max_line_length {
        Some(n) => Some(n as nat),
        None => None,
    };
    let ghost chosen = selected(content@, start_line as nat, end_line as nat);
    let mut rendered = String::new();
    if start_line == 0 || end_line == 0 || start_line > end_line {
        return rendered;
    }
    let chars = text::to_chars(content);
    let rows = text::split_raw_lines(&chars);
    let ghost all = text::raw_lines(content@);
    assert(all.len() == rows@.len());
    if start_line > rows.len() {
        return rendered;
    }
    let last: usize = if end_line > rows.len() {
        rows.len()
    } else {
        end_line
    };
    proof {
        assert(chosen == all.subrange(start_line - 1, last as int));
        assert(chosen.take(0) == Seq::<Seq<char>>::empty());
    }
    let first: usize = start_line - 1;
    let mut i: usize = first;
    while i < last
        invariant
            all == text::char_rows(rows@),
            all.len() == rows@.len(),
            first <= i <= last <= rows@.len(),
            chosen == all.subrange(first as int, last as int),
            max == (match max_line_length {
                Some(n) => Some(n as nat),
                None => None,
            }),
            rendered@ == joined_lines(chosen.take(i - first), max),
        decreases last - i,
    {
        let ghost n = i - first;
        let ghost before = rendered@;
        proof {
            assert(all[i as int] == rows@[i as int]@);
            assert(chosen[n] == all[i as int]);
            assert(chosen.take(n + 1).drop_last() == chosen.take(n));
            assert(chosen.take(n + 1).last() == chosen[n]);
        }
        if i > first {
            assert(all[i - 1] == rows@[i - 1]@);
            assert(chosen.take(n + 1)[n - 1] == all[i - 1]);
            let (_, ending) = text::split_line_ending_chars(&rows[i - 1]);
            rendered.append(text::to_text(ending).as_str());
            assert(rendered@ == before + text::line_ending(chosen[n - 1]));
        }
        let (body, _) = text::split_line_ending_chars(&rows[i]);
        let line_text = text::to_text(body);
        let ghost so_far = rendered@;
        match max_line_length {
            Some(n) => {
                rendered.append(truncate_with_marker(line_text.as_str(), n).as_str());
            },
            None => {
                rendered.append(line_text.as_str());
            },
        }
        proof {
            assert(rendered@ == so_far + shown_line(chosen[n], max));
            if n == 0 {
                assert(before == Seq::<char>::empty());
                assert(rendered@ == shown_line(chosen[n], max));
                assert(chosen.take(1)[0] == chosen[0]);
            }
        }
        i = i + 1;
    }
    assert(chosen.take(i - first) == chosen);
    rendered
}

/// The lines of a range of a text, each cut where it is longer than a bound.
pub fn matched_text_from_text_with_line_cap(
    content: &str,
    start_line: usize,
    end_line: usize,
    max_line_length: usize,
) -> (r: String)
    ensures
        r@ == capped_lines_between(
            content@,
            start_line as nat,
            end_line as nat,
            max_line_length as nat,
        ),
{
    render_lines(content, start_line, end_line, Some(max_line_length))
}

/// The lines of a range of a text, none of them longer than the scan output allows.
pub fn bounded_matched_text_from_text(content: &str, start_line: usize, end_line: usize) -> (r:
    String)
    ensures
        r@ == capped_lines_between(
            content@,
            start_line as nat,
            end_line as nat,
            MAX_OUTPUT_MATCHED_TEXT_LINE_LENGTH as nat,
        ),
{
    matched_text_from_text_with_line_cap(
        content,
        start_line,
        end_line,
        MAX_OUTPUT_MATCHED_TEXT_LINE_LENGTH,
    )
}

/// The lines of a range of a text.
pub fn matched_text_from_text(content: &str, start_line: usize, end_line: usize) -> (r: String)
    ensures
        r@ == lines_between(content@, start_line as nat, end_line as nat),
{
    render_lines(content, start_line, end_line, None)
}

proof fn lemma_byte_prefix_fits(s: Seq<char>, max: nat)
    ensures
        text::byte_len(byte_prefix(s, max)) <= max,
        byte_prefix(s, max).len() <= s.len(),
        byte_prefix(s, max) == s.take(byte_prefix(s, max).len() as int),
    decreases s.len(),
{
    reveal_with_fuel(vstd::utf8::encode_utf8, 1);
    if s.len() == 0 || text::byte_len(s) <= max {
        assert(s.take(s.len() as int) == s);
        if s.len() == 0 {
            assert(s == Seq::<char>::empty());
        }
    } else {
        lemma_byte_prefix_fits(s.drop_last(), max);
        let k = byte_prefix(s, max).len() as int;
        assert(s.drop_last().take(k) == s.take(k));
    }
}

/// A truncated text is never longer than its bound.
pub proof fn law_truncated_fits(s: Seq<char>, max: nat)
    ensures
        text::byte_len(truncated(s, max)) <= max,
{
    let marker = MATCHED_TEXT_TRUNCATION_MARKER@;
    if text::byte_len(s) > max {
        if max <= text::byte_len(marker) {
            lemma_byte_prefix_fits(marker, max);
        } else {
            let rest = (max - text::byte_len(marker)) as nat;
            lemma_byte_prefix_fits(s, rest);
            text::lemma_byte_len_concat(byte_prefix(s, rest), marker);
        }
    }
}

/// A text that fits is not cut, and cutting a cut text again changes nothing.
pub proof fn law_truncated_idempotent(s: Seq<char>, max: nat)
    ensures
        text::byte_len(s) <= max ==> truncated(s, max) == s,
        truncated(truncated(s, max), max) == truncated(s, max),
{
    law_truncated_fits(s, max);
}

/// A text that is cut and has room for the marker ends with it, and begins as
/// the text did.
pub proof fn law_truncated_is_marked(s: Seq<char>, max: nat)
    requires
        text::byte_len(s) > max,
        max > text::byte_len(MATCHED_TEXT_TRUNCATION_MARKER@),
    ensures
        ({
            let marker = MATCHED_TEXT_TRUNCATION_MARKER@;
            let kept = truncated(s, max).len() - marker.len();
            0 <= kept <= s.len() && truncated(s, max) == s.take(kept) + marker
        }),
{
    let marker = MATCHED_TEXT_TRUNCATION_MARKER@;
    let rest = (max - text::byte_len(marker)) as nat;
    lemma_byte_prefix_fits(s, rest);
}

/// Matched text in the scan output stays within its bound.
pub proof fn law_capped_fits(s: Seq<char>)
    ensures
        text::byte_len(capped(s)) <= MAX_OUTPUT_MATCHED_TEXT_BYTES,
{
    law_truncated_fits(s, MAX_OUTPUT_MATCHED_TEXT_BYTES as nat);
}

/// No line of a text is longer than so many bytes.
pub open spec fn lines_fit(s: Seq<char>, max: nat) -> bool {
    forall|i: int|
        0 <= i < text::lines_of(s).len() ==> text::byte_len(#[trigger] text::lines_of(s)[i]) <= max
}

/// A line end stands only at the end of a line, and at that of every line but
/// the last.
spec fn proper_lines(lines: Seq<Seq<char>>) -> bool {
    &&& forall|i: int| 0 <= i < lines.len() ==> (#[trigger] lines[i]).len() > 0
    &&& forall|i: int| 0 <= i < lines.len() - 1 ==> (#[trigger] lines[i]).last() == '\n'
    &&& forall|i: int|
        0 <= i < lines.len() ==> !(#[trigger] lines[i]).drop_last().contains('\n')
}

proof fn lemma_proper_lines(s: Seq<char>)
    ensures
        proper_lines(text::raw_lines(s)),
        text::raw_lines(s).len() == 0 <==> s.len() == 0,
        s.len() > 0 ==> text::raw_lines(s).last().last() == s.last(),
    decreases s.len(),
{
    if s.len() > 0 {
        let before = text::raw_lines(s.drop_last());
        let after = text::raw_lines(s);
        lemma_proper_lines(s.drop_last());
        if s.len() == 1 || s[s.len() - 2] == '\n' {
            assert(after == before.push(seq![s.last()]));
            assert forall|i: int| 0 <= i < after.len() implies (#[trigger] after[i]).len() > 0
                && !after[i].drop_last().contains('\n') && (i < after.len() - 1
                ==> after[i].last() == '\n') by {
                if i < before.len() {
                    assert(after[i] == before[i]);
                    if i == before.len() - 1 {
                        assert(s.drop_last().last() == s[s.len() - 2]);
                    }
                } else {
                    assert(after[i].drop_last() == Seq::<char>::empty());
                }
            }
        } else {
            let grown = before.last().push(s.last());
            assert(after == before.drop_last().push(grown));
            assert(s.drop_last().last() == s[s.len() - 2]);
            assert forall|i: int| 0 <= i < after.len() implies (#[trigger] after[i]).len() > 0
                && !after[i].drop_last().contains('\n') && (i < after.len() - 1
                ==> after[i].last() == '\n') by {
                if i < before.len() - 1 {
                    assert(after[i] == before[i]);
                } else {
                    assert(after[i].drop_last() == before.last());
                    assert(before[before.len() - 1] == before.last());
                    if before.last().contains('\n') {
                        let j = choose|j: int|
                            0 <= j < before.last().len() && before.last()[j] == '\n';
                        assert(j < before.last().len() - 1);
                        assert(before.last().drop_last()[j] == '\n');
                    }
                }
            }
        }
    }
}

proof fn lemma_empty_bytes()
    ensures
        text::byte_len(Seq::<char>::empty()) == 0,
{
    reveal_with_fuel(vstd::utf8::encode_utf8, 1);
}

/// A beginning of a text has no more bytes than the text.
proof fn lemma_byte_len_part(s: Seq<char>, k: int)
    requires
        0 <= k <= s.len(),
    ensures
        text::byte_len(s.take(k)) <= text::byte_len(s),
{
    lemma_byte_len_take(s, k, s.len() as int);
    assert(s.take(s.len() as int) == s);
}

/// The lines of a text with a line more.
proof fn lemma_raw_lines_append(t: Seq<char>, p: Seq<char>)
    requires
        t.len() == 0 || t.last() == '\n',
        p.len() > 0,
        !p.contains('\n'),
    ensures
        text::raw_lines(t + p) == text::raw_lines(t).push(p),
    decreases p.len(),
{
    let whole = t + p;
    assert(whole.last() == p.last());
    if p.len() == 1 {
        assert(whole.drop_last() == t);
        assert(seq![p.last()] == p);
        if t.len() > 0 {
            assert(whole[whole.len() - 2] == t.last());
        }
    } else {
        let q = p.drop_last();
        assert(whole.drop_last() == t + q);
        assert forall|i: int| 0 <= i < q.len() implies q[i] != '\n' by {
            assert(p[i] == q[i]);
        }
        lemma_raw_lines_append(t, q);
        assert(whole[whole.len() - 2] == q.last());
        assert(q.last() == p[p.len() - 2]);
        assert(q.push(p.last()) == p);
        let before = text::raw_lines(t + q);
        assert(before.drop_last() == text::raw_lines(t));
        assert(before.last() == q);
    }
}

/// Lines that fit still do with a line end more.
proof fn lemma_lines_fit_newline(t: Seq<char>, max: nat)
    requires
        lines_fit(t, max),
    ensures
        lines_fit(t.push('\n'), max),
{
    let s = t.push('\n');
    let before = text::raw_lines(t);
    let after = text::raw_lines(s);
    assert(s.drop_last() == t);
    lemma_empty_bytes();
    lemma_proper_lines(t);
    assert forall|i: int| 0 <= i < text::lines_of(s).len() implies text::byte_len(
        #[trigger] text::lines_of(s)[i],
    ) <= max by {
        if i < after.len() - 1 {
            assert(after[i] == before[i]);
            assert(text::lines_of(s)[i] == text::lines_of(t)[i]);
        } else if s.len() == 1 || s[s.len() - 2] == '\n' {
            assert(after[i] == seq!['\n']);
            assert(text::lines_of(s)[i] == Seq::<char>::empty());
        } else {
            let line = before.last();
            assert(t.last() == s[s.len() - 2]);
            assert(after[i] == line.push('\n'));
            assert(text::lines_of(t)[i] == text::line_body(line));
            assert(text::line_body(line) == line);
            if line.len() >= 1 && line.last() == '\r' {
                assert(text::lines_of(s)[i] == line.take(line.len() - 1));
                lemma_byte_len_part(line, line.len() - 1);
            } else {
                assert(text::lines_of(s)[i] == line);
            }
        }
    }
}

/// Lines that fit still do with the line end of a system that writes two
/// characters.
proof fn lemma_lines_fit_two(t: Seq<char>, max: nat)
    requires
        lines_fit(t, max),
    ensures
        lines_fit(t.push('\r').push('\n'), max),
{
    let m = t.push('\r');
    let s = m.push('\n');
    let before = text::raw_lines(t);
    let middle = text::raw_lines(m);
    let after = text::raw_lines(s);
    assert(s.drop_last() == m);
    assert(m.drop_last() == t);
    assert(s[s.len() - 2] == '\r');
    lemma_empty_bytes();
    lemma_proper_lines(t);
    assert(after == middle.drop_last().push(middle.last().push('\n')));
    assert forall|i: int| 0 <= i < text::lines_of(s).len() implies text::byte_len(
        #[trigger] text::lines_of(s)[i],
    ) <= max by {
        if i < after.len() - 1 {
            assert(after[i] == middle[i]);
            assert(middle[i] == before[i]);
            assert(text::lines_of(s)[i] == text::lines_of(t)[i]);
        } else if m.len() == 1 || m[m.len() - 2] == '\n' {
            assert(middle.last() == seq!['\r']);
            assert(after[i] == seq!['\r', '\n']);
            assert(text::lines_of(s)[i] == Seq::<char>::empty());
        } else {
            let line = before.last();
            assert(t.last() == m[m.len() - 2]);
            assert(middle.last() == line.push('\r'));
            assert(after[i] == line.push('\r').push('\n'));
            assert(text::lines_of(t)[i] == text::line_body(line));
            assert(text::line_body(line) == line);
            assert(text::lines_of(s)[i] == line);
        }
    }
}

/// Lines that fit still do with one more that fits.
proof fn lemma_lines_fit_append(t: Seq<char>, p: Seq<char>, max: nat)
    requires
        lines_fit(t, max),
        t.len() == 0 || t.last() == '\n',
        !p.contains('\n'),
        text::byte_len(p) <= max,
    ensures
        lines_fit(t + p, max),
{
    if p.len() == 0 {
        assert(t + p == t);
    } else {
        lemma_raw_lines_append(t, p);
        let before = text::raw_lines(t);
        let after = text::raw_lines(t + p);
        assert forall|i: int| 0 <= i < text::lines_of(t + p).len() implies text::byte_len(
            #[trigger] text::lines_of(t + p)[i],
        ) <= max by {
            if i < before.len() {
                assert(after[i] == before[i]);
                assert(text::lines_of(t + p)[i] == text::lines_of(t)[i]);
            } else {
                assert(p[p.len() - 1] != '\n');
                assert(text::lines_of(t + p)[i] == p);
            }
        }
    }
}

proof fn lemma_truncated_has_no_newline(s: Seq<char>, max: nat)
    requires
        !s.contains('\n'),
    ensures
        !truncated(s, max).contains('\n'),
{
    let marker = MATCHED_TEXT_TRUNCATION_MARKER@;
    reveal_strlit("… [truncated]");
    assert(!marker.contains('\n'));
    if text::byte_len(s) > max {
        if max <= text::byte_len(marker) {
            lemma_byte_prefix_fits(marker, max);
            let cut = byte_prefix(marker, max);
            assert forall|i: int| 0 <= i < cut.len() implies cut[i] != '\n' by {
                assert(cut[i] == marker[i]);
            }
        } else {
            let rest = (max - text::byte_len(marker)) as nat;
            lemma_byte_prefix_fits(s, rest);
            let cut = byte_prefix(s, rest);
            assert forall|i: int| 0 <= i < (cut + marker).len() implies (cut + marker)[i]
                != '\n' by {
                if i < cut.len() {
                    assert(cut[i] == s[i]);
                } else {
                    assert((cut + marker)[i] == marker[i - cut.len()]);
                }
            }
        }
    }
}

proof fn lemma_body_has_no_newline(line: Seq<char>)
    requires
        line.len() > 0,
        !line.drop_last().contains('\n'),
    ensures
        !text::line_body(line).contains('\n'),
        line.last() == '\n' ==> text::line_ending(line) == seq!['\n'] || text::line_ending(line)
            == seq!['\r', '\n'],
{
    let body = text::line_body(line);
    assert forall|i: int| 0 <= i < body.len() implies body[i] != '\n' by {
        if i < line.len() - 1 {
            assert(body[i] == line.drop_last()[i]);
        }
    }
    if line.last() == '\n' {
        if line.len() >= 2 && line[line.len() - 2] == '\r' {
            assert(text::line_ending(line) == seq!['\r', '\n']);
        } else {
            assert(text::line_ending(line) == seq!['\n']);
        }
    }
}

proof fn lemma_joined_lines_fit(lines: Seq<Seq<char>>, max: nat)
    requires
        proper_lines(lines),
    ensures
        lines_fit(joined_lines(lines, Some(max)), max),
    decreases lines.len(),
{
    let nothing = Seq::<char>::empty();
    assert(lines_fit(nothing, max));
    if lines.len() > 0 {
        let last = lines.last();
        assert(last == lines[lines.len() - 1]);
        lemma_body_has_no_newline(last);
        lemma_truncated_has_no_newline(text::line_body(last), max);
        law_truncated_fits(text::line_body(last), max);
        let shown = shown_line(last, Some(max));
        if lines.len() == 1 {
            lemma_lines_fit_append(nothing, shown, max);
            assert(nothing + shown == shown);
        } else {
            let fewer = lines.drop_last();
            assert forall|i: int| 0 <= i < fewer.len() implies (#[trigger] fewer[i]).len() > 0
                && !fewer[i].drop_last().contains('\n') && (i < fewer.len() - 1
                ==> fewer[i].last() == '\n') by {
                assert(fewer[i] == lines[i]);
            }
            lemma_joined_lines_fit(fewer, max);
            let t = joined_lines(fewer, Some(max));
            let closed = lines[lines.len() - 2];
            lemma_body_has_no_newline(closed);
            let ended = t + text::line_ending(closed);
            if text::line_ending(closed) == seq!['\n'] {
                lemma_lines_fit_newline(t, max);
                assert(ended == t.push('\n'));
            } else {
                lemma_lines_fit_two(t, max);
                assert(ended == t.push('\r').push('\n'));
            }
            lemma_lines_fit_append(ended, shown, max);
        }
    }
}

/// No line of text with a bound on its lines is longer than the bound.
pub proof fn law_capped_lines_fit(s: Seq<char>, start: nat, end: nat, max: nat)
    ensures
        lines_fit(capped_lines_between(s, start, end, max), max),
        forall|first: nat, last: nat|
            !#[trigger] has_long_line(capped_lines_between(s, start, end, max), first, last, max),
{
    lemma_proper_lines(s);
    let lines = text::raw_lines(s);
    let chosen = selected(s, start, end);
    if proper_range(start, end) && start <= lines.len() {
        let to = if end > lines.len() {
            lines.len() as int
        } else {
            end as int
        };
        assert(chosen == lines.subrange(start - 1, to));
        assert forall|i: int| 0 <= i < chosen.len() implies (#[trigger] chosen[i]).len() > 0
            && !chosen[i].drop_last().contains('\n') && (i < chosen.len() - 1
            ==> chosen[i].last() == '\n') by {
            assert(chosen[i] == lines[start - 1 + i]);
        }
    }
    lemma_joined_lines_fit(chosen, max);
}

proof fn lemma_byte_prefix_longest(s: Seq<char>, max: nat)
    ensures
        byte_prefix(s, max).len() < s.len() ==> text::byte_len(
            s.take(byte_prefix(s, max).len() as int + 1),
        ) > max,
    decreases s.len(),
{
    if s.len() > 0 && text::byte_len(s) > max {
        let t = s.drop_last();
        lemma_byte_prefix_longest(t, max);
        lemma_byte_prefix_fits(t, max);
        let k = byte_prefix(s, max).len() as int;
        if k < t.len() {
            assert(t.take(k + 1) == s.take(k + 1));
        } else {
            assert(s.take(k + 1) == s);
        }
    }
}

/// A text is cut no sooner than its bound asks: what is left of it, with one
/// character more, would not fit. Where there is no room for the marker, a
/// beginning of the marker shows.
pub proof fn law_cut_leaves_as_much_as_fits(s: Seq<char>, max: nat)
    requires
        text::byte_len(s) > max,
    ensures
        max > text::byte_len("… [truncated]"@) ==> {
            let kept = truncated(s, max).len() - "… [truncated]"@.len();
            &&& 0 <= kept < s.len()
            &&& truncated(s, max) == s.take(kept) + "… [truncated]"@
            &&& text::byte_len(s.take(kept + 1)) + text::byte_len("… [truncated]"@) > max
        },
        max <= text::byte_len("… [truncated]"@) ==> {
            let shown = truncated(s, max);
            &&& shown.len() <= "… [truncated]"@.len()
            &&& shown == "… [truncated]"@.take(shown.len() as int)
            &&& shown.len() < "… [truncated]"@.len() ==> text::byte_len(
                "… [truncated]"@.take(shown.len() as int + 1),
            ) > max
        },
{
    let marker = "… [truncated]"@;
    if max > text::byte_len(marker) {
        let rest = (max - text::byte_len(marker)) as nat;
        lemma_byte_prefix_fits(s, rest);
        lemma_byte_prefix_longest(s, rest);
        let kept = byte_prefix(s, rest).len() as int;
        if kept == s.len() {
            assert(s.take(kept) == s);
        }
    } else {
        lemma_byte_prefix_fits(marker, max);
        if text::byte_len(marker) > max {
            lemma_byte_prefix_longest(marker, max);
        }
    }
}

proof fn lemma_concatenated(a: Seq<Seq<char>>, b: Seq<Seq<char>>)
    ensures
        text::concatenated(a + b) == text::concatenated(a) + text::concatenated(b),
    decreases b.len(),
{
    if b.len() == 0 {
        assert(a + b == a);
        assert(text::concatenated(a) + text::concatenated(b) == text::concatenated(a));
    } else {
        lemma_concatenated(a, b.drop_last());
        assert((a + b).drop_last() == a + b.drop_last());
        assert((a + b).last() == b.last());
        assert(text::concatenated(a) + (text::concatenated(b.drop_last()) + b.last())
            == text::concatenated(a) + text::concatenated(b.drop_last()) + b.last());
    }
}

/// Lines that are shown whole are the lines, but for the ending of the last.
proof fn lemma_whole_lines(lines: Seq<Seq<char>>)
    requires
        lines.len() > 0,
    ensures
        joined_lines(lines, None) + text::line_ending(lines.last()) == text::concatenated(lines),
    decreases lines.len(),
{
    let last = lines.last();
    text::law_line_has_two_parts(last);
    let fewer = lines.drop_last();
    if lines.len() == 1 {
        assert(text::concatenated(fewer) == Seq::<char>::empty());
        assert(text::concatenated(lines) == Seq::<char>::empty() + last);
        assert(text::concatenated(lines) == last);
    } else {
        lemma_whole_lines(fewer);
        assert(fewer.last() == lines[lines.len() - 2]);
        assert(joined_lines(lines, None) + text::line_ending(last) == joined_lines(fewer, None)
            + text::line_ending(fewer.last()) + (text::line_body(last) + text::line_ending(last)));
    }
}

/// The number of the last line of a range that a text has.
pub open spec fn last_line_of(s: Seq<char>, end: nat) -> nat {
    if end < text::raw_lines(s).len() {
        end
    } else {
        text::raw_lines(s).len()
    }
}

/// The lines of a range are the text between the lines before them and the lines
/// behind them, but for the last line ending: nothing in them is left out, changed
/// or added.
pub proof fn law_lines_between_are_the_text(s: Seq<char>, start: nat, end: nat)
    requires
        1 <= start <= end,
        start <= text::raw_lines(s).len(),
    ensures
        ({
            let lines = text::raw_lines(s);
            let last = last_line_of(s, end) as int;
            s == text::concatenated(lines.take(start - 1)) + lines_between(s, start, end)
                + text::line_ending(lines[last - 1]) + text::concatenated(lines.skip(last))
        }),
{
    let lines = text::raw_lines(s);
    let last = last_line_of(s, end) as int;
    let chosen = lines.subrange(start - 1, last);
    text::law_lines_make_the_text(s);
    assert(selected(s, start, end) == chosen);
    lemma_whole_lines(chosen);
    assert(chosen.last() == lines[last - 1]);
    lemma_concatenated(lines.take(start - 1), chosen);
    lemma_concatenated(lines.take(start - 1) + chosen, lines.skip(last));
    assert(lines == lines.take(start - 1) + chosen + lines.skip(last));
}

/// All lines of a text are the text, but for its last line ending.
pub proof fn law_all_lines_are_the_text(s: Seq<char>, end: nat)
    requires
        s.len() > 0,
        end >= text::raw_lines(s).len(),
    ensures
        lines_between(s, 1, end) + text::line_ending(s) == s,
{
    let lines = text::raw_lines(s);
    text::law_lines_make_the_text(s);
    law_lines_between_are_the_text(s, 1, end);
    let n = lines.len() as int;
    assert(lines.take(0) == Seq::<Seq<char>>::empty());
    assert(lines.skip(n) == Seq::<Seq<char>>::empty());
    let ending = text::line_ending(lines[n - 1]);
    assert(lines_between(s, 1, end) + ending == s) by {
        assert(text::concatenated(lines.take(0)) == Seq::<char>::empty());
        assert(text::concatenated(lines.skip(n)) == Seq::<char>::empty());
        assert(Seq::<char>::empty() + lines_between(s, 1, end) + ending + Seq::<char>::empty()
            == lines_between(s, 1, end) + ending);
    }
    let last = lines[n - 1];
    text::law_line_has_two_parts(last);
    text::law_line_has_two_parts(s);
    let fewer = lines.drop_last();
    assert(s == text::concatenated(fewer) + last);
    assert(ending == text::line_ending(s)) by {
        if s.last() == '\n' {
            if last.len() >= 2 {
                assert(s[s.len() - 2] == last[last.len() - 2]);
            } else if s.len() >= 2 {
                assert(last.len() == 1);
                assert(fewer.len() > 0) by {
                    if fewer.len() == 0 {
                        assert(text::concatenated(fewer) == Seq::<char>::empty());
                    }
                }
                assert(lines[n - 2].last() == '\n');
                assert(text::concatenated(fewer) == text::concatenated(fewer.drop_last())
                    + lines[n - 2]);
                assert(s[s.len() - 2] == text::concatenated(fewer).last());
                assert(s[s.len() - 2] == '\n');
            }
        }
    }
}

/// A range without a line shows nothing.
pub proof fn law_no_lines_show_nothing(s: Seq<char>, start: nat, end: nat, max: nat)
    requires
        start == 0 || start > end || start > text::raw_lines(s).len(),
    ensures
        lines_between(s, start, end) == Seq::<char>::empty(),
        capped_lines_between(s, start, end, max) == Seq::<char>::empty(),
{
}

/// One line shows as it is, and where lines have a bound as much of it as fits.
pub proof fn law_line_alone(s: Seq<char>, number: nat, max: nat)
    requires
        1 <= number <= text::lines_of(s).len(),
    ensures
        lines_between(s, number, number) == text::lines_of(s)[number - 1],
        capped_lines_between(s, number, number, max) == truncated(
            text::lines_of(s)[number - 1],
            max,
        ),
{
    let lines = text::raw_lines(s);
    let chosen = lines.subrange(number - 1, number as int);
    assert(selected(s, number, number) == chosen);
    assert(chosen.len() == 1 && chosen[0] == lines[number - 1]);
}

proof fn lemma_joined_parts(a: Seq<Seq<char>>, b: Seq<Seq<char>>, max: Option<nat>)
    requires
        a.len() > 0,
        b.len() > 0,
    ensures
        joined_lines(a + b, max) == joined_lines(a, max) + text::line_ending(a.last())
            + joined_lines(b, max),
    decreases b.len(),
{
    let whole = a + b;
    assert(whole.last() == b.last());
    if b.len() == 1 {
        assert(whole.drop_last() == a);
        assert(whole[whole.len() - 2] == a.last());
        assert(b[0] == b.last());
    } else {
        lemma_joined_parts(a, b.drop_last(), max);
        assert(whole.drop_last() == a + b.drop_last());
        assert(whole[whole.len() - 2] == b[b.len() - 2]);
        let start = joined_lines(a, max) + text::line_ending(a.last());
        let more = joined_lines(b.drop_last(), max) + text::line_ending(b[b.len() - 2])
            + shown_line(b.last(), max);
        assert(joined_lines(whole, max) == start + joined_lines(b.drop_last(), max)
            + text::line_ending(b[b.len() - 2]) + shown_line(b.last(), max));
        assert(joined_lines(whole, max) == start + more);
    }
}

/// A range of lines shows as its two parts, with the line ending between them.
pub proof fn law_ranges_join(s: Seq<char>, start: nat, middle: nat, end: nat, max: nat)
    requires
        1 <= start <= middle < end,
        middle < text::raw_lines(s).len(),
    ensures
        lines_between(s, start, end) == lines_between(s, start, middle) + text::line_ending(
            text::raw_lines(s)[middle - 1],
        ) + lines_between(s, middle + 1, end),
        capped_lines_between(s, start, end, max) == capped_lines_between(s, start, middle, max)
            + text::line_ending(text::raw_lines(s)[middle - 1]) + capped_lines_between(
            s,
            middle + 1,
            end,
            max,
        ),
{
    let lines = text::raw_lines(s);
    let last = last_line_of(s, end) as int;
    let a = lines.subrange(start - 1, middle as int);
    let b = lines.subrange(middle as int, last);
    assert(selected(s, start, middle) == a);
    assert(selected(s, middle + 1, end) == b);
    assert(selected(s, start, end) == a + b);
    assert(a.last() == lines[middle - 1]);
    lemma_joined_parts(a, b, None);
    lemma_joined_parts(a, b, Some(max));
}

proof fn lemma_short_lines_joined(lines: Seq<Seq<char>>, max: nat)
    requires
        forall|i: int|
            0 <= i < lines.len() ==> text::byte_len(text::line_body(#[trigger] lines[i])) <= max,
    ensures
        joined_lines(lines, Some(max)) == joined_lines(lines, None),
    decreases lines.len(),
{
    if lines.len() > 0 {
        let fewer = lines.drop_last();
        assert(lines[lines.len() - 1] == lines.last());
        assert forall|i: int| 0 <= i < fewer.len() implies text::byte_len(
            text::line_body(#[trigger] fewer[i]),
        ) <= max by {
            assert(fewer[i] == lines[i]);
        }
        lemma_short_lines_joined(fewer, max);
    }
}

/// A bound that no line of a range exceeds cuts nothing.
pub proof fn law_short_lines_are_not_cut(s: Seq<char>, start: nat, end: nat, max: nat)
    requires
        forall|i: int|
            start <= i + 1 <= end && 0 <= i < text::lines_of(s).len() ==> text::byte_len(
                #[trigger] text::lines_of(s)[i],
            ) <= max,
    ensures
        !has_long_line(s, start, end, max),
        capped_lines_between(s, start, end, max) == lines_between(s, start, end),
{
    let lines = text::raw_lines(s);
    let chosen = selected(s, start, end);
    if 1 <= start <= end && start <= lines.len() {
        assert forall|i: int| 0 <= i < chosen.len() implies text::byte_len(
            text::line_body(#[trigger] chosen[i]),
        ) <= max by {
            assert(chosen[i] == lines[start - 1 + i]);
            assert(text::lines_of(s)[start - 1 + i] == text::line_body(chosen[i]));
        }
    }
    lemma_short_lines_joined(chosen, max);
}

/// A range has a long line if and only if one of its lines is long, and a line alone
/// is a range.
pub proof fn law_long_lines_are_found(
    s: Seq<char>,
    start: nat,
    middle: nat,
    end: nat,
    max: nat,
)
    ensures
        has_long_line(s, start, start, max) == (1 <= start <= text::lines_of(s).len()
            && text::byte_len(text::lines_of(s)[start - 1]) > max),
        1 <= start <= middle < end ==> has_long_line(s, start, end, max) == (has_long_line(
            s,
            start,
            middle,
            max,
        ) || has_long_line(s, middle + 1, end, max)),
        start > end ==> !has_long_line(s, start, end, max),
{
    let lines = text::lines_of(s);
    if 1 <= start <= lines.len() && text::byte_len(lines[start - 1]) > max {
        let i = start - 1;
        assert(start <= i + 1 <= start && text::byte_len(lines[i]) > max);
    }
    if 1 <= start <= middle < end {
        if has_long_line(s, start, end, max) {
            let i = choose|i: int|
                start <= i + 1 <= end && 0 <= i < lines.len() && text::byte_len(
                    #[trigger] lines[i],
                ) > max;
            if i + 1 <= middle {
                assert(has_long_line(s, start, middle, max));
            } else {
                assert(has_long_line(s, middle + 1, end, max));
            }
        }
        if has_long_line(s, start, middle, max) {
            let i = choose|i: int|
                start <= i + 1 <= middle && 0 <= i < lines.len() && text::byte_len(
                    #[trigger] lines[i],
                ) > max;
            assert(start <= i + 1 <= end);
        }
        if has_long_line(s, middle + 1, end, max) {
            let i = choose|i: int|
                middle + 1 <= i + 1 <= end && 0 <= i < lines.len() && text::byte_len(
                    #[trigger] lines[i],
                ) > max;
            assert(start <= i + 1 <= end);
        }
    }
}

} // verus!
