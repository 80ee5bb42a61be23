//! Pruning short license references that their context shows to be no
//! statement about the scanned file: rows of license tables, and lines that
//! mention a license to negate it or to compare with it.
use vstd::prelude::*;

use crate::expression;
use crate::lists;
use crate::models;
use crate::models::{Match, PublicLicenseDetection};
use crate::paths::ScanPath;
use crate::reading;
use crate::spdx;
use crate::text;

verus! {

/// The longest line, in bytes, that is taken for prose. Longer lines are
/// minified or generated content.
pub const MAX_CONTEXTUAL_PRUNE_LINE_LEN: usize = 1_000;

/// A line without the mark of a comment and the white space around it at its
/// beginning.
pub open spec fn without_comment_prefix(line: Seq<char>) -> Seq<char> {
    let trimmed = text::trim_start_of(line);
    if text::begins_with(trimmed, "//!"@) {
        text::trim_start_of(trimmed.skip("//!"@.len() as int))
    } else if text::begins_with(trimmed, "///"@) {
        text::trim_start_of(trimmed.skip("///"@.len() as int))
    } else if text::begins_with(trimmed, "//"@) {
        text::trim_start_of(trimmed.skip("//"@.len() as int))
    } else if text::begins_with(trimmed, "*"@) {
        text::trim_start_of(trimmed.skip("*"@.len() as int))
    } else {
        trimmed
    }
}

/// The part of a line that may be a table row.
pub open spec fn table_text(line: Seq<char>) -> Seq<char> {
    text::trim_of(without_comment_prefix(line))
}

/// The line is a row of a Markdown table: it begins with a bar and ends with
/// another.
pub open spec fn table_line(line: Seq<char>) -> bool {
    let row = table_text(line);
    row.len() >= 2 && row[0] == '|' && row.last() == '|'
}

pub open spec fn is_separator_char(c: char) -> bool {
    c == '|' || c == '-' || c == ':' || c == ' ' || c == '\t'
}

/// The line parts the header of a Markdown table from its rows.
pub open spec fn table_separator_line(line: Seq<char>) -> bool {
    let row = table_text(line);
    table_line(row) && row.all(|c: char| is_separator_char(c))
}

/// The index of the first line of the block of table lines that ends at `i`.
pub open spec fn table_start(lines: Seq<Seq<char>>, i: int) -> int
    decreases i,
{
    if i > 0 && table_line(lines[i - 1]) {
        table_start(lines, i - 1)
    } else {
        i
    }
}

/// The line with the given number, counted from one, is a row of a Markdown
/// table whose header speaks of licenses.
pub open spec fn license_table_row(number: int, lines: Seq<Seq<char>>) -> bool {
    let start = table_start(lines, number - 1);
    &&& 1 <= number <= lines.len()
    &&& table_line(lines[number - 1])
    &&& start + 1 < lines.len()
    &&& text::has_text(text::lower(lines[start]), "license"@)
    &&& table_separator_line(lines[start + 1])
    &&& number > start + 2
}

/// The word stands at index `i`, with no letter or digit before or behind it.
pub open spec fn stands_alone_at(s: Seq<char>, word: Seq<char>, i: int) -> bool {
    &&& text::occurs_at(s, word, i)
    &&& i == 0 || !text::is_ascii_alnum(s[i - 1])
    &&& i + word.len() == s.len() || !text::is_ascii_alnum(s[i + word.len()])
}

/// The word "no" stands in the text, not merely as part of another word.
pub open spec fn standalone_no(s: Seq<char>) -> bool {
    exists|i: int| stands_alone_at(s, "no"@, i)
}

/// A list of license shorthands that is negated, as in "no GPL/AGPL".
pub open spec fn negated_shorthand_list(line: Seq<char>) -> bool {
    &&& standalone_no(text::lower(line))
    &&& line.contains('/')
    &&& exists|i: int| 0 <= i < line.len() && text::is_ascii_upper(#[trigger] line[i])
}

/// A lower-case line says that something goes without a license of its own.
pub open spec fn possessive_without_license(lowered: Seq<char>) -> bool {
    ||| text::has_text(lowered, "without its "@) && text::has_text(lowered, " license"@)
    ||| text::has_text(lowered, "without their "@) && text::has_text(lowered, " license"@)
}

/// The line mentions a license to negate it or to compare with it.
pub open spec fn negative_or_comparative(line: Seq<char>) -> bool {
    let lowered = text::lower(line);
    ||| text::has_text(lowered, "no "@) && text::has_text(lowered, "restriction"@)
    ||| possessive_without_license(lowered)
    ||| text::has_text(lowered, "unlike "@) && line.contains('(') && line.contains(')')
    ||| text::has_text(lowered, "-licensed alternative"@)
    ||| text::has_text(lowered, "-licensed alternatives"@)
    ||| negated_shorthand_list(line)
}

/// The match covers at most three tokens.
pub open spec fn short_reference(m: models::MatchView) -> bool {
    m.matched_length is Some && m.matched_length->0 <= 3
}

/// The match refers to a license that is not known.
pub open spec fn unknown_reference(m: models::MatchView) -> bool {
    ||| m.license_expression == "unknown-license-reference"@
    ||| m.license_expression_spdx == "LicenseRef-scancode-unknown-license-reference"@
    ||| m.rule_identifier.len() > 0 && text::has_text(text::lower(m.rule_identifier), "unknown"@)
}

/// The line with the given number is prose that says nothing about the license
/// of the file.
pub open spec fn prunes_at(number: int, lines: Seq<Seq<char>>) -> bool {
    &&& 1 <= number <= lines.len()
    &&& text::byte_len(lines[number - 1]) <= MAX_CONTEXTUAL_PRUNE_LINE_LEN
    &&& license_table_row(number, lines) || negative_or_comparative(lines[number - 1])
}

/// The match is a short or unknown reference, and one of its lines is prose
/// that says nothing about the license of the file.
pub open spec fn pruned_by_context(m: models::MatchView, lines: Seq<Seq<char>>) -> bool {
    &&& short_reference(m) || unknown_reference(m)
    &&& exists|n: int|
        m.start_line.number() <= n <= m.end_line.number() && #[trigger] prunes_at(n, lines)
}

/// The matches that the context leaves.
pub open spec fn kept_matches(matches: Seq<models::MatchView>, lines: Seq<Seq<char>>) -> Seq<
    models::MatchView,
> {
    matches.filter(|m: models::MatchView| !pruned_by_context(m, lines))
}

pub open spec fn expressions_of(matches: Seq<models::MatchView>) -> Seq<Seq<char>> {
    matches.map_values(|m: models::MatchView| m.license_expression)
}

/// The SPDX expressions of the matches, without those that are empty.
pub open spec fn spdx_expressions_of(matches: Seq<models::MatchView>) -> Seq<Seq<char>> {
    matches.map_values(|m: models::MatchView| m.license_expression_spdx).filter(
        |s: Seq<char>| s.len() > 0,
    )
}

/// The match with the file that it comes from, where none is named.
pub open spec fn with_source(m: models::MatchView, posix: Seq<char>) -> models::MatchView {
    match m.from_file {
        Some(_) => m,
        None => models::MatchView { from_file: Some(posix), ..m },
    }
}

/// The matches with the file that they come from, where none is named.
pub open spec fn with_sources(matches: Seq<models::MatchView>, posix: Seq<char>) -> Seq<
    models::MatchView,
> {
    matches.map_values(|m: models::MatchView| with_source(m, posix))
}

/// The log with the entry, once.
pub open spec fn logged_once(log: Seq<Seq<char>>, entry: Seq<char>) -> Seq<Seq<char>> {
    if log.contains(entry) {
        log
    } else {
        log.push(entry)
    }
}

/// A detection after the context took some of its matches: its expressions are
/// those of the matches that are left, and its identifier is to be assigned anew.
pub open spec fn refreshed(
    d: models::DetectionView,
    posix: Seq<char>,
    include_diagnostics: bool,
) -> models::DetectionView {
    models::DetectionView {
        license_expression: match spdx::combined(expressions_of(d.matches)) {
            Some(s) => s,
            None => d.matches[0].license_expression,
        },
        license_expression_spdx: match spdx::combined_strict(spdx_expressions_of(d.matches)) {
            Some(s) => s,
            None => seq![],
        },
        matches: with_sources(d.matches, posix),
        detection_log: if include_diagnostics {
            logged_once(d.detection_log, "contextual-short-license-mention-pruned"@)
        } else {
            d.detection_log
        },
        identifier: seq![],
    }
}

/// What the context leaves of a detection; nothing where it takes all matches.
pub open spec fn context_pruned(
    d: models::DetectionView,
    lines: Seq<Seq<char>>,
    posix: Seq<char>,
    include_diagnostics: bool,
) -> Option<models::DetectionView> {
    let kept = kept_matches(d.matches, lines);
    if kept.len() == 0 {
        None
    } else if kept.len() == d.matches.len() {
        Some(d)
    } else {
        Some(refreshed(models::DetectionView { matches: kept, ..d }, posix, include_diagnostics))
    }
}

/// What the context leaves of several detections.
pub open spec fn context_pruned_all(
    ds: Seq<models::DetectionView>,
    lines: Seq<Seq<char>>,
    posix: Seq<char>,
    include_diagnostics: bool,
) -> Seq<models::DetectionView>
    decreases ds.len(),
{
    if ds.len() == 0 {
        seq![]
    } else {
        let before = context_pruned_all(ds.drop_last(), lines, posix, include_diagnostics);
        match context_pruned(ds.last(), lines, posix, include_diagnostics) {
            Some(d) => before.push(d),
            None => before,
        }
    }
}

/// The line without the mark of a comment, as characters.
fn strip_comment_prefix<'a>(line: &'a [char]) -> (r: &'a [char])
    ensures
        r@ == without_comment_prefix(line@),
{
    let trimmed = text::trim_start(line);
    if let Some(rest) = text::strip_prefix(trimmed, "//!") {
        return text::trim_start(rest);
    }
    if let Some(rest) = text::strip_prefix(trimmed, "///") {
        return text::trim_start(rest);
    }
    if let Some(rest) = text::strip_prefix(trimmed, "//") {
        return text::trim_start(rest);
    }
    if let Some(rest) = text::strip_prefix(trimmed, "*") {
        return text::trim_start(rest);
    }
    trimmed
}

/// The line without the mark of a comment and the white space around it.
pub fn strip_markdown_table_comment_prefix(line: &str) -> (r: String)
    ensures
        r@ == without_comment_prefix(line@),
{
    let chars = text::to_chars(line);
    text::to_text(strip_comment_prefix(&chars))
}

fn is_table_row(line: &[char]) -> (r: bool)
    ensures
        r == table_line(line@),
{
    let row = text::trim(strip_comment_prefix(line));
    let n: usize = row.len();
    n >= 2 && row[0] == '|' && row[n - 1] == '|'
}

/// Whether a line is a row of a Markdown table.
pub fn is_markdown_table_line(line: &str) -> (r: bool)
    ensures
        r == table_line(line@),
{
    let chars = text::to_chars(line);
    is_table_row(&chars)
}

/// Whether a line parts the header of a Markdown table from its rows.
pub fn is_markdown_table_separator_line(line: &str) -> (r: bool)
    ensures
        r == table_separator_line(line@),
{
    let chars = text::to_chars(line);
    let row = text::trim(strip_comment_prefix(&chars));
    if !is_table_row(row) {
        return false;
    }
    let mut i: usize = 0;
    while i < row.len()
        invariant
            row@ == table_text(line@),
            i <= row@.len(),
            forall|j: int| 0 <= j < i ==> is_separator_char(row@[j]),
        decreases row@.len() - i,
    {
        let c = row[i];
        if !(c == '|' || c == '-' || c == ':' || c == ' ' || c == '\t') {
            assert(!(|c: char| is_separator_char(c))(row@[i as int]));
            return false;
        }
        i = i + 1;
    }
    true
}

/// Whether a line, counted from one, is a row of a Markdown table whose header
/// speaks of licenses.
pub fn is_markdown_license_table_row(line_number: usize, source_lines: &Vec<String>) -> (r: bool)
    requires
        line_number == 0 && source_lines@.len() > 0 ==> !table_line(source_lines@[0]@),
    ensures
        r == license_table_row(line_number as int, text::texts(source_lines@)),
{
    let ghost lines = text::texts(source_lines@);
    if line_number == 0 || line_number > source_lines.len() {
        return false;
    }
    assert(lines[line_number - 1] == source_lines@[line_number - 1]@);
    if !is_markdown_table_line(source_lines[line_number - 1].as_str()) {
        return false;
    }
    let mut block_start: usize = line_number - 1;
    while block_start > 0
        invariant
            lines == text::texts(source_lines@),
            1 <= line_number <= source_lines@.len(),
            block_start <= line_number - 1,
            table_start(lines, line_number - 1) == table_start(lines, block_start as int),
        ensures
            block_start <= line_number - 1,
            block_start == table_start(lines, line_number - 1),
        decreases block_start,
    {
        assert(lines[block_start - 1] == source_lines@[block_start - 1]@);
        if !is_markdown_table_line(source_lines[block_start - 1].as_str()) {
            break;
        }
        block_start = block_start - 1;
    }
    assert(lines[block_start as int] == source_lines@[block_start as int]@);
    if block_start + 1 >= source_lines.len() {
        return false;
    }
    assert(lines[block_start + 1] == source_lines@[block_start + 1]@);
    let header = text::to_chars(source_lines[block_start].as_str());
    text::contains_str(&text::lower_chars(&header), "license") && is_markdown_table_separator_line(
        source_lines[block_start + 1].as_str(),
    ) && line_number > block_start + 2
}

fn stands_alone(s: &[char], word: &[char], at: usize) -> (r: bool)
    requires
        at <= s@.len(),
    ensures
        r == stands_alone_at(s@, word@, at as int),
{
    if !text::stands_at(s, word, at) {
        return false;
    }
    let n: usize = s.len();
    let end: usize = at + word.len();
    (at == 0 || !text::ascii_alnum(s[at - 1])) && (end == n || !text::ascii_alnum(s[end]))
}

fn has_standalone_no(s: &[char]) -> (r: bool)
    ensures
        r == standalone_no(s@),
{
    let word = text::to_chars("no");
    let mut i: usize = 0;
    while i < s.len()
        invariant
            word@ == "no"@,
            i <= s@.len(),
            forall|j: int| 0 <= j < i ==> !stands_alone_at(s@, word@, j),
        decreases s@.len() - i,
    {
        if stands_alone(s, &word, i) {
            return true;
        }
        i = i + 1;
    }
    proof {
        reveal_strlit("no");
        assert(forall|j: int| !stands_alone_at(s@, word@, j));
    }
    false
}

/// Whether the word "no" stands in the text, not merely as part of another word.
pub fn line_has_standalone_no(lower: &str) -> (r: bool)
    ensures
        r == standalone_no(lower@),
{
    let chars = text::to_chars(lower);
    has_standalone_no(&chars)
}

fn has_upper(s: &[char]) -> (r: bool)
    ensures
        r == exists|i: int| 0 <= i < s@.len() && text::is_ascii_upper(#[trigger] s@[i]),
{
    let mut i: usize = 0;
    while i < s.len()
        invariant
            i <= s@.len(),
            forall|j: int| 0 <= j < i ==> !text::is_ascii_upper(#[trigger] s@[j]),
        decreases s@.len() - i,
    {
        if 'A' <= s[i] && s[i] <= 'Z' {
            assert(text::is_ascii_upper(s@[i as int]));
            return true;
        }
        i = i + 1;
    }
    false
}

/// Whether a line negates a list of license shorthands.
pub fn line_has_negated_license_shorthand_list(line: &str) -> (r: bool)
    ensures
        r == negated_shorthand_list(line@),
{
    let chars = text::to_chars(line);
    has_standalone_no(&text::lower_chars(&chars)) && text::contains_char(&chars, '/') && has_upper(
        &chars,
    )
}

/// Whether a lower-case line says that something goes without a license of its own.
pub fn line_has_possessive_without_license_phrase(lower: &str) -> (r: bool)
    ensures
        r == possessive_without_license(lower@),
{
    let chars = text::to_chars(lower);
    (text::contains_str(&chars, "without its ") && text::contains_str(&chars, " license")) || (
    text::contains_str(&chars, "without their ") && text::contains_str(&chars, " license"))
}

/// Whether a line mentions a license to negate it or to compare with it.
pub fn is_negative_or_comparative_license_mention_line(line: &str) -> (r: bool)
    ensures
        r == negative_or_comparative(line@),
{
    let chars = text::to_chars(line);
    let lowered = text::lower_chars(&chars);
    (text::contains_str(&lowered, "no ") && text::contains_str(&lowered, "restriction"))
        || line_has_possessive_without_license_phrase(text::to_text(&lowered).as_str()) || (
    text::contains_str(&lowered, "unlike ") && text::contains_char(&chars, '(')
        && text::contains_char(&chars, ')')) || text::contains_str(
        &lowered,
        "-licensed alternative",
    ) || text::contains_str(&lowered, "-licensed alternatives")
        || line_has_negated_license_shorthand_list(line)
}

/// Whether a match covers at most three tokens.
pub fn is_short_reference_like_public_match(detection_match: &Match) -> (r: bool)
    ensures
        r == short_reference(detection_match@),
{
    match detection_match.matched_length {
        Some(length) => length <= 3,
        None => false,
    }
}

/// Whether a match refers to a license that is not known.
pub fn is_unknown_reference_like_public_match(detection_match: &Match) -> (r: bool)
    ensures
        r == unknown_reference(detection_match@),
{
    let rule = text::to_chars(detection_match.rule_identifier.as_str());
    text::same_str(detection_match.license_expression.as_str(), "unknown-license-reference")
        || text::same_str(
        detection_match.license_expression_spdx.as_str(),
        "LicenseRef-scancode-unknown-license-reference",
    ) || (rule.len() > 0 && text::contains_str(&text::lower_chars(&rule), "unknown"))
}

/// Whether a match says nothing about the license of the file, by the lines that it
/// stands on.
pub fn should_prune_contextual_short_reference_match(
    detection_match: &Match,
    source_lines: &Vec<String>,
) -> (r: bool)
    ensures
        r == pruned_by_context(detection_match@, text::texts(source_lines@)),
{
    let ghost lines = text::texts(source_lines@);
    if !(is_short_reference_like_public_match(detection_match)
        || is_unknown_reference_like_public_match(detection_match)) {
        return false;
    }
    let start_line: usize = detection_match.start_line.get();
    let last_line: usize = detection_match.end_line.get();
    let end_line: usize = if last_line <= source_lines.len() {
        last_line
    } else {
        source_lines.len()
    };
    if start_line > end_line {
        assert(forall|n: int|
            start_line <= n <= last_line ==> !(#[trigger] prunes_at(n, lines)));
        return false;
    }
    let mut number: usize = start_line;
    while number <= end_line
        invariant
            lines == text::texts(source_lines@),
            1 <= start_line <= number,
            end_line <= source_lines@.len(),
            end_line <= last_line,
            end_line == last_line || end_line == source_lines@.len(),
            start_line == detection_match@.start_line.number(),
            last_line == detection_match@.end_line.number(),
            short_reference(detection_match@) || unknown_reference(detection_match@),
            number <= end_line + 1,
            forall|n: int| start_line <= n < number ==> !(#[trigger] prunes_at(n, lines)),
        decreases end_line + 1 - number,
    {
        let line = source_lines[number - 1].as_str();
        assert(lines[number - 1] == line@);
        if text::text_bytes(line) <= MAX_CONTEXTUAL_PRUNE_LINE_LEN && (
        is_markdown_license_table_row(number, source_lines)
            || is_negative_or_comparative_license_mention_line(line)) {
            assert(prunes_at(number as int, lines));
            return true;
        }
        assert(!prunes_at(number as int, lines));
        if number == end_line {
            assert(forall|n: int|
                start_line <= n <= last_line ==> !(#[trigger] prunes_at(n, lines)));
            return false;
        }
        number = number + 1;
    }
    false
}

/// The matches that the context leaves.
fn keep_matches(matches: &Vec<Match>, source_lines: &Vec<String>) -> (kept: Vec<Match>)
    ensures
        models::match_views(kept@) == kept_matches(
            models::match_views(matches@),
            text::texts(source_lines@),
        ),
{
    let ghost lines = text::texts(source_lines@);
    let ghost keep = |m: models::MatchView| !pruned_by_context(m, lines);
    let ghost all = models::match_views(matches@);
    let mut kept: Vec<Match> = Vec::new();
    let mut i: usize = 0;
    proof {
        lists::lemma_filter_empty(keep);
        assert(all.take(0) == Seq::<models::MatchView>::empty());
        assert(models::match_views(kept@) == all.take(0).filter(keep));
    }
    while i < matches.len()
        invariant
            lines == text::texts(source_lines@),
            keep == (|m: models::MatchView| !pruned_by_context(m, lines)),
            all == models::match_views(matches@),
            i <= matches@.len(),
            models::match_views(kept@) == all.take(i as int).filter(keep),
        decreases matches@.len() - i,
    {
        let ghost before = models::match_views(kept@);
        proof {
            assert(all[i as int] == matches@[i as int]@);
            lists::lemma_filter_take(all, keep, i as int);
        }
        if !should_prune_contextual_short_reference_match(&matches[i], source_lines) {
            kept.push(matches[i].clone());
            assert(models::match_views(kept@) == before.push(all[i as int]));
        }
        i = i + 1;
    }
    assert(all.take(i as int) == all);
    kept
}

/// The expressions of the matches.
fn collect_expressions(matches: &Vec<Match>) -> (r: Vec<String>)
    ensures
        text::texts(r@) == expressions_of(models::match_views(matches@)),
{
    let mut r: Vec<String> = Vec::new();
    let mut i: usize = 0;
    while i < matches.len()
        invariant
            i <= matches@.len(),
            r@.len() == i,
            forall|j: int| 0 <= j < i ==> (#[trigger] r@[j])@ == matches@[j]@.license_expression,
        decreases matches@.len() - i,
    {
        r.push(matches[i].license_expression.clone());
        i = i + 1;
    }
    assert(text::texts(r@) == expressions_of(models::match_views(matches@)));
    r
}

/// The SPDX expressions of the matches, without those that are empty.
fn collect_spdx_expressions(matches: &Vec<Match>) -> (r: Vec<String>)
    ensures
        text::texts(r@) == spdx_expressions_of(models::match_views(matches@)),
{
    let ghost keep = |s: Seq<char>| s.len() > 0;
    let ghost all = models::match_views(matches@).map_values(
        |m: models::MatchView| m.license_expression_spdx,
    );
    let mut r: Vec<String> = Vec::new();
    let mut i: usize = 0;
    proof {
        lists::lemma_filter_empty(keep);
        assert(all.take(0) == Seq::<Seq<char>>::empty());
        assert(text::texts(r@) == all.take(0).filter(keep));
    }
    while i < matches.len()
        invariant
            keep == (|s: Seq<char>| s.len() > 0),
            all == models::match_views(matches@).map_values(
                |m: models::MatchView| m.license_expression_spdx,
            ),
            i <= matches@.len(),
            text::texts(r@) == all.take(i as int).filter(keep),
        decreases matches@.len() - i,
    {
        let ghost before = text::texts(r@);
        proof {
            assert(all[i as int] == matches@[i as int]@.license_expression_spdx);
            lists::lemma_filter_take(all, keep, i as int);
        }
        if !matches[i].license_expression_spdx.as_str().is_empty() {
            r.push(matches[i].license_expression_spdx.clone());
            assert(text::texts(r@) == before.push(all[i as int]));
        }
        i = i + 1;
    }
    assert(all.take(i as int) == all);
    r
}

/// Names the file that the matches of the detection come from, where they name
/// none.
pub fn enrich_license_detection_provenance(detection: &mut PublicLicenseDetection, posix: &str)
    ensures
        final(detection)@ == (models::DetectionView {
            matches: with_sources(old(detection)@.matches, posix@),
            ..old(detection)@
        }),
{
    let ghost start = models::match_views(detection.matches@);
    let mut i: usize = 0;
    while i < detection.matches.len()
        invariant
            i <= detection.matches@.len(),
            detection.matches@.len() == start.len(),
            forall|j: int|
                0 <= j < i ==> (#[trigger] detection.matches@[j])@ == with_source(start[j], posix@),
            forall|j: int|
                i <= j < start.len() ==> (#[trigger] detection.matches@[j])@ == start[j],
            detection.license_expression@ == old(detection)@.license_expression,
            detection.license_expression_spdx@ == old(detection)@.license_expression_spdx,
            text::texts(detection.detection_log@) == old(detection)@.detection_log,
            detection.identifier@ == old(detection)@.identifier,
        decreases start.len() - i,
    {
        if detection.matches[i].from_file.is_none() {
            detection.matches[i].from_file = Some(posix.to_owned());
        }
        i = i + 1;
    }
    assert(models::match_views(detection.matches@) == with_sources(start, posix@));
}

/// Whether the log holds the entry.
pub fn has_entry(log: &Vec<String>, entry: &str) -> (r: bool)
    ensures
        r == text::texts(log@).contains(entry@),
{
    let mut i: usize = 0;
    while i < log.len()
        invariant
            i <= log@.len(),
            forall|j: int| 0 <= j < i ==> log@[j]@ != entry@,
        decreases log@.len() - i,
    {
        if text::same_str(log[i].as_str(), entry) {
            assert(text::texts(log@)[i as int] == entry@);
            return true;
        }
        i = i + 1;
    }
    proof {
        if text::texts(log@).contains(entry@) {
            let j = choose|j: int| 0 <= j < log@.len() && text::texts(log@)[j] == entry@;
            assert(log@[j]@ == entry@);
        }
    }
    false
}

/// Brings a detection in line with the matches that its context left.
pub fn refresh_public_detection_after_context_prune(
    detection: &mut PublicLicenseDetection,
    path: &ScanPath,
    include_diagnostics: bool,
)
    requires
        old(detection)@.matches.len() > 0,
    ensures
        final(detection)@ == refreshed(old(detection)@, path@.posix, include_diagnostics),
{
    let ghost start = detection@;
    assert(start.matches[0] == detection.matches@[0]@);
    detection.license_expression =
    match spdx::combine_license_expressions_preserving_structure(
        &collect_expressions(&detection.matches),
    ) {
        Some(combined) => combined,
        None => detection.matches[0].license_expression.clone(),
    };
    detection.license_expression_spdx =
    match spdx::combine_license_expressions_preserving_structure_strict(
        &collect_spdx_expressions(&detection.matches),
    ) {
        Some(combined) => combined,
        None => String::new(),
    };
    detection.identifier = String::new();
    if include_diagnostics && !has_entry(
        &detection.detection_log,
        "contextual-short-license-mention-pruned",
    ) {
        let ghost before = text::texts(detection.detection_log@);
        detection.detection_log.push("contextual-short-license-mention-pruned".to_owned());
        assert(text::texts(detection.detection_log@) == before.push(
            "contextual-short-license-mention-pruned"@,
        ));
    }
    enrich_license_detection_provenance(detection, path.posix.as_str());
}

/// Prunes from the detections and from the clues the matches that their context
/// shows to be no statement about the file. A detection that loses all its
/// matches goes; one that loses some is refreshed.
pub fn prune_contextual_short_reference_matches(
    path: &ScanPath,
    text_content: &str,
    include_diagnostics: bool,
    detections: &mut Vec<PublicLicenseDetection>,
    clues: &mut Vec<Match>,
)
    ensures
        models::match_views(final(clues)@) == (if text_content@.len() == 0 {
            models::match_views(old(clues)@)
        } else {
            kept_matches(models::match_views(old(clues)@), text::lines_of(text_content@))
        }),
        models::detection_views(final(detections)@) == (if text_content@.len() == 0 {
            models::detection_views(old(detections)@)
        } else {
            context_pruned_all(
                models::detection_views(old(detections)@),
                text::lines_of(text_content@),
                path@.posix,
                include_diagnostics,
            )
        }),
{
    let source_lines = text::text_lines(text_content);
    proof {
        text::lemma_lines_empty(text_content@);
    }
    if source_lines.len() == 0 {
        assert(text::texts(source_lines@).len() == 0);
        return;
    }
    assert(text::texts(source_lines@).len() > 0);
    let kept_clues = keep_matches(clues, &source_lines);
    *clues = kept_clues;

    let ghost lines = text::texts(source_lines@);
    let ghost all = models::detection_views(detections@);
    let mut kept: Vec<PublicLicenseDetection> = Vec::new();
    let mut i: usize = 0;
    assert(models::detection_views(kept@) == context_pruned_all(
        all.take(0),
        lines,
        path@.posix,
        include_diagnostics,
    ));
    while i < detections.len()
        invariant
            lines == text::texts(source_lines@),
            all == models::detection_views(detections@),
            i <= detections@.len(),
            models::detection_views(kept@) == context_pruned_all(
                all.take(i as int),
                lines,
                path@.posix,
                include_diagnostics,
            ),
        decreases detections@.len() - i,
    {
        let ghost before = models::detection_views(kept@);
        let mut detection = detections[i].clone();
        let original_match_count: usize = detection.matches.len();
        let matches = keep_matches(&detection.matches, &source_lines);
        proof {
            assert(all[i as int] == detections@[i as int]@);
            assert(all.take(i + 1).drop_last() == all.take(i as int));
            assert(all.take(i + 1).last() == all[i as int]);
            assert(models::match_views(matches@).len() == matches@.len());
            assert(all[i as int].matches.len() == original_match_count);
        }
        if matches.len() > 0 {
            if matches.len() != original_match_count {
                detection.matches = matches;
                refresh_public_detection_after_context_prune(
                    &mut detection,
                    path,
                    include_diagnostics,
                );
            }
            let ghost added = detection@;
            kept.push(detection);
            assert(models::detection_views(kept@) == before.push(added));
        }
        i = i + 1;
    }
    assert(all.take(i as int) == all);
    *detections = kept;
}

/// Only short references and references to an unknown license are pruned.
pub proof fn law_prunes_only_short_or_unknown(m: models::MatchView, lines: Seq<Seq<char>>)
    requires
        pruned_by_context(m, lines),
    ensures
        short_reference(m) || unknown_reference(m),
{
}

/// A match is kept whose lines are all too long to be prose, whatever stands on
/// them.
pub proof fn law_long_lines_keep_match(m: models::MatchView, lines: Seq<Seq<char>>)
    requires
        forall|n: int|
            m.start_line.number() <= n <= m.end_line.number() && 1 <= n <= lines.len()
                ==> text::byte_len(#[trigger] lines[n - 1]) > 1_000,
    ensures
        !pruned_by_context(m, lines),
{
    assert forall|n: int| m.start_line.number() <= n <= m.end_line.number() implies !(
    #[trigger] prunes_at(n, lines)) by {
        if 1 <= n <= lines.len() {
            assert(text::byte_len(lines[n - 1]) > 1_000);
        }
    }
}

/// The matches that pruning leaves are not pruned again.
pub proof fn law_kept_matches_stay(matches: Seq<models::MatchView>, lines: Seq<Seq<char>>)
    ensures
        kept_matches(kept_matches(matches, lines), lines) == kept_matches(matches, lines),
{
    let keep = |m: models::MatchView| !pruned_by_context(m, lines);
    lists::lemma_filter_holds(matches, keep);
    lists::lemma_filter_all(matches.filter(keep), keep);
}

/// Naming the file of a match does not change whether it is pruned.
proof fn lemma_with_sources_kept(
    matches: Seq<models::MatchView>,
    lines: Seq<Seq<char>>,
    posix: Seq<char>,
)
    requires
        kept_matches(matches, lines) == matches,
    ensures
        kept_matches(with_sources(matches, posix), lines) == with_sources(matches, posix),
{
    let keep = |m: models::MatchView| !pruned_by_context(m, lines);
    lists::lemma_filter_holds(matches, keep);
    let named = with_sources(matches, posix);
    assert forall|i: int| 0 <= i < named.len() implies keep(#[trigger] named[i]) by {
        assert(keep(matches.filter(keep)[i]));
        assert(named[i] == with_source(matches[i], posix));
        assert(short_reference(named[i]) == short_reference(matches[i]));
        assert(unknown_reference(named[i]) == unknown_reference(matches[i]));
    }
    lists::lemma_filter_all(named, keep);
}

/// What pruning leaves of a detection is left as it is by pruning again.
pub proof fn law_context_pruned_stays(
    d: models::DetectionView,
    lines: Seq<Seq<char>>,
    posix: Seq<char>,
    include_diagnostics: bool,
)
    ensures
        context_pruned(d, lines, posix, include_diagnostics) is Some ==> context_pruned(
            context_pruned(d, lines, posix, include_diagnostics)->0,
            lines,
            posix,
            include_diagnostics,
        ) == context_pruned(d, lines, posix, include_diagnostics),
{
    let kept = kept_matches(d.matches, lines);
    law_kept_matches_stay(d.matches, lines);
    if kept.len() > 0 && kept.len() != d.matches.len() {
        lemma_with_sources_kept(kept, lines, posix);
    }
}

/// Pruning the detections of a text a second time changes nothing.
pub proof fn law_context_pruned_all_idempotent(
    ds: Seq<models::DetectionView>,
    lines: Seq<Seq<char>>,
    posix: Seq<char>,
    include_diagnostics: bool,
)
    ensures
        context_pruned_all(
            context_pruned_all(ds, lines, posix, include_diagnostics),
            lines,
            posix,
            include_diagnostics,
        ) == context_pruned_all(ds, lines, posix, include_diagnostics),
    decreases ds.len(),
{
    if ds.len() > 0 {
        law_context_pruned_all_idempotent(ds.drop_last(), lines, posix, include_diagnostics);
        law_context_pruned_stays(ds.last(), lines, posix, include_diagnostics);
        let before = context_pruned_all(ds.drop_last(), lines, posix, include_diagnostics);
        match context_pruned(ds.last(), lines, posix, include_diagnostics) {
            Some(d) => {
                assert(before.push(d).drop_last() == before);
            },
            None => {},
        }
    }
}

/// A detection never gains a match by pruning, and none is left without one.
pub proof fn law_context_pruned_has_matches(
    d: models::DetectionView,
    lines: Seq<Seq<char>>,
    posix: Seq<char>,
    include_diagnostics: bool,
)
    ensures
        context_pruned(d, lines, posix, include_diagnostics) is Some ==> {
            let left = context_pruned(d, lines, posix, include_diagnostics)->0;
            0 < left.matches.len() <= d.matches.len()
        },
{
    lists::lemma_filter_holds(d.matches, |m: models::MatchView| !pruned_by_context(m, lines));
}

/// What is read of a line for a table row is a part of it: before it stand white
/// space and the mark of a comment, behind it white space.
#[verifier::spinoff_prover]
proof fn lemma_table_text_is_part(line: Seq<char>) -> (from: int)
    ensures
        0 <= from,
        from + table_text(line).len() <= line.len(),
        table_text(line) == line.subrange(from, from + table_text(line).len()),
        forall|i: int|
            0 <= i < from ==> text::is_white_space(#[trigger] line[i]) || line[i] == '/' || line[i]
                == '!' || line[i] == '*',
        text::is_blank(line.skip(from + table_text(line).len())),
{
    reveal_strlit("//!");
    reveal_strlit("///");
    reveal_strlit("//");
    reveal_strlit("*");
    let trimmed = text::trim_start_of(line);
    text::lemma_trim_start_cuts(line);
    let lead = line.len() - trimmed.len();
    let mark: int = if text::begins_with(trimmed, "//!"@) || text::begins_with(trimmed, "///"@) {
        3
    } else if text::begins_with(trimmed, "//"@) {
        2
    } else if text::begins_with(trimmed, "*"@) {
        1
    } else {
        0
    };
    let rest = trimmed.skip(mark);
    assert(mark == 0 ==> rest == trimmed);
    let behind = if mark == 0 {
        trimmed
    } else {
        text::trim_start_of(rest)
    };
    assert(without_comment_prefix(line) == behind);
    text::lemma_trim_start_cuts(rest);
    let gap = rest.len() - behind.len();
    if mark == 0 {
        assert(gap == 0);
    }
    let (a, b) = text::law_trim_takes_white_space_alone(behind);
    let row = table_text(line);
    let from = lead + mark + gap + a.len();
    assert(line.take(lead) + trimmed == line);
    assert(row == line.subrange(from, from + row.len())) by {
        assert forall|k: int| 0 <= k < row.len() implies row[k] == line.subrange(
            from,
            from + row.len(),
        )[k] by {
            assert(behind[a.len() + k] == row[k]);
            assert(behind[a.len() + k] == rest[gap + a.len() + k]);
            assert(rest[gap + a.len() + k] == trimmed[mark + gap + a.len() + k]);
            assert(trimmed[mark + gap + a.len() + k] == line[from + k]);
        }
        assert(row =~= line.subrange(from, from + row.len()));
    }
    assert forall|i: int| 0 <= i < from implies text::is_white_space(#[trigger] line[i]) || line[i]
        == '/' || line[i] == '!' || line[i] == '*' by {
        if i < lead {
            assert(line.take(lead)[i] == line[i]);
        } else if i < lead + mark {
            assert(trimmed[i - lead] == line[i]);
            assert(trimmed.take(mark)[i - lead] == trimmed[i - lead]);
            if mark == 3 {
                if text::begins_with(trimmed, "//!"@) {
                    assert(trimmed.take(3) == "//!"@);
                    assert("//!"@[i - lead] == line[i]);
                } else {
                    assert(trimmed.take(3) == "///"@);
                    assert("///"@[i - lead] == line[i]);
                }
            } else if mark == 2 {
                assert(trimmed.take(2) == "//"@);
                assert("//"@[i - lead] == line[i]);
            } else {
                assert(trimmed.take(1) == "*"@);
                assert("*"@[i - lead] == line[i]);
            }
        } else if i < lead + mark + gap {
            assert(rest.take(gap)[i - lead - mark] == line[i]);
        } else {
            assert(a[i - lead - mark - gap] == behind[i - lead - mark - gap]);
            assert(behind[i - lead - mark - gap] == rest[i - lead - mark]);
            assert(rest[i - lead - mark] == trimmed[i - lead]);
            assert(a[i - lead - mark - gap] == line[i]);
        }
    }
    let tail = line.skip(from + row.len());
    assert forall|i: int| 0 <= i < tail.len() implies text::is_white_space(#[trigger] tail[i]) by {
        assert(b[i] == behind[a.len() + row.len() + i]);
        assert(behind[a.len() + row.len() + i] == rest[gap + a.len() + row.len() + i]);
        assert(rest[gap + a.len() + row.len() + i] == trimmed[mark + gap + a.len() + row.len() + i]);
        assert(b[i] == tail[i]);
    }
    from
}

/// A table line has two bars: before the first stand only white space and the mark
/// of a comment, behind the last only white space.
pub proof fn law_table_line_has_bars(line: Seq<char>)
    requires
        table_line(line),
    ensures
        exists|i: int, j: int|
            {
                &&& 0 <= i < j < line.len()
                &&& #[trigger] line[i] == '|'
                &&& #[trigger] line[j] == '|'
                &&& text::is_blank(line.skip(j + 1))
                &&& forall|k: int|
                    0 <= k < i ==> text::is_white_space(#[trigger] line[k]) || line[k] == '/'
                        || line[k] == '!' || line[k] == '*'
            },
{
    let from = lemma_table_text_is_part(line);
    let row = table_text(line);
    let last = from + row.len() - 1;
    assert(line[from] == row[0]);
    assert(line[last] == row[row.len() - 1]);
    assert(text::is_blank(line.skip(last + 1)));
}

/// A line that begins and ends with a bar is a table line, also behind the mark of
/// a comment and white space.
#[verifier::spinoff_prover]
pub proof fn law_bars_make_a_table_line(row: Seq<char>)
    requires
        row.len() >= 2,
        row[0] == '|',
        row.last() == '|',
    ensures
        table_line(row),
        table_line("//! "@ + row),
        table_line("/// "@ + row),
        table_line("// "@ + row),
        table_line("* "@ + row),
{
    reveal_strlit("//!");
    reveal_strlit("///");
    reveal_strlit("//");
    reveal_strlit("*");
    reveal_strlit("//! ");
    reveal_strlit("/// ");
    reveal_strlit("// ");
    reveal_strlit("* ");
    text::lemma_trim(row);
    assert(row.take(1)[0] == '|' && row.take(2)[0] == '|');
    assert(!text::begins_with(row, "//!"@)) by {
        if text::begins_with(row, "//!"@) {
            assert(row.take(3)[0] == '/');
        }
    }
    assert(!text::begins_with(row, "///"@)) by {
        if text::begins_with(row, "///"@) {
            assert(row.take(3)[0] == '/');
        }
    }
    assert(!text::begins_with(row, "//"@)) by {
        if text::begins_with(row, "//"@) {
            assert(row.take(2)[0] == '/');
        }
    }
    assert(!text::begins_with(row, "*"@)) by {
        if text::begins_with(row, "*"@) {
            assert(row.take(1)[0] == '*');
        }
    }
    assert(table_text(row) == row);
    let bang = "//! "@ + row;
    assert(bang.take(3) == "//!"@);
    assert(bang.skip(4) == row);
    lemma_marked_row(bang, row, 3);
    let three = "/// "@ + row;
    assert(three.take(3) == "///"@);
    assert(!text::begins_with(three, "//!"@)) by {
        if text::begins_with(three, "//!"@) {
            assert(three.take(3)[2] == '!');
        }
    }
    assert(three.skip(4) == row);
    lemma_marked_row(three, row, 3);
    let two = "// "@ + row;
    assert(two.take(2) == "//"@);
    assert(!text::begins_with(two, "//!"@)) by {
        if text::begins_with(two, "//!"@) {
            assert(two.take(3)[2] == '!');
        }
    }
    assert(!text::begins_with(two, "///"@)) by {
        if text::begins_with(two, "///"@) {
            assert(two.take(3)[2] == '/');
        }
    }
    assert(two.skip(3) == row);
    lemma_marked_row(two, row, 2);
    let star = "* "@ + row;
    assert(star.take(1) == "*"@);
    assert(!text::begins_with(star, "//!"@)) by {
        if text::begins_with(star, "//!"@) {
            assert(star.take(3)[0] == '/');
        }
    }
    assert(!text::begins_with(star, "///"@)) by {
        if text::begins_with(star, "///"@) {
            assert(star.take(3)[0] == '/');
        }
    }
    assert(!text::begins_with(star, "//"@)) by {
        if text::begins_with(star, "//"@) {
            assert(star.take(2)[0] == '/');
        }
    }
    assert(star.skip(2) == row);
    lemma_marked_row(star, row, 1);
}

proof fn lemma_marked_row(line: Seq<char>, row: Seq<char>, mark: int)
    requires
        row.len() >= 2,
        row[0] == '|',
        row.last() == '|',
        0 < mark,
        line.len() == mark + 1 + row.len(),
        line[mark] == ' ',
        line.skip(mark + 1) == row,
        !text::is_white_space(line[0]),
    ensures
        text::trim_start_of(line) == line,
        text::trim_of(text::trim_start_of(line.skip(mark))) == row,
{
    let rest = line.skip(mark);
    assert(rest[0] == ' ');
    assert(rest.skip(1) == row);
    assert(text::trim_start_of(row) == row);
    text::lemma_trim(row);
}

proof fn lemma_table_start(lines: Seq<Seq<char>>, i: int)
    requires
        0 <= i,
    ensures
        0 <= table_start(lines, i) <= i,
        forall|k: int| table_start(lines, i) <= k < i ==> table_line(#[trigger] lines[k]),
        table_start(lines, i) == 0 || !table_line(lines[table_start(lines, i) - 1]),
    decreases i,
{
    if i > 0 && table_line(lines[i - 1]) {
        lemma_table_start(lines, i - 1);
    }
}

/// The head of the table that a row stands in: from there to the row there are
/// only table lines, and no table line is before it.
pub open spec fn heads_table(lines: Seq<Seq<char>>, head: int, number: int) -> bool {
    &&& 0 <= head < number <= lines.len()
    &&& forall|k: int| head <= k < number ==> table_line(#[trigger] lines[k])
    &&& head == 0 || !table_line(lines[head - 1])
}

/// A line is a row of a license table if and only if the table that it stands in
/// has a header that speaks of licenses, a separator behind it, and the line behind
/// both.
pub proof fn law_license_table_rows(number: int, lines: Seq<Seq<char>>)
    ensures
        license_table_row(number, lines) == exists|head: int|
            {
                &&& #[trigger] heads_table(lines, head, number)
                &&& head + 2 < number
                &&& text::has_text(text::lower(lines[head]), "license"@)
                &&& table_separator_line(lines[head + 1])
            },
{
    if 1 <= number <= lines.len() {
        let start = table_start(lines, number - 1);
        lemma_table_start(lines, number - 1);
        if license_table_row(number, lines) {
            assert(heads_table(lines, start, number));
        }
        if exists|head: int|
            {
                &&& #[trigger] heads_table(lines, head, number)
                &&& head + 2 < number
                &&& text::has_text(text::lower(lines[head]), "license"@)
                &&& table_separator_line(lines[head + 1])
            } {
            let head = choose|head: int|
                {
                    &&& #[trigger] heads_table(lines, head, number)
                    &&& head + 2 < number
                    &&& text::has_text(text::lower(lines[head]), "license"@)
                    &&& table_separator_line(lines[head + 1])
                };
            assert(table_line(lines[number - 1]));
            if head < start {
                assert(table_line(lines[start - 1]));
            } else if head > start {
                assert(table_line(lines[head - 1]));
            }
            assert(head == start);
        }
    }
}

/// A separator of a table has nothing but bars, dashes, colons, spaces and tabs
/// between its bars.
pub proof fn law_separator_has_no_words(line: Seq<char>, i: int)
    requires
        table_separator_line(line),
        0 <= i < line.len(),
    ensures
        line[i] == '|' || line[i] == '-' || line[i] == ':' || line[i] == '/' || line[i] == '!'
            || line[i] == '*' || text::is_white_space(line[i]),
{
    let from = lemma_table_text_is_part(line);
    let row = table_text(line);
    let separates = |c: char| is_separator_char(c);
    if from <= i < from + row.len() {
        assert(row[i - from] == line[i]);
        assert(separates(row[i - from]));
    } else if i >= from + row.len() {
        assert(line.skip(from + row.len())[i - from - row.len()] == line[i]);
    }
}

/// The word "no" stands in a line at an index, in any case of letters and not as a
/// part of another word.
pub open spec fn says_no_at(line: Seq<char>, i: int) -> bool {
    &&& 0 <= i
    &&& i + 2 <= line.len()
    &&& line[i] == 'n' || line[i] == 'N'
    &&& line[i + 1] == 'o' || line[i + 1] == 'O'
    &&& i == 0 || !text::is_ascii_alnum(line[i - 1])
    &&& i + 2 == line.len() || !text::is_ascii_alnum(line[i + 2])
}

/// The word "no" is found if and only if it stands in the line.
pub proof fn law_standalone_no(line: Seq<char>)
    ensures
        standalone_no(text::lower(line)) == exists|i: int| says_no_at(line, i),
{
    reveal_strlit("no");
    let low = text::lower(line);
    let word = "no"@;
    assert forall|i: int| stands_alone_at(low, word, i) == says_no_at(line, i) by {
        if 0 <= i && i + 2 <= line.len() {
            let part = low.subrange(i, i + 2);
            assert(part[0] == text::ascii_lower(line[i]));
            assert(part[1] == text::ascii_lower(line[i + 1]));
            if stands_alone_at(low, word, i) {
                assert(part[0] == 'n' && part[1] == 'o');
            }
            if says_no_at(line, i) {
                assert(part =~= word);
            }
        }
    }
    if standalone_no(low) {
        let i = choose|i: int| stands_alone_at(low, word, i);
        assert(says_no_at(line, i));
    }
    if exists|i: int| says_no_at(line, i) {
        let i = choose|i: int| says_no_at(line, i);
        assert(stands_alone_at(low, word, i));
    }
}

/// Words of a line that speak against its license being that of the file.
pub open spec fn speaks_against(line: Seq<char>) -> bool {
    let low = text::lower(line);
    ||| text::has_text(low, "no "@) && text::has_text(low, "restriction"@)
    ||| (text::has_text(low, "without its "@) || text::has_text(low, "without their "@))
        && text::has_text(low, " license"@)
    ||| text::has_text(low, "unlike "@) && line.contains('(') && line.contains(')')
    ||| text::has_text(low, "-licensed alternative"@)
    ||| line.contains('/') && (exists|i: int| says_no_at(line, i)) && (exists|i: int|
        0 <= i < line.len() && 'A' <= #[trigger] line[i] <= 'Z')
}

proof fn lemma_speaks_against(line: Seq<char>)
    ensures
        negative_or_comparative(line) == speaks_against(line),
{
    law_standalone_no(line);
    let low = text::lower(line);
    if text::has_text(low, "-licensed alternatives"@) {
        reveal_strlit("-licensed alternatives");
        reveal_strlit("-licensed alternative");
        let i = choose|i: int| text::occurs_at(low, "-licensed alternatives"@, i);
        let n = "-licensed alternative"@.len() as int;
        let longer = low.subrange(i, i + n + 1);
        assert(longer == "-licensed alternatives"@);
        assert("-licensed alternatives"@.take(n) =~= "-licensed alternative"@);
        assert(low.subrange(i, i + n) =~= longer.take(n));
        assert(text::occurs_at(low, "-licensed alternative"@, i));
    }
    if exists|i: int| 0 <= i < line.len() && text::is_ascii_upper(#[trigger] line[i]) {
        let i = choose|i: int| 0 <= i < line.len() && text::is_ascii_upper(#[trigger] line[i]);
        assert('A' <= line[i] <= 'Z');
    }
    if exists|i: int| 0 <= i < line.len() && 'A' <= #[trigger] line[i] <= 'Z' {
        let i = choose|i: int| 0 <= i < line.len() && 'A' <= #[trigger] line[i] <= 'Z';
        assert(text::is_ascii_upper(line[i]));
    }
}

/// A match of more than three words that names a known license by a known rule is
/// never pruned by its context.
pub proof fn law_long_known_references_stay(m: models::MatchView, lines: Seq<Seq<char>>)
    requires
        m.matched_length is None || m.matched_length->0 > 3,
        m.license_expression != "unknown-license-reference"@,
        m.license_expression_spdx != "LicenseRef-scancode-unknown-license-reference"@,
        !text::has_text(text::lower(m.rule_identifier), "unknown"@),
    ensures
        !pruned_by_context(m, lines),
{
}

/// A match is never pruned by lines that have neither a bar, nor a slash, nor an
/// open parenthesis, and in which nothing is said of restrictions, of what goes
/// without its license, or of alternatives under a license.
pub proof fn law_plain_lines_keep_match(m: models::MatchView, lines: Seq<Seq<char>>)
    requires
        forall|n: int|
            m.start_line.number() <= n + 1 <= m.end_line.number() && 0 <= n < lines.len() ==> {
                let line = #[trigger] lines[n];
                let low = text::lower(line);
                &&& !line.contains('|')
                &&& !line.contains('/')
                &&& !line.contains('(')
                &&& !text::has_text(low, "restriction"@)
                &&& !text::has_text(low, "without its "@)
                &&& !text::has_text(low, "without their "@)
                &&& !text::has_text(low, "-licensed alternative"@)
            },
    ensures
        !pruned_by_context(m, lines),
{
    assert forall|n: int| m.start_line.number() <= n <= m.end_line.number() implies !(
    #[trigger] prunes_at(n, lines)) by {
        if 1 <= n <= lines.len() {
            let line = lines[n - 1];
            assert(!line.contains('|'));
            lemma_speaks_against(line);
            if table_line(line) {
                law_table_line_has_bars(line);
            }
        }
    }
}

/// A line without a slash is no negated list of licenses, nor is one without the
/// word "no" or without a capital letter.
pub proof fn law_negated_list_has_its_marks(line: Seq<char>)
    ensures
        negated_shorthand_list(line) == (line.contains('/') && (exists|i: int| says_no_at(line, i))
            && (exists|i: int| 0 <= i < line.len() && 'A' <= #[trigger] line[i] <= 'Z')),
{
    law_standalone_no(line);
    if exists|i: int| 0 <= i < line.len() && text::is_ascii_upper(#[trigger] line[i]) {
        let i = choose|i: int| 0 <= i < line.len() && text::is_ascii_upper(#[trigger] line[i]);
        assert('A' <= line[i] <= 'Z');
    }
    if exists|i: int| 0 <= i < line.len() && 'A' <= #[trigger] line[i] <= 'Z' {
        let i = choose|i: int| 0 <= i < line.len() && 'A' <= #[trigger] line[i] <= 'Z';
        assert(text::is_ascii_upper(line[i]));
    }
}

/// A match on a single line of at most 1,000 bytes that is no table row is pruned
/// if and only if it is short or unknown and the line speaks against it.
pub proof fn law_prose_decides(m: models::MatchView, lines: Seq<Seq<char>>, number: int)
    requires
        m.start_line.number() == number,
        m.end_line.number() == number,
        1 <= number <= lines.len(),
        text::byte_len(lines[number - 1]) <= 1_000,
        !license_table_row(number, lines),
    ensures
        pruned_by_context(m, lines) == ((m.matched_length is Some && m.matched_length->0 <= 3
            || m.license_expression == "unknown-license-reference"@ || m.license_expression_spdx
            == "LicenseRef-scancode-unknown-license-reference"@ || text::has_text(
            text::lower(m.rule_identifier),
            "unknown"@,
        )) && speaks_against(lines[number - 1])),
{
    lemma_speaks_against(lines[number - 1]);
    assert(prunes_at(number, lines) == negative_or_comparative(lines[number - 1]));
    if text::has_text(text::lower(m.rule_identifier), "unknown"@) {
        reveal_strlit("unknown");
        assert(m.rule_identifier.len() > 0);
    }
}

/// A short or unknown match is pruned where one of its lines is a row of a license
/// table of at most 1,000 bytes.
pub proof fn law_table_rows_prune(m: models::MatchView, lines: Seq<Seq<char>>, number: int)
    requires
        m.matched_length is Some && m.matched_length->0 <= 3,
        m.start_line.number() <= number <= m.end_line.number(),
        1 <= number <= lines.len(),
        text::byte_len(lines[number - 1]) <= 1_000,
        license_table_row(number, lines),
    ensures
        pruned_by_context(m, lines),
{
    assert(prunes_at(number, lines));
}

/// Every line of a match can prune it: a match is pruned if and only if one on
/// just one of its lines would be.
pub proof fn law_each_line_counts(
    m: models::MatchView,
    lines: Seq<Seq<char>>,
    at: spec_fn(int) -> models::MatchView,
)
    requires
        forall|n: int|
            m.start_line.number() <= n <= m.end_line.number() ==> {
                let one = #[trigger] at(n);
                &&& one.start_line.number() == n
                &&& one.end_line.number() == n
                &&& one.matched_length == m.matched_length
                &&& one.license_expression == m.license_expression
                &&& one.license_expression_spdx == m.license_expression_spdx
                &&& one.rule_identifier == m.rule_identifier
            },
    ensures
        pruned_by_context(m, lines) == exists|n: int|
            m.start_line.number() <= n <= m.end_line.number() && pruned_by_context(
                #[trigger] at(n),
                lines,
            ),
{
    if pruned_by_context(m, lines) {
        let n = choose|n: int|
            m.start_line.number() <= n <= m.end_line.number() && #[trigger] prunes_at(n, lines);
        assert(pruned_by_context(at(n), lines));
    }
    if exists|n: int|
        m.start_line.number() <= n <= m.end_line.number() && pruned_by_context(
            #[trigger] at(n),
            lines,
        ) {
        let n = choose|n: int|
            m.start_line.number() <= n <= m.end_line.number() && pruned_by_context(
                #[trigger] at(n),
                lines,
            );
        assert(prunes_at(n, lines));
    }
}

/// The matches that are left are those that the context does not prune, all of
/// them and in their order.
pub proof fn law_unpruned_matches_are_kept(
    matches: Seq<models::MatchView>,
    lines: Seq<Seq<char>>,
    m: models::MatchView,
)
    ensures
        kept_matches(matches, lines).contains(m) == (matches.contains(m) && !pruned_by_context(
            m,
            lines,
        )),
        lists::in_order(kept_matches(matches, lines), matches),
{
    let keep = |m: models::MatchView| !pruned_by_context(m, lines);
    lists::lemma_filter_holds(matches, keep);
    lists::lemma_filter_in_order(matches, keep);
    if matches.contains(m) && keep(m) {
        let i = choose|i: int| 0 <= i < matches.len() && matches[i] == m;
        lists::lemma_filter_keeps(matches, keep, i);
    }
    if kept_matches(matches, lines).contains(m) {
        let i = choose|i: int|
            0 <= i < matches.filter(keep).len() && matches.filter(keep)[i] == m;
        assert(keep(matches.filter(keep)[i]) && matches.contains(matches.filter(keep)[i]));
    }
}

/// A detection without a pruned match stays as it is. One whose matches are all
/// pruned goes. Any other keeps the matches that are not pruned, on their lines and
/// with their licenses, names what they name, and says in its log that it was
/// pruned where diagnostics are asked for.
pub proof fn law_detection_keeps_unpruned_matches(
    d: models::DetectionView,
    lines: Seq<Seq<char>>,
    posix: Seq<char>,
    include_diagnostics: bool,
    key: Seq<char>,
)
    ensures
        d.matches.len() > 0 && (forall|i: int|
            0 <= i < d.matches.len() ==> !pruned_by_context(#[trigger] d.matches[i], lines))
            ==> context_pruned(d, lines, posix, include_diagnostics) == Some(d),
        context_pruned(d, lines, posix, include_diagnostics) is None == forall|i: int|
            0 <= i < d.matches.len() ==> pruned_by_context(#[trigger] d.matches[i], lines),
        context_pruned(d, lines, posix, include_diagnostics) is Some && (exists|i: int|
            0 <= i < d.matches.len() && pruned_by_context(#[trigger] d.matches[i], lines)) ==> {
            let left = context_pruned(d, lines, posix, include_diagnostics)->0;
            let kept = kept_matches(d.matches, lines);
            &&& left.matches.len() == kept.len()
            &&& forall|i: int|
                0 <= i < kept.len() ==> {
                    let m = #[trigger] left.matches[i];
                    &&& m.license_expression == kept[i].license_expression
                    &&& m.license_expression_spdx == kept[i].license_expression_spdx
                    &&& m.start_line == kept[i].start_line
                    &&& m.end_line == kept[i].end_line
                    &&& m.rule_identifier == kept[i].rule_identifier
                    &&& m.matched_length == kept[i].matched_length
                    &&& m.score == kept[i].score
                    &&& m.matched_text == kept[i].matched_text
                    &&& m.from_file == (if kept[i].from_file is Some {
                        kept[i].from_file
                    } else {
                        Some(posix)
                    })
                }
            &&& (forall|i: int|
                0 <= i < left.matches.len() ==> expression::parsed(
                    (#[trigger] left.matches[i]).license_expression,
                ) is Some) ==> expression::expression_keys(left.license_expression).contains(key)
                == exists|i: int|
                0 <= i < left.matches.len() && expression::expression_keys(
                    (#[trigger] left.matches[i]).license_expression,
                ).contains(key)
            &&& include_diagnostics ==> left.detection_log.contains(
                "contextual-short-license-mention-pruned"@,
            )
            &&& !include_diagnostics ==> left.detection_log == d.detection_log
            &&& forall|i: int|
                0 <= i < d.detection_log.len() ==> left.detection_log.contains(
                    #[trigger] d.detection_log[i],
                )
            &&& left.identifier.len() == 0
        },
{
    let keep = |m: models::MatchView| !pruned_by_context(m, lines);
    let kept = kept_matches(d.matches, lines);
    lists::lemma_filter_holds(d.matches, keep);
    if forall|i: int|
        0 <= i < d.matches.len() ==> !pruned_by_context(#[trigger] d.matches[i], lines) {
        assert forall|i: int| 0 <= i < d.matches.len() implies keep(#[trigger] d.matches[i]) by {}
        lists::lemma_filter_all(d.matches, keep);
    } else {
        let i = choose|i: int|
            0 <= i < d.matches.len() && pruned_by_context(#[trigger] d.matches[i], lines);
        if kept.len() == d.matches.len() {
            lists::lemma_filter_in_order(d.matches, keep);
            let places = choose|places: Seq<int>| lists::stand_at(kept, d.matches, places);
            lemma_full_places(places, kept.len() as int, i);
            assert(kept[i] == d.matches[i]);
            assert(keep(kept[i]));
        }
    }
    if exists|i: int| 0 <= i < d.matches.len() && keep(#[trigger] d.matches[i]) {
        let i = choose|i: int| 0 <= i < d.matches.len() && keep(#[trigger] d.matches[i]);
        lists::lemma_filter_keeps(d.matches, keep, i);
        assert(kept.len() > 0);
    }
    if kept.len() > 0 {
        assert(keep(kept[0]) && d.matches.contains(kept[0]));
        let i = choose|i: int| 0 <= i < d.matches.len() && d.matches[i] == kept[0];
        assert(!pruned_by_context(d.matches[i], lines));
    }
    if kept.len() > 0 && kept.len() != d.matches.len() {
        let left = context_pruned(d, lines, posix, include_diagnostics)->0;
        let listed = expressions_of(kept);
        assert forall|i: int| 0 <= i < d.detection_log.len() implies left.detection_log.contains(
            #[trigger] d.detection_log[i],
        ) by {
            assert(left.detection_log[i] == d.detection_log[i]);
        }
        if include_diagnostics {
            let entry = "contextual-short-license-mention-pruned"@;
            if !d.detection_log.contains(entry) {
                assert(left.detection_log[d.detection_log.len() as int] == entry);
            }
        }
        if forall|i: int|
            0 <= i < left.matches.len() ==> expression::parsed(
                (#[trigger] left.matches[i]).license_expression,
            ) is Some {
            assert forall|i: int| 0 <= i < listed.len() implies expression::parsed(
                text::trim_of(#[trigger] listed[i]),
            ) is Some && text::trim_of(listed[i]).len() > 0 by {
                assert(left.matches[i].license_expression == listed[i]);
                reading::law_white_space_around_does_not_matter(listed[i]);
            }
            assert(text::trim_of(listed[0]).len() > 0);
            reading::law_combined_where_there_is_one(listed);
            reading::law_combined_names_every_license(listed, key);
            if exists|i: int|
                0 <= i < listed.len() && expression::expression_keys(
                    #[trigger] listed[i],
                ).contains(key) {
                let i = choose|i: int|
                    0 <= i < listed.len() && expression::expression_keys(
                        #[trigger] listed[i],
                    ).contains(key);
                assert(expression::expression_keys(left.matches[i].license_expression).contains(
                    key,
                ));
            }
            if exists|i: int|
                0 <= i < left.matches.len() && expression::expression_keys(
                    (#[trigger] left.matches[i]).license_expression,
                ).contains(key) {
                let i = choose|i: int|
                    0 <= i < left.matches.len() && expression::expression_keys(
                        (#[trigger] left.matches[i]).license_expression,
                    ).contains(key);
                assert(expression::expression_keys(listed[i]).contains(key));
            }
        }
    }
}

/// As many rising places as there are leave none out.
proof fn lemma_full_places(places: Seq<int>, n: int, i: int)
    requires
        places.len() == n,
        0 <= i < n,
        forall|k: int| 0 <= k < n ==> 0 <= #[trigger] places[k] < n,
        forall|j: int, k: int| 0 <= j < k < n ==> #[trigger] places[j] < #[trigger] places[k],
    ensures
        places[i] == i,
{
    lemma_places_rise(places, n, i);
    lemma_places_fall(places, n, i);
}

proof fn lemma_places_rise(places: Seq<int>, n: int, i: int)
    requires
        places.len() == n,
        0 <= i < n,
        forall|k: int| 0 <= k < n ==> 0 <= #[trigger] places[k] < n,
        forall|j: int, k: int| 0 <= j < k < n ==> #[trigger] places[j] < #[trigger] places[k],
    ensures
        places[i] >= i,
    decreases i,
{
    if i > 0 {
        lemma_places_rise(places, n, i - 1);
        assert(places[i - 1] < places[i]);
    }
}

proof fn lemma_places_fall(places: Seq<int>, n: int, i: int)
    requires
        places.len() == n,
        0 <= i < n,
        forall|k: int| 0 <= k < n ==> 0 <= #[trigger] places[k] < n,
        forall|j: int, k: int| 0 <= j < k < n ==> #[trigger] places[j] < #[trigger] places[k],
    ensures
        places[i] <= i,
    decreases n - i,
{
    if i < n - 1 {
        lemma_places_fall(places, n, i + 1);
        assert(places[i] < places[i + 1]);
    }
}

/// Detections are pruned one by one: what is left of several is what is left of
/// each, in their order.
pub proof fn law_detections_are_pruned_one_by_one(
    a: Seq<models::DetectionView>,
    b: Seq<models::DetectionView>,
    lines: Seq<Seq<char>>,
    posix: Seq<char>,
    include_diagnostics: bool,
)
    ensures
        context_pruned_all(a + b, lines, posix, include_diagnostics) == context_pruned_all(
            a,
            lines,
            posix,
            include_diagnostics,
        ) + context_pruned_all(b, lines, posix, include_diagnostics),
        b.len() == 1 ==> context_pruned_all(b, lines, posix, include_diagnostics) == (
        match context_pruned(b[0], lines, posix, include_diagnostics) {
            Some(left) => seq![left],
            None => Seq::<models::DetectionView>::empty(),
        }),
    decreases b.len(),
{
    if b.len() == 0 {
        assert(a + b == a);
    } else {
        law_detections_are_pruned_one_by_one(
            a,
            b.drop_last(),
            lines,
            posix,
            include_diagnostics,
        );
        assert((a + b).drop_last() == a + b.drop_last());
        assert((a + b).last() == b.last());
        if b.len() == 1 {
            assert(b.drop_last() == Seq::<models::DetectionView>::empty());
            assert(context_pruned_all(b.drop_last(), lines, posix, include_diagnostics)
                == Seq::<models::DetectionView>::empty());
        }
    }
}

/// The SPDX expression of a detection that lost matches names what those of the
/// matches that are left name, where they can all be read; it is empty where one
/// cannot.
pub proof fn law_pruned_detection_names_spdx(
    d: models::DetectionView,
    lines: Seq<Seq<char>>,
    posix: Seq<char>,
    include_diagnostics: bool,
    key: Seq<char>,
)
    requires
        context_pruned(d, lines, posix, include_diagnostics) is Some,
        kept_matches(d.matches, lines).len() < d.matches.len(),
    ensures
        ({
            let left = context_pruned(d, lines, posix, include_diagnostics)->0;
            &&& (exists|i: int|
                0 <= i < left.matches.len() && text::trim_of(
                    (#[trigger] left.matches[i]).license_expression_spdx,
                ).len() > 0 && expression::parsed(left.matches[i].license_expression_spdx) is None)
                ==> left.license_expression_spdx.len() == 0
            &&& (forall|i: int|
                0 <= i < left.matches.len() && text::trim_of(
                    (#[trigger] left.matches[i]).license_expression_spdx,
                ).len() > 0 ==> expression::parsed(left.matches[i].license_expression_spdx) is Some)
                ==> expression::expression_keys(left.license_expression_spdx).contains(key)
                == exists|i: int|
                0 <= i < left.matches.len() && expression::expression_keys(
                    (#[trigger] left.matches[i]).license_expression_spdx,
                ).contains(key)
        }),
{
    let left = context_pruned(d, lines, posix, include_diagnostics)->0;
    let kept = kept_matches(d.matches, lines);
    let every = kept.map_values(|m: models::MatchView| m.license_expression_spdx);
    let keep = |s: Seq<char>| s.len() > 0;
    let listed = spdx_expressions_of(kept);
    lists::lemma_filter_holds(every, keep);
    reading::lemma_nothing_has_no_keys();
    assert forall|i: int| 0 <= i < left.matches.len() implies (
    #[trigger] left.matches[i]).license_expression_spdx == every[i] && (every[i].len() > 0
        ==> listed.contains(every[i])) && (every[i].len() == 0 ==> text::trim_of(every[i]).len()
        == 0 && !expression::expression_keys(every[i]).contains(key)) by {
        if every[i].len() > 0 {
            assert(keep(every[i]));
            lists::lemma_filter_keeps(every, keep, i);
        } else {
            assert(every[i] =~= Seq::<char>::empty());
        }
    }
    assert forall|k: int| 0 <= k < listed.len() implies exists|i: int|
        0 <= i < left.matches.len() && (#[trigger] left.matches[i]).license_expression_spdx
            == #[trigger] listed[k] by {
        assert(every.contains(listed[k]));
        let i = choose|i: int| 0 <= i < every.len() && every[i] == listed[k];
        assert(left.matches[i].license_expression_spdx == listed[k]);
    }
    reading::law_strict_combination(listed, key);
    if exists|i: int|
        0 <= i < left.matches.len() && text::trim_of(
            (#[trigger] left.matches[i]).license_expression_spdx,
        ).len() > 0 && expression::parsed(left.matches[i].license_expression_spdx) is None {
        let i = choose|i: int|
            0 <= i < left.matches.len() && text::trim_of(
                (#[trigger] left.matches[i]).license_expression_spdx,
            ).len() > 0 && expression::parsed(left.matches[i].license_expression_spdx) is None;
        assert(listed.contains(every[i]));
        let k = choose|k: int| 0 <= k < listed.len() && listed[k] == every[i];
        assert(text::trim_of(listed[k]).len() > 0);
        assert(spdx::combined_strict(listed) is None);
    } else {
        assert forall|k: int|
            0 <= k < listed.len() && text::trim_of(
                #[trigger] listed[k],
            ).len() > 0 implies expression::parsed(listed[k]) is Some by {
            let i = choose|i: int|
                0 <= i < left.matches.len() && (#[trigger] left.matches[i]).license_expression_spdx
                    == listed[k];
            assert(expression::parsed(left.matches[i].license_expression_spdx) is Some);
        }
        if exists|i: int|
            0 <= i < left.matches.len() && expression::expression_keys(
                (#[trigger] left.matches[i]).license_expression_spdx,
            ).contains(key) {
            let i = choose|i: int|
                0 <= i < left.matches.len() && expression::expression_keys(
                    (#[trigger] left.matches[i]).license_expression_spdx,
                ).contains(key);
            assert(listed.contains(every[i]));
            let k = choose|k: int| 0 <= k < listed.len() && listed[k] == every[i];
            assert(expression::expression_keys(listed[k]).contains(key));
        }
        if exists|k: int|
            0 <= k < listed.len() && expression::expression_keys(#[trigger] listed[k]).contains(key) {
            let k = choose|k: int|
                0 <= k < listed.len() && expression::expression_keys(#[trigger] listed[k]).contains(
                    key,
                );
            let i = choose|i: int|
                0 <= i < left.matches.len() && (#[trigger] left.matches[i]).license_expression_spdx
                    == listed[k];
            assert(expression::expression_keys(
                left.matches[i].license_expression_spdx,
            ).contains(key));
        }
        if spdx::combined_strict(listed) is None {
            assert(left.license_expression_spdx =~= Seq::<char>::empty());
        }
    }
}

} // verus!
