//! The text of a file as the matcher read it: a query.
use std::collections::HashSet;
use std::time::Instant;

use vstd::prelude::*;

use crate::matched_text;
use crate::models;
use crate::models::{InternalLicenseDetection, LicenseMatch};
use crate::text;

verus! {

/// A moment of the machine's clock, of `std::time`.
#[verifier::external_type_specification]
#[verifier::external_body]
pub struct ExInstant(Instant);

/// Why a license scan gave up.
#[derive(Clone, Copy, Debug, PartialEq, Eq, Structural)]
pub enum LicenseDetectionError {
    Timeout,
}

/// A run of characters of a query: a word, or what stands between words.
#[derive(Debug)]
pub struct QueryPiece {
    pub value: String,
    pub line: usize,
    /// The place of the word among the known words; none for other pieces.
    pub position: Option<usize>,
    pub is_text: bool,
}

/// What a [`QueryPiece`] holds.
#[verifier::ext_equal]
pub struct PieceView {
    pub value: Seq<char>,
    pub line: nat,
    pub position: Option<usize>,
    pub is_text: bool,
}

impl View for QueryPiece {
    type V = PieceView;

    open spec fn view(&self) -> PieceView {
        PieceView {
            value: self.value@,
            line: self.line as nat,
            position: self.position,
            is_text: self.is_text,
        }
    }
}

/// A query: the text, its pieces, and the words that it is made of.
#[derive(Debug)]
pub struct Query {
    pub text: String,
    pub pieces: Vec<QueryPiece>,
    /// The identifiers of the known words, in order.
    pub tokens: Vec<u16>,
    /// The number of words that are not known.
    pub unknown_tokens: usize,
    /// When the work on the scan output has to stop.
    pub output_deadline: Option<Instant>,
}

/// What a [`Query`] holds.
#[verifier::ext_equal]
pub struct QueryView {
    pub text: Seq<char>,
    pub pieces: Seq<PieceView>,
    pub tokens: Seq<u16>,
    pub unknown_tokens: nat,
    /// When the work on the scan output has to stop.
    pub deadline: Option<Instant>,
}

impl View for Query {
    type V = QueryView;

    open spec fn view(&self) -> QueryView {
        QueryView {
            text: self.text@,
            pieces: piece_views(self.pieces@),
            tokens: self.tokens@,
            unknown_tokens: self.unknown_tokens as nat,
            deadline: self.output_deadline,
        }
    }
}

pub open spec fn piece_views(pieces: Seq<QueryPiece>) -> Seq<PieceView> {
    pieces.map_values(|p: QueryPiece| p@)
}

/// The view of an optional query.
pub open spec fn opt_query(query: Option<&Query>) -> Option<QueryView> {
    match query {
        Some(q) => Some(q@),
        None => None,
    }
}

/// A range of positions and a range of lines.
pub struct Region {
    pub start_pos: usize,
    pub end_pos: usize,
    pub start_line: nat,
    pub end_line: nat,
}

/// The text of a region up to some piece.
pub struct RegionState {
    pub text: Seq<char>,
    /// The piece at the first position has come.
    pub started: bool,
    /// The piece at the last position has come.
    pub finished: bool,
}

/// A piece as it shows: in brackets where it is a word that is not matched, if
/// such words are to be marked.
pub open spec fn shown_piece(p: PieceView, matched: Seq<usize>, mark: bool) -> Seq<char> {
    if mark && p.is_text && !(p.position is Some && matched.contains(p.position->0)) {
        seq!['['] + p.value + seq![']']
    } else {
        p.value
    }
}

/// The text of a region with one more piece.
pub open spec fn after_piece(
    state: RegionState,
    p: PieceView,
    matched: Seq<usize>,
    region: Region,
    mark: bool,
) -> RegionState {
    let started = state.started || p.position == Some(region.start_pos);
    if p.line < region.start_line || p.line > region.end_line {
        state
    } else if started && !state.finished {
        RegionState {
            text: state.text + shown_piece(p, matched, mark),
            started,
            finished: p.position == Some(region.end_pos),
        }
    } else {
        state
    }
}

/// The text of a region of several pieces.
pub open spec fn after_pieces(
    pieces: Seq<PieceView>,
    matched: Seq<usize>,
    region: Region,
    mark: bool,
) -> RegionState
    decreases pieces.len(),
{
    if pieces.len() == 0 {
        RegionState { text: seq![], started: false, finished: false }
    } else {
        after_piece(
            after_pieces(pieces.drop_last(), matched, region, mark),
            pieces.last(),
            matched,
            region,
            mark,
        )
    }
}

/// The pieces of a query from the first matched word of a match to the last, on
/// the lines of the match.
pub open spec fn region_text(
    q: QueryView,
    matched: Seq<usize>,
    region: Region,
    mark: bool,
) -> Seq<char> {
    after_pieces(q.pieces, matched, region, mark).text
}

/// The least of several positions.
pub open spec fn least(positions: Seq<usize>) -> usize
    decreases positions.len(),
{
    if positions.len() <= 1 {
        positions[0]
    } else {
        let before = least(positions.drop_last());
        if positions.last() < before {
            positions.last()
        } else {
            before
        }
    }
}

/// The greatest of several positions.
pub open spec fn greatest(positions: Seq<usize>) -> usize
    decreases positions.len(),
{
    if positions.len() <= 1 {
        positions[0]
    } else {
        let before = greatest(positions.drop_last());
        if positions.last() > before {
            positions.last()
        } else {
            before
        }
    }
}

/// The region of a match.
pub open spec fn region_of(m: models::LicenseMatchView) -> Region {
    Region {
        start_pos: least(m.query_positions),
        end_pos: greatest(m.query_positions),
        start_line: m.start_line.number(),
        end_line: m.end_line.number(),
    }
}

/// The matched words of a match and what stands between them.
pub open spec fn compact_text(q: Option<QueryView>, m: models::LicenseMatchView) -> Option<
    Seq<char>,
> {
    if q is None || m.query_positions.len() == 0 {
        None
    } else {
        Some(region_text(q->0, m.query_positions, region_of(m), false))
    }
}

/// The text that the lines of a match are read from.
pub open spec fn source_text(q: Option<QueryView>, content: Seq<char>) -> Seq<char> {
    match q {
        Some(query) => query.text,
        None => content,
    }
}

/// The text of a match in the scan output: what the match holds, or the whole
/// lines that it stands on, or only its words where the lines are too long.
pub open spec fn output_text(
    m: models::LicenseMatchView,
    content: Seq<char>,
    q: Option<QueryView>,
) -> Seq<char> {
    let start = m.start_line.number();
    let end = m.end_line.number();
    let source = source_text(q, content);
    let compact = compact_text(q, m);
    let whole = matched_text::lines_between(source, start, end);
    let line_max = matched_text::MAX_OUTPUT_MATCHED_TEXT_LINE_LENGTH as nat;
    if m.matched_text is Some {
        matched_text::capped(m.matched_text->0)
    } else if matched_text::has_long_line(source, start, end, line_max) {
        match compact {
            Some(words) => matched_text::capped(words),
            None => matched_text::capped(
                matched_text::capped_lines_between(content, start, end, line_max),
            ),
        }
    } else if text::byte_len(whole) > matched_text::MAX_OUTPUT_MATCHED_TEXT_BYTES && compact is Some {
        matched_text::capped(compact->0)
    } else {
        matched_text::capped(whole)
    }
}

/// The text of a match shows its words alone, because its lines are too long.
pub open spec fn shows_words(
    m: models::LicenseMatchView,
    content: Seq<char>,
    q: Option<QueryView>,
) -> bool {
    let start = m.start_line.number();
    let end = m.end_line.number();
    let source = source_text(q, content);
    &&& m.matched_text is None
    &&& compact_text(q, m) is Some
    &&& matched_text::has_long_line(
        source,
        start,
        end,
        matched_text::MAX_OUTPUT_MATCHED_TEXT_LINE_LENGTH as nat,
    ) || text::byte_len(matched_text::lines_between(source, start, end))
        > matched_text::MAX_OUTPUT_MATCHED_TEXT_BYTES
}

/// The words of a match, and in brackets those between them that it leaves out.
pub open spec fn diagnostic_text(m: models::LicenseMatchView, q: QueryView) -> Seq<char> {
    if m.query_positions.len() == 0 {
        matched_text::capped_lines_between(
            q.text,
            m.start_line.number(),
            m.end_line.number(),
            matched_text::MAX_OUTPUT_MATCHED_TEXT_LINE_LENGTH as nat,
        )
    } else {
        matched_text::capped(region_text(q, m.query_positions, region_of(m), true))
    }
}

/// The positions that the matches of several detections cover.
pub open spec fn positions_of_matches(matches: Seq<models::LicenseMatchView>) -> Set<usize>
    decreases matches.len(),
{
    if matches.len() == 0 {
        Set::empty()
    } else {
        positions_of_matches(matches.drop_last()).union(matches.last().query_positions.to_set())
    }
}

/// The positions that several detections cover.
pub open spec fn positions_of(ds: Seq<models::InternalDetectionView>) -> Set<usize>
    decreases ds.len(),
{
    if ds.len() == 0 {
        Set::empty()
    } else {
        positions_of(ds.drop_last()).union(positions_of_matches(ds.last().matches))
    }
}

/// How much of the words of a query its matches cover.
#[derive(Clone, Copy, Debug, PartialEq, Eq, Structural)]
pub struct LicenseTextCounts {
    pub matched: usize,
    pub known: usize,
    pub unknown: usize,
}

/// `std::time::Instant::now`: a moment of the machine's clock. Which one rests on
/// the clock, and nothing is claimed of it.
#[verifier::external_body]
fn read_clock() -> Instant {
    Instant::now()
}

/// `>=` of `std::time::Instant`: whether a moment is not before another. It is
/// where they are the same. Moments are opaque, and of different ones nothing is
/// claimed.
#[verifier::external_body]
fn is_reached(now: &Instant, deadline: &Instant) -> (r: bool)
    ensures
        *now == *deadline ==> r,
{
    now >= deadline
}

/// The clock may show a moment that answers whether a deadline has passed.
pub closed spec fn may_answer(deadline: Instant, passed: bool) -> bool {
    exists|now: Instant| #[trigger]
        call_ensures(read_clock, (), now) && call_ensures(is_reached, (&now, &deadline), passed)
}

/// Work under a deadline stopped, or went on, by an answer of the clock. Without a
/// deadline it goes on.
pub open spec fn kept_time(deadline: Option<Instant>, stopped: bool) -> bool {
    match deadline {
        Some(moment) => may_answer(moment, stopped),
        None => !stopped,
    }
}

/// The deadline of an optional query.
pub open spec fn deadline_of(q: Option<QueryView>) -> Option<Instant> {
    match q {
        Some(query) => query.deadline,
        None => None,
    }
}

/// Whether a deadline has passed, by a look at the clock.
fn has_passed(deadline: &Instant) -> (passed: bool)
    ensures
        may_answer(*deadline, passed),
{
    let now = read_clock();
    is_reached(&now, deadline)
}

/// What a look at the clock means: work stops where a deadline is set and has
/// passed.
pub fn deadline_outcome(passed: Option<bool>) -> (r: Result<(), LicenseDetectionError>)
    ensures
        r is Err == (passed == Some(true)),
{
    match passed {
        Some(true) => Err(LicenseDetectionError::Timeout),
        _ => Ok(()),
    }
}

impl Query {
    /// Gives up where the deadline for the scan output has passed. Without a
    /// deadline it never does.
    pub fn ensure_output_deadline(&self) -> (r: Result<(), LicenseDetectionError>)
        ensures
            kept_time(self@.deadline, r is Err),
    {
        let passed = match &self.output_deadline {
            Some(deadline) => Some(has_passed(deadline)),
            None => None,
        };
        deadline_outcome(passed)
    }

    /// The lines of a range of the query.
    pub fn matched_text(&self, start_line: usize, end_line: usize) -> (r: String)
        ensures
            r@ == matched_text::lines_between(self@.text, start_line as nat, end_line as nat),
    {
        matched_text::matched_text_from_text(self.text.as_str(), start_line, end_line)
    }

    /// Whether a line of the range is longer than so many bytes.
    pub fn line_range_has_oversized_line(
        &self,
        start_line: usize,
        end_line: usize,
        max_line_length: usize,
    ) -> (r: bool)
        ensures
            r == matched_text::has_long_line(
                self@.text,
                start_line as nat,
                end_line as nat,
                max_line_length as nat,
            ),
    {
        matched_text::line_range_has_oversized_line(
            self.text.as_str(),
            start_line,
            end_line,
            max_line_length,
        )
    }

    fn render_region(
        &self,
        matched: &Vec<usize>,
        start_pos: usize,
        end_pos: usize,
        start_line: usize,
        end_line: usize,
        mark: bool,
    ) -> (r: String)
        ensures
            r@ == region_text(
                self@,
                matched@,
                (Region {
                    start_pos,
                    end_pos,
                    start_line: start_line as nat,
                    end_line: end_line as nat,
                }),
                mark,
            ),
    {
        let ghost region = Region {
            start_pos,
            end_pos,
            start_line: start_line as nat,
            end_line: end_line as nat,
        };
        let ghost all = piece_views(self.pieces@);
        let mut rendered = String::new();
        let mut started = false;
        let mut finished = false;
        let mut i: usize = 0;
        assert(rendered@ == after_pieces(all.take(0), matched@, region, mark).text);
        while i < self.pieces.len()
            invariant
                all == piece_views(self.pieces@),
                region == (Region {
                    start_pos,
                    end_pos,
                    start_line: start_line as nat,
                    end_line: end_line as nat,
                }),
                i <= self.pieces@.len(),
                rendered@ == after_pieces(all.take(i as int), matched@, region, mark).text,
                started == after_pieces(all.take(i as int), matched@, region, mark).started,
                finished == after_pieces(all.take(i as int), matched@, region, mark).finished,
            decreases self.pieces@.len() - i,
        {
            let ghost before = rendered@;
            let piece = &self.pieces[i];
            proof {
                assert(all[i as int] == piece@);
                assert(all.take(i + 1).drop_last() == all.take(i as int));
                assert(all.take(i + 1).last() == all[i as int]);
            }
            i = i + 1;
            if piece.line < start_line || piece.line > end_line {
                continue ;
            }
            let opens = match piece.position {
                Some(position) => position == start_pos,
                None => false,
            };
            if (started || opens) && !finished {
                let unmatched = mark && piece.is_text && !has_place(matched, piece.position);
                if unmatched {
                    rendered.push('[');
                    rendered.append(piece.value.as_str());
                    rendered.push(']');
                } else {
                    rendered.append(piece.value.as_str());
                }
                assert(rendered@ == before + shown_piece(piece@, matched@, mark));
                started = true;
                finished = match piece.position {
                    Some(position) => position == end_pos,
                    None => false,
                };
            }
        }
        assert(all.take(i as int) == all);
        rendered
    }

    /// The pieces from the first matched word to the last, on the given lines.
    pub fn matched_text_from_tokens(
        &self,
        matched_positions: &Vec<usize>,
        start_pos: usize,
        end_pos: usize,
        start_line: usize,
        end_line: usize,
    ) -> (r: Result<String, LicenseDetectionError>)
        ensures
            kept_time(self@.deadline, r is Err),
            r is Ok ==> r->Ok_0@ == region_text(
                self@,
                matched_positions@,
                (Region {
                    start_pos,
                    end_pos,
                    start_line: start_line as nat,
                    end_line: end_line as nat,
                }),
                false,
            ),
    {
        match self.ensure_output_deadline() {
            Ok(_) => Ok(
                self.render_region(
                    matched_positions,
                    start_pos,
                    end_pos,
                    start_line,
                    end_line,
                    false,
                ),
            ),
            Err(e) => Err(e),
        }
    }

    /// The pieces from the first matched word to the last, on the given lines,
    /// the words that are not matched in brackets.
    pub fn matched_text_diagnostics(
        &self,
        matched_positions: &Vec<usize>,
        start_pos: usize,
        end_pos: usize,
        start_line: usize,
        end_line: usize,
    ) -> (r: Result<String, LicenseDetectionError>)
        ensures
            kept_time(self@.deadline, r is Err),
            r is Ok ==> r->Ok_0@ == region_text(
                self@,
                matched_positions@,
                (Region {
                    start_pos,
                    end_pos,
                    start_line: start_line as nat,
                    end_line: end_line as nat,
                }),
                true,
            ),
    {
        match self.ensure_output_deadline() {
            Ok(_) => Ok(
                self.render_region(
                    matched_positions,
                    start_pos,
                    end_pos,
                    start_line,
                    end_line,
                    true,
                ),
            ),
            Err(e) => Err(e),
        }
    }
}

/// Gives up where the deadline of a query has passed. Without a query, or without
/// a deadline, it never does.
pub fn check_deadline(query: Option<&Query>) -> (r: Result<(), LicenseDetectionError>)
    ensures
        kept_time(deadline_of(opt_query(query)), r is Err),
{
    match query {
        Some(q) => q.ensure_output_deadline(),
        None => Ok(()),
    }
}

/// Whether a position is among the matched ones.
fn has_place(matched: &Vec<usize>, position: Option<usize>) -> (r: bool)
    ensures
        r == (position is Some && matched@.contains(position->0)),
{
    let wanted: usize = match position {
        Some(wanted) => wanted,
        None => return false,
    };
    let mut i: usize = 0;
    while i < matched.len()
        invariant
            position == Some(wanted),
            i <= matched@.len(),
            forall|j: int| 0 <= j < i ==> matched@[j] != wanted,
        decreases matched@.len() - i,
    {
        if matched[i] == wanted {
            return true;
        }
        i = i + 1;
    }
    false
}

/// The least and the greatest of several positions.
fn position_bounds(positions: &Vec<usize>) -> (r: Option<(usize, usize)>)
    ensures
        r is Some == (positions@.len() > 0),
        r is Some ==> r->0 == (least(positions@), greatest(positions@)),
{
    if positions.len() == 0 {
        return None;
    }
    let mut low: usize = positions[0];
    let mut high: usize = positions[0];
    let mut i: usize = 1;
    assert(positions@.take(1)[0] == positions@[0]);
    while i < positions.len()
        invariant
            1 <= i <= positions@.len(),
            low == least(positions@.take(i as int)),
            high == greatest(positions@.take(i as int)),
        decreases positions@.len() - i,
    {
        proof {
            assert(positions@.take(i + 1).drop_last() == positions@.take(i as int));
            assert(positions@.take(i + 1).last() == positions@[i as int]);
        }
        if positions[i] < low {
            low = positions[i];
        }
        if positions[i] > high {
            high = positions[i];
        }
        i = i + 1;
    }
    assert(positions@.take(i as int) == positions@);
    Some((low, high))
}

/// The matched words of a match and what stands between them.
pub fn compact_matched_text_from_query(query: Option<&Query>, license_match: &LicenseMatch) -> (r:
    Result<Option<String>, LicenseDetectionError>)
    ensures
        compact_text(opt_query(query), license_match@) is None ==> r is Ok,
        compact_text(opt_query(query), license_match@) is Some ==> kept_time(
            deadline_of(opt_query(query)),
            r is Err,
        ),
        r is Ok ==> text::opt_text(r->Ok_0) == compact_text(opt_query(query), license_match@),
{
    let query = match query {
        Some(query) => query,
        None => return Ok(None),
    };
    match position_bounds(&license_match.query_positions) {
        Some((start_pos, end_pos)) => {
            match query.matched_text_from_tokens(
                &license_match.query_positions,
                start_pos,
                end_pos,
                license_match.start_line.get(),
                license_match.end_line.get(),
            ) {
                Ok(words) => Ok(Some(words)),
                Err(e) => Err(e),
            }
        },
        None => Ok(None),
    }
}

/// The text of a match in the scan output.
pub fn extract_output_matched_text(
    license_match: &LicenseMatch,
    text_content: &str,
    query: Option<&Query>,
) -> (r: Result<String, LicenseDetectionError>)
    ensures
        !shows_words(license_match@, text_content@, opt_query(query)) ==> r is Ok,
        shows_words(license_match@, text_content@, opt_query(query)) ==> kept_time(
            deadline_of(opt_query(query)),
            r is Err,
        ),
        r is Ok ==> r->Ok_0@ == output_text(license_match@, text_content@, opt_query(query)),
{
    if let Some(held) = &license_match.matched_text {
        return Ok(matched_text::cap_output_matched_text(held.clone()));
    }
    let start_line: usize = license_match.start_line.get();
    let end_line: usize = license_match.end_line.get();
    let has_oversized_line = match query {
        Some(q) => q.line_range_has_oversized_line(
            start_line,
            end_line,
            matched_text::MAX_OUTPUT_MATCHED_TEXT_LINE_LENGTH,
        ),
        None => matched_text::line_range_has_oversized_line(
            text_content,
            start_line,
            end_line,
            matched_text::MAX_OUTPUT_MATCHED_TEXT_LINE_LENGTH,
        ),
    };
    if has_oversized_line {
        return match compact_matched_text_from_query(query, license_match) {
            Ok(Some(words)) => Ok(matched_text::cap_output_matched_text(words)),
            Ok(None) => Ok(
                matched_text::cap_output_matched_text(
                    matched_text::bounded_matched_text_from_text(
                        text_content,
                        start_line,
                        end_line,
                    ),
                ),
            ),
            Err(e) => Err(e),
        };
    }
    let whole = match query {
        Some(q) => q.matched_text(start_line, end_line),
        None => matched_text::matched_text_from_text(text_content, start_line, end_line),
    };
    if text::text_bytes(whole.as_str()) > matched_text::MAX_OUTPUT_MATCHED_TEXT_BYTES {
        match compact_matched_text_from_query(query, license_match) {
            Ok(Some(words)) => {
                return Ok(matched_text::cap_output_matched_text(words));
            },
            Ok(None) => {},
            Err(e) => {
                return Err(e);
            },
        }
    }
    Ok(matched_text::cap_output_matched_text(whole))
}

/// The text of a match with the words that it leaves out marked.
pub fn matched_text_diagnostics_from_match(query: &Query, license_match: &LicenseMatch) -> (r:
    Result<String, LicenseDetectionError>)
    ensures
        license_match@.query_positions.len() == 0 ==> r is Ok,
        license_match@.query_positions.len() > 0 ==> kept_time(query@.deadline, r is Err),
        r is Ok ==> r->Ok_0@ == diagnostic_text(license_match@, query@),
{
    match position_bounds(&license_match.query_positions) {
        Some((start_pos, end_pos)) => {
            match query.matched_text_diagnostics(
                &license_match.query_positions,
                start_pos,
                end_pos,
                license_match.start_line.get(),
                license_match.end_line.get(),
            ) {
                Ok(marked) => Ok(matched_text::cap_output_matched_text(marked)),
                Err(e) => Err(e),
            }
        },
        None => Ok(
            matched_text::bounded_matched_text_from_text(
                query.text.as_str(),
                license_match.start_line.get(),
                license_match.end_line.get(),
            ),
        ),
    }
}

fn insert_positions(seen: &mut HashSet<usize>, positions: &Vec<usize>)
    ensures
        final(seen)@ == old(seen)@.union(positions@.to_set()),
{
    broadcast use vstd::std_specs::hash::group_hash_axioms;

    let ghost start = seen@;
    let mut i: usize = 0;
    assert(seen@ == start.union(positions@.take(0).to_set()));
    while i < positions.len()
        invariant
            i <= positions@.len(),
            seen@ == start.union(positions@.take(i as int).to_set()),
        decreases positions@.len() - i,
    {
        seen.insert(positions[i]);
        proof {
            assert(positions@.take(i + 1) == positions@.take(i as int).push(positions@[i as int]));
            crate::expression::lemma_to_set_push(positions@.take(i as int), positions@[i as int]);
            assert(seen@ == start.union(positions@.take(i + 1).to_set()));
        }
        i = i + 1;
    }
    assert(positions@.take(i as int) == positions@);
}

/// How much of the words of a query the matches of the detections cover: the
/// share that the percentage of license text is made of.
pub fn count_license_text(query: &Query, detections: &Vec<InternalLicenseDetection>) -> (r:
    LicenseTextCounts)
    ensures
        r.matched == positions_of(models::internal_detection_views(detections@)).len(),
        r.known == query@.tokens.len(),
        r.unknown == query@.unknown_tokens,
{
    broadcast use vstd::std_specs::hash::group_hash_axioms;

    let ghost all = models::internal_detection_views(detections@);
    let mut positions: HashSet<usize> = HashSet::new();
    let mut i: usize = 0;
    assert(positions@ == positions_of(all.take(0)));
    while i < detections.len()
        invariant
            all == models::internal_detection_views(detections@),
            i <= detections@.len(),
            positions@ == positions_of(all.take(i as int)),
        decreases detections@.len() - i,
    {
        let ghost before = positions@;
        let ghost matches = all[i as int].matches;
        proof {
            assert(all[i as int] == detections@[i as int]@);
            assert(all.take(i + 1).drop_last() == all.take(i as int));
            assert(all.take(i + 1).last() == all[i as int]);
        }
        let mut k: usize = 0;
        assert(positions@ == before.union(positions_of_matches(matches.take(0))));
        while k < detections[i].matches.len()
            invariant
                i < detections@.len(),
                matches == models::license_match_views(detections@[i as int].matches@),
                k <= detections@[i as int].matches@.len(),
                positions@ == before.union(positions_of_matches(matches.take(k as int))),
            decreases detections@[i as int].matches@.len() - k,
        {
            proof {
                assert(matches[k as int] == detections@[i as int].matches@[k as int]@);
                assert(matches.take(k + 1).drop_last() == matches.take(k as int));
                assert(matches.take(k + 1).last() == matches[k as int]);
            }
            insert_positions(&mut positions, &detections[i].matches[k].query_positions);
            assert(positions@ == before.union(positions_of_matches(matches.take(k + 1))));
            k = k + 1;
        }
        assert(matches.take(k as int) == matches);
        i = i + 1;
    }
    assert(all.take(i as int) == all);
    LicenseTextCounts {
        matched: positions.len(),
        known: query.tokens.len(),
        unknown: query.unknown_tokens,
    }
}

/// The matched text of the scan output stays within its bound.
pub proof fn law_output_text_fits(
    m: models::LicenseMatchView,
    content: Seq<char>,
    q: Option<QueryView>,
)
    ensures
        text::byte_len(output_text(m, content, q)) <= matched_text::MAX_OUTPUT_MATCHED_TEXT_BYTES,
{
    let source = source_text(q, content);
    let start = m.start_line.number();
    let end = m.end_line.number();
    matched_text::law_capped_fits(m.matched_text->0);
    matched_text::law_capped_fits(compact_text(q, m)->0);
    matched_text::law_capped_fits(matched_text::lines_between(source, start, end));
    matched_text::law_capped_fits(
        matched_text::capped_lines_between(
            content,
            start,
            end,
            matched_text::MAX_OUTPUT_MATCHED_TEXT_LINE_LENGTH as nat,
        ),
    );
}

proof fn lemma_mark_states(
    pieces: Seq<PieceView>,
    matched: Seq<usize>,
    region: Region,
)
    requires
        forall|i: int|
            0 <= i < pieces.len() && (#[trigger] pieces[i]).is_text ==> pieces[i].position is Some
                && matched.contains(pieces[i].position->0),
    ensures
        after_pieces(pieces, matched, region, true) == after_pieces(pieces, matched, region, false),
    decreases pieces.len(),
{
    if pieces.len() > 0 {
        assert forall|i: int|
            0 <= i < pieces.drop_last().len() && (
            #[trigger] pieces.drop_last()[i]).is_text implies pieces.drop_last()[i].position is Some
            && matched.contains(pieces.drop_last()[i].position->0) by {
            assert(pieces.drop_last()[i] == pieces[i]);
        }
        lemma_mark_states(pieces.drop_last(), matched, region);
        assert(pieces[pieces.len() - 1] == pieces.last());
    }
}

/// Where every word is matched, nothing is marked: the diagnostic text is the
/// text of the words.
pub proof fn law_full_match_has_no_marks(q: QueryView, matched: Seq<usize>, region: Region)
    requires
        forall|i: int|
            0 <= i < q.pieces.len() && (#[trigger] q.pieces[i]).is_text
                ==> q.pieces[i].position is Some && matched.contains(q.pieces[i].position->0),
    ensures
        region_text(q, matched, region, true) == region_text(q, matched, region, false),
{
    lemma_mark_states(q.pieces, matched, region);
}

/// A query of the text of a file reads the same lines as the text itself: it
/// changes the matched text only where it knows the words of the match.
pub proof fn law_query_reads_the_text(
    m: models::LicenseMatchView,
    content: Seq<char>,
    q: QueryView,
)
    requires
        q.text == content,
        m.query_positions.len() == 0,
    ensures
        output_text(m, content, Some(q)) == output_text(m, content, None),
{
}

/// Where no line of a match is longer than 10,000 bytes and all of them have at
/// most 128 KiB, its text is the text of the file between the lines before the
/// match and those behind it.
pub proof fn law_normal_text_is_shown_whole(
    m: models::LicenseMatchView,
    content: Seq<char>,
    q: Option<QueryView>,
)
    requires
        m.matched_text is None,
        1 <= m.start_line.number() <= m.end_line.number(),
        forall|i: int|
            m.start_line.number() <= i + 1 <= m.end_line.number() && 0 <= i < text::lines_of(
                source_text(q, content),
            ).len() ==> text::byte_len(#[trigger] text::lines_of(source_text(q, content))[i])
                <= 10_000,
        text::byte_len(
            matched_text::lines_between(
                source_text(q, content),
                m.start_line.number(),
                m.end_line.number(),
            ),
        ) <= 131_072,
    ensures
        ({
            let source = source_text(q, content);
            let lines = text::raw_lines(source);
            let shown = output_text(m, content, q);
            let last = matched_text::last_line_of(source, m.end_line.number()) as int;
            if m.start_line.number() <= lines.len() {
                source == text::concatenated(lines.take(m.start_line.number() - 1)) + shown
                    + text::line_ending(lines[last - 1]) + text::concatenated(lines.skip(last))
            } else {
                shown.len() == 0
            }
        }),
{
    let source = source_text(q, content);
    let start = m.start_line.number();
    let end = m.end_line.number();
    matched_text::law_short_lines_are_not_cut(source, start, end, 10_000);
    matched_text::law_truncated_idempotent(
        matched_text::lines_between(source, start, end),
        131_072,
    );
    if start <= text::raw_lines(source).len() {
        matched_text::law_lines_between_are_the_text(source, start, end);
    } else {
        matched_text::law_no_lines_show_nothing(source, start, end, 10_000);
    }
}

/// The text that a match holds is shown, and is cut only beyond 128 KiB.
pub proof fn law_held_text_is_shown(
    m: models::LicenseMatchView,
    content: Seq<char>,
    q: Option<QueryView>,
)
    requires
        m.matched_text is Some,
    ensures
        text::byte_len(m.matched_text->0) <= 131_072 ==> output_text(m, content, q)
            == m.matched_text->0,
        text::byte_len(m.matched_text->0) > 131_072 ==> exists|kept: int|
            0 <= kept < m.matched_text->0.len() && output_text(m, content, q)
                == #[trigger] m.matched_text->0.take(kept) + "… [truncated]"@,
{
    let held = m.matched_text->0;
    reveal_strlit("… [truncated]");
    let marker = "… [truncated]"@;
    assert(text::byte_len(marker) <= 4 * marker.len()) by {
        lemma_bytes_bound(marker);
    }
    if text::byte_len(held) > 131_072 {
        matched_text::law_cut_leaves_as_much_as_fits(held, 131_072);
        let kept = output_text(m, content, q).len() - marker.len();
        assert(output_text(m, content, q) == held.take(kept) + marker);
    }
}

proof fn lemma_bytes_bound(s: Seq<char>)
    ensures
        text::byte_len(s) <= 4 * s.len(),
    decreases s.len(),
{
    if s.len() == 0 {
        reveal_with_fuel(vstd::utf8::encode_utf8, 1);
    } else {
        lemma_bytes_bound(s.drop_last());
        text::lemma_byte_len_push(s.drop_last(), s.last());
        assert(s == s.drop_last().push(s.last()));
    }
}

/// Where a line of a match is longer than 10,000 bytes, the words of the match
/// stand for its lines; without words, the lines of the file show as far as the
/// bound on them allows.
pub proof fn law_long_lines_show_words(
    m: models::LicenseMatchView,
    content: Seq<char>,
    q: Option<QueryView>,
    i: int,
)
    requires
        m.matched_text is None,
        1 <= m.start_line.number() <= i + 1 <= m.end_line.number(),
        0 <= i < text::lines_of(source_text(q, content)).len(),
        text::byte_len(text::lines_of(source_text(q, content))[i]) > 10_000,
    ensures
        q is Some && m.query_positions.len() > 0 ==> output_text(m, content, q)
            == matched_text::truncated(
            region_text(q->0, m.query_positions, region_of(m), false),
            131_072,
        ),
        q is None || m.query_positions.len() == 0 ==> output_text(m, content, q)
            == matched_text::truncated(
            matched_text::capped_lines_between(
                content,
                m.start_line.number(),
                m.end_line.number(),
                10_000,
            ),
            131_072,
        ),
{
    assert(matched_text::has_long_line(
        source_text(q, content),
        m.start_line.number(),
        m.end_line.number(),
        10_000,
    ));
}

/// The region of a match holds all its positions, begins with one and ends with
/// one, and stands on the lines of the match.
pub proof fn law_region_holds_positions(m: models::LicenseMatchView)
    requires
        m.query_positions.len() > 0,
    ensures
        m.query_positions.contains(region_of(m).start_pos),
        m.query_positions.contains(region_of(m).end_pos),
        forall|i: int|
            0 <= i < m.query_positions.len() ==> region_of(m).start_pos
                <= #[trigger] m.query_positions[i] <= region_of(m).end_pos,
        region_of(m).start_line == m.start_line.number(),
        region_of(m).end_line == m.end_line.number(),
{
    lemma_bounds(m.query_positions);
}

proof fn lemma_bounds(positions: Seq<usize>)
    requires
        positions.len() > 0,
    ensures
        positions.contains(least(positions)),
        positions.contains(greatest(positions)),
        forall|i: int|
            0 <= i < positions.len() ==> least(positions) <= #[trigger] positions[i] <= greatest(
                positions,
            ),
    decreases positions.len(),
{
    if positions.len() == 1 {
        assert(positions[0] == least(positions));
    } else {
        let fewer = positions.drop_last();
        lemma_bounds(fewer);
        assert(positions[positions.len() - 1] == positions.last());
        let a = choose|a: int| 0 <= a < fewer.len() && fewer[a] == least(fewer);
        let b = choose|b: int| 0 <= b < fewer.len() && fewer[b] == greatest(fewer);
        assert(positions[a] == least(fewer) && positions[b] == greatest(fewer));
        assert forall|i: int| 0 <= i < positions.len() implies least(positions)
            <= #[trigger] positions[i] <= greatest(positions) by {
            if i < fewer.len() {
                assert(fewer[i] == positions[i]);
            }
        }
    }
}

/// Pieces as they show.
pub open spec fn shown_pieces(pieces: Seq<PieceView>, matched: Seq<usize>, mark: bool) -> Seq<
    Seq<char>,
> {
    pieces.map_values(|p: PieceView| shown_piece(p, matched, mark))
}

/// A word that is not matched shows in brackets where such words are marked;
/// everything else shows as it is.
pub proof fn law_only_unmatched_words_are_marked(p: PieceView, matched: Seq<usize>, mark: bool)
    ensures
        !mark ==> shown_piece(p, matched, mark) == p.value,
        !p.is_text ==> shown_piece(p, matched, mark) == p.value,
        p.position is Some && matched.contains(p.position->0) ==> shown_piece(p, matched, mark)
            == p.value,
        mark && p.is_text && (p.position is None || !matched.contains(p.position->0))
            ==> shown_piece(p, matched, mark) == "["@ + p.value + "]"@,
{
    reveal_strlit("[");
    reveal_strlit("]");
    assert("["@ == seq!['[']);
    assert("]"@ == seq![']']);
}

/// The text of a region is made of the pieces from its first position to its last,
/// all of them and in their order, where all pieces stand on its lines.
pub proof fn law_region_is_its_pieces(
    q: QueryView,
    matched: Seq<usize>,
    region: Region,
    mark: bool,
    first: int,
    last: int,
)
    requires
        0 <= first <= last < q.pieces.len(),
        forall|k: int|
            0 <= k < q.pieces.len() ==> region.start_line <= (#[trigger] q.pieces[k]).line
                <= region.end_line,
        q.pieces[first].position == Some(region.start_pos),
        forall|k: int|
            0 <= k < first ==> (#[trigger] q.pieces[k]).position != Some(region.start_pos),
        q.pieces[last].position == Some(region.end_pos),
        forall|k: int|
            first <= k < last ==> (#[trigger] q.pieces[k]).position != Some(region.end_pos),
    ensures
        region_text(q, matched, region, mark) == text::concatenated(
            shown_pieces(q.pieces.subrange(first, last + 1), matched, mark),
        ),
{
    lemma_region_steps(q.pieces, matched, region, mark, first, last, q.pieces.len() as int);
    assert(q.pieces.take(q.pieces.len() as int) == q.pieces);
}

proof fn lemma_region_steps(
    pieces: Seq<PieceView>,
    matched: Seq<usize>,
    region: Region,
    mark: bool,
    first: int,
    last: int,
    n: int,
)
    requires
        0 <= first <= last < pieces.len(),
        0 <= n <= pieces.len(),
        forall|k: int|
            0 <= k < pieces.len() ==> region.start_line <= (#[trigger] pieces[k]).line
                <= region.end_line,
        pieces[first].position == Some(region.start_pos),
        forall|k: int| 0 <= k < first ==> (#[trigger] pieces[k]).position != Some(region.start_pos),
        pieces[last].position == Some(region.end_pos),
        forall|k: int| first <= k < last ==> (#[trigger] pieces[k]).position != Some(region.end_pos),
    ensures
        ({
            let state = after_pieces(pieces.take(n), matched, region, mark);
            if n <= first {
                state.text.len() == 0 && !state.started && !state.finished
            } else if n <= last {
                state.started && !state.finished && state.text == text::concatenated(
                    shown_pieces(pieces.subrange(first, n), matched, mark),
                )
            } else {
                state.finished && state.text == text::concatenated(
                    shown_pieces(pieces.subrange(first, last + 1), matched, mark),
                )
            }
        }),
    decreases n,
{
    if n > 0 {
        let now = pieces.take(n);
        let p = pieces[n - 1];
        lemma_region_steps(pieces, matched, region, mark, first, last, n - 1);
        assert(now.drop_last() == pieces.take(n - 1));
        assert(now.last() == p);
        let before = after_pieces(pieces.take(n - 1), matched, region, mark);
        if first < n <= last + 1 {
            let then = shown_pieces(pieces.subrange(first, n - 1), matched, mark);
            let shown = shown_pieces(pieces.subrange(first, n), matched, mark);
            assert(shown.drop_last() == then);
            assert(shown.last() == shown_piece(p, matched, mark));
            if n - 1 == first {
                assert(then == Seq::<Seq<char>>::empty());
                assert(text::concatenated(then) == Seq::<char>::empty());
                assert(before.text == Seq::<char>::empty());
            }
        }
    } else {
        assert(pieces.take(0) == Seq::<PieceView>::empty());
    }
}

/// Pieces on other lines than those of a region do not show in its text.
pub proof fn law_other_lines_do_not_show(
    pieces: Seq<PieceView>,
    matched: Seq<usize>,
    region: Region,
    mark: bool,
)
    ensures
        after_pieces(
            pieces.filter(|p: PieceView| region.start_line <= p.line <= region.end_line),
            matched,
            region,
            mark,
        ).text == after_pieces(pieces, matched, region, mark).text,
{
    lemma_other_lines(pieces, matched, region, mark);
}

proof fn lemma_other_lines(
    pieces: Seq<PieceView>,
    matched: Seq<usize>,
    region: Region,
    mark: bool,
)
    ensures
        after_pieces(
            pieces.filter(|p: PieceView| region.start_line <= p.line <= region.end_line),
            matched,
            region,
            mark,
        ) == after_pieces(pieces, matched, region, mark),
    decreases pieces.len(),
{
    reveal(Seq::filter);
    let near = |p: PieceView| region.start_line <= p.line <= region.end_line;
    if pieces.len() > 0 {
        let before = pieces.drop_last().filter(near);
        lemma_other_lines(pieces.drop_last(), matched, region, mark);
        if near(pieces.last()) {
            assert(before.push(pieces.last()).drop_last() == before);
        }
    }
}

proof fn lemma_positions_of_matches(matches: Seq<models::LicenseMatchView>, position: usize)
    ensures
        positions_of_matches(matches).contains(position) == exists|j: int|
            0 <= j < matches.len() && (#[trigger] matches[j]).query_positions.contains(position),
    decreases matches.len(),
{
    if matches.len() > 0 {
        let fewer = matches.drop_last();
        lemma_positions_of_matches(fewer, position);
        assert(matches[matches.len() - 1] == matches.last());
        if positions_of_matches(fewer).contains(position) {
            let j = choose|j: int|
                0 <= j < fewer.len() && (#[trigger] fewer[j]).query_positions.contains(position);
            assert(matches[j].query_positions.contains(position));
        }
        if exists|j: int|
            0 <= j < matches.len() && (#[trigger] matches[j]).query_positions.contains(position) {
            let j = choose|j: int|
                0 <= j < matches.len() && (#[trigger] matches[j]).query_positions.contains(
                    position,
                );
            if j < fewer.len() {
                assert(fewer[j].query_positions.contains(position));
            }
        }
    }
}

/// One of the matches of a detection covers a position.
pub open spec fn covers(d: models::InternalDetectionView, position: usize) -> bool {
    exists|j: int|
        0 <= j < d.matches.len() && (#[trigger] d.matches[j]).query_positions.contains(position)
}

/// The positions that count as license text are those that a match of a detection
/// covers, each once.
pub proof fn law_covered_positions(ds: Seq<models::InternalDetectionView>, position: usize)
    ensures
        positions_of(ds).contains(position) == exists|i: int|
            0 <= i < ds.len() && covers(#[trigger] ds[i], position),
    decreases ds.len(),
{
    if ds.len() > 0 {
        let fewer = ds.drop_last();
        law_covered_positions(fewer, position);
        lemma_positions_of_matches(ds.last().matches, position);
        assert(ds[ds.len() - 1] == ds.last());
        if positions_of(fewer).contains(position) {
            let i = choose|i: int| 0 <= i < fewer.len() && covers(#[trigger] fewer[i], position);
            assert(covers(ds[i], position));
        }
        if exists|i: int| 0 <= i < ds.len() && covers(#[trigger] ds[i], position) {
            let i = choose|i: int| 0 <= i < ds.len() && covers(#[trigger] ds[i], position);
            if i < fewer.len() {
                assert(covers(fewer[i], position));
            }
        }
    }
}

/// The lines of a match are those of the query, where there is one, and those of
/// the file, where there is none: with a query that knows no words, the file does
/// not matter for lines of normal length.
pub proof fn law_lines_come_from_the_query(
    m: models::LicenseMatchView,
    content: Seq<char>,
    other: Seq<char>,
    q: QueryView,
)
    requires
        forall|i: int|
            m.start_line.number() <= i + 1 <= m.end_line.number() && 0 <= i < text::lines_of(
                q.text,
            ).len() ==> text::byte_len(#[trigger] text::lines_of(q.text)[i]) <= 10_000,
    ensures
        source_text(Some(q), content) == q.text,
        source_text(None, content) == content,
        output_text(m, content, Some(q)) == output_text(m, other, Some(q)),
{
    matched_text::law_short_lines_are_not_cut(
        q.text,
        m.start_line.number(),
        m.end_line.number(),
        10_000,
    );
}

/// The diagnostic text of a match shows its words and marks the others; a match
/// without words shows the lines of the query, none longer than 10,000 bytes.
pub proof fn law_diagnostic_text(m: models::LicenseMatchView, q: QueryView)
    ensures
        m.query_positions.len() > 0 && text::byte_len(
            region_text(q, m.query_positions, region_of(m), true),
        ) <= 131_072 ==> diagnostic_text(m, q) == region_text(
            q,
            m.query_positions,
            region_of(m),
            true,
        ),
        m.query_positions.len() > 0 ==> text::byte_len(diagnostic_text(m, q)) <= 131_072,
        m.query_positions.len() == 0 ==> matched_text::lines_fit(diagnostic_text(m, q), 10_000),
        m.query_positions.len() == 0 && (forall|i: int|
            m.start_line.number() <= i + 1 <= m.end_line.number() && 0 <= i < text::lines_of(
                q.text,
            ).len() ==> text::byte_len(#[trigger] text::lines_of(q.text)[i]) <= 10_000)
            ==> diagnostic_text(m, q) == matched_text::lines_between(
            q.text,
            m.start_line.number(),
            m.end_line.number(),
        ),
{
    let start = m.start_line.number();
    let end = m.end_line.number();
    matched_text::law_capped_fits(region_text(q, m.query_positions, region_of(m), true));
    matched_text::law_capped_lines_fit(q.text, start, end, 10_000);
    if forall|i: int|
        start <= i + 1 <= end && 0 <= i < text::lines_of(q.text).len() ==> text::byte_len(
            #[trigger] text::lines_of(q.text)[i],
        ) <= 10_000 {
        matched_text::law_short_lines_are_not_cut(q.text, start, end, 10_000);
    }
}

} // verus!
