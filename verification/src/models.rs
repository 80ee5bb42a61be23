//! License matches and detections, as the detection engine reports them and as
//! the scan output shows them.
use vstd::prelude::*;

use crate::text;

verus! {

/// A line number, counted from one.
#[derive(Clone, Copy, Debug, PartialEq, Eq, Structural)]
pub struct LineNumber {
    value: usize,
}

impl LineNumber {
    #[verifier::type_invariant]
    spec fn positive(self) -> bool {
        self.value >= 1
    }

    /// The number of the line.
    pub closed spec fn number(self) -> nat {
        self.value as nat
    }

    /// The line with the given number.
    pub closed spec fn at(number: nat) -> LineNumber {
        LineNumber { value: number as usize }
    }

    /// The line at a number has that number.
    pub proof fn lemma_number_of_line_at(number: nat)
        requires
            1 <= number <= usize::MAX,
        ensures
            LineNumber::at(number).number() == number,
    {
    }

    /// The line with a number; there is none with the number zero.
    pub fn new(value: usize) -> (line: Option<LineNumber>)
        ensures
            line is Some == (value >= 1),
            line is Some ==> line->0.number() == value && line->0 == LineNumber::at(value as nat),
    {
        if value >= 1 {
            Some(LineNumber { value })
        } else {
            None
        }
    }

    /// The first line.
    pub fn one() -> (line: LineNumber)
        ensures
            line.number() == 1,
    {
        LineNumber { value: 1 }
    }

    /// The number of the line.
    pub fn get(&self) -> (value: usize)
        ensures
            value == self.number(),
            value >= 1,
    {
        proof {
            use_type_invariant(self);
        }
        self.value
    }
}

/// The matcher that found a license match.
#[derive(Clone, Copy, Debug, PartialEq, Eq, Structural)]
pub enum MatcherKind {
    Hash,
    SpdxId,
    Aho,
    Sequence,
    Unknown,
    ParserDeclared,
}

/// The kind of rule that a license match comes from.
#[derive(Clone, Copy, Debug, PartialEq, Eq, Structural)]
pub enum RuleKind {
    Text,
    Notice,
    Reference,
    Tag,
    Intro,
    Clue,
}

/// A score in hundredths of a percent.
#[derive(Clone, Copy, Debug, PartialEq, Eq, Structural)]
pub struct MatchScore {
    pub hundredths: u32,
}

/// The part of a rule that a match covers, in units of 10^-12 percent, rounded
/// down. Every bound that a coverage is held against is a multiple of the unit,
/// so that rounding down changes no decision.
#[derive(Clone, Copy, Debug, PartialEq, Eq, Structural)]
pub struct Coverage {
    pub picos: u64,
}

/// A license match in the scan output.
#[derive(Debug)]
pub struct Match {
    pub license_expression: String,
    pub license_expression_spdx: String,
    pub from_file: Option<String>,
    pub start_line: LineNumber,
    pub end_line: LineNumber,
    pub matcher: MatcherKind,
    pub score: MatchScore,
    pub matched_length: Option<usize>,
    /// In hundredths of a percent.
    pub match_coverage: Option<u64>,
    pub rule_relevance: Option<u8>,
    pub rule_identifier: String,
    pub rule_url: Option<String>,
    pub matched_text: Option<String>,
    pub referenced_filenames: Option<Vec<String>>,
    pub matched_text_diagnostics: Option<String>,
}

/// What a [`Match`] holds.
#[verifier::ext_equal]
pub struct MatchView {
    pub license_expression: Seq<char>,
    pub license_expression_spdx: Seq<char>,
    pub from_file: Option<Seq<char>>,
    pub start_line: LineNumber,
    pub end_line: LineNumber,
    pub matcher: MatcherKind,
    pub score: MatchScore,
    pub matched_length: Option<usize>,
    pub match_coverage: Option<u64>,
    pub rule_relevance: Option<u8>,
    pub rule_identifier: Seq<char>,
    pub rule_url: Option<Seq<char>>,
    pub matched_text: Option<Seq<char>>,
    pub referenced_filenames: Option<Seq<Seq<char>>>,
    pub matched_text_diagnostics: Option<Seq<char>>,
}

/// The view of an optional list of strings.
pub open spec fn opt_texts(list: Option<Vec<String>>) -> Option<Seq<Seq<char>>> {
    match list {
        Some(v) => Some(text::texts(v@)),
        None => None,
    }
}

impl View for Match {
    type V = MatchView;

    open spec fn view(&self) -> MatchView {
        MatchView {
            license_expression: self.license_expression@,
            license_expression_spdx: self.license_expression_spdx@,
            from_file: text::opt_text(self.from_file),
            start_line: self.start_line,
            end_line: self.end_line,
            matcher: self.matcher,
            score: self.score,
            matched_length: self.matched_length,
            match_coverage: self.match_coverage,
            rule_relevance: self.rule_relevance,
            rule_identifier: self.rule_identifier@,
            rule_url: text::opt_text(self.rule_url),
            matched_text: text::opt_text(self.matched_text),
            referenced_filenames: opt_texts(self.referenced_filenames),
            matched_text_diagnostics: text::opt_text(self.matched_text_diagnostics),
        }
    }
}

/// The views of a sequence of matches.
pub open spec fn match_views(matches: Seq<Match>) -> Seq<MatchView> {
    matches.map_values(|m: Match| m@)
}

/// A license detection in the scan output.
#[derive(Debug)]
pub struct PublicLicenseDetection {
    pub license_expression: String,
    pub license_expression_spdx: String,
    pub matches: Vec<Match>,
    pub detection_log: Vec<String>,
    /// Empty where no identifier has been assigned.
    pub identifier: String,
}

/// What a [`PublicLicenseDetection`] holds.
#[verifier::ext_equal]
pub struct DetectionView {
    pub license_expression: Seq<char>,
    pub license_expression_spdx: Seq<char>,
    pub matches: Seq<MatchView>,
    pub detection_log: Seq<Seq<char>>,
    pub identifier: Seq<char>,
}

impl View for PublicLicenseDetection {
    type V = DetectionView;

    open spec fn view(&self) -> DetectionView {
        DetectionView {
            license_expression: self.license_expression@,
            license_expression_spdx: self.license_expression_spdx@,
            matches: match_views(self.matches@),
            detection_log: text::texts(self.detection_log@),
            identifier: self.identifier@,
        }
    }
}

/// The views of a sequence of detections.
pub open spec fn detection_views(detections: Seq<PublicLicenseDetection>) -> Seq<DetectionView> {
    detections.map_values(|d: PublicLicenseDetection| d@)
}

/// A license match of the detection engine.
#[derive(Debug)]
pub struct LicenseMatch {
    pub license_expression: String,
    pub license_expression_spdx: Option<String>,
    pub from_file: Option<String>,
    pub start_line: LineNumber,
    pub end_line: LineNumber,
    pub matcher: MatcherKind,
    pub score: MatchScore,
    pub matched_length: usize,
    pub coverage: Coverage,
    pub rule_relevance: u8,
    pub rule_identifier: String,
    pub rule_url: String,
    pub matched_text: Option<String>,
    pub referenced_filenames: Option<Vec<String>>,
    pub rule_kind: RuleKind,
    /// The positions of the matched tokens in the query.
    pub query_positions: Vec<usize>,
}

/// What a [`LicenseMatch`] holds.
#[verifier::ext_equal]
pub struct LicenseMatchView {
    pub license_expression: Seq<char>,
    pub license_expression_spdx: Option<Seq<char>>,
    pub from_file: Option<Seq<char>>,
    pub start_line: LineNumber,
    pub end_line: LineNumber,
    pub matcher: MatcherKind,
    pub score: MatchScore,
    pub matched_length: usize,
    pub coverage: Coverage,
    pub rule_relevance: u8,
    pub rule_identifier: Seq<char>,
    pub rule_url: Seq<char>,
    pub matched_text: Option<Seq<char>>,
    pub referenced_filenames: Option<Seq<Seq<char>>>,
    pub rule_kind: RuleKind,
    pub query_positions: Seq<usize>,
}

impl View for LicenseMatch {
    type V = LicenseMatchView;

    open spec fn view(&self) -> LicenseMatchView {
        LicenseMatchView {
            license_expression: self.license_expression@,
            license_expression_spdx: text::opt_text(self.license_expression_spdx),
            from_file: text::opt_text(self.from_file),
            start_line: self.start_line,
            end_line: self.end_line,
            matcher: self.matcher,
            score: self.score,
            matched_length: self.matched_length,
            coverage: self.coverage,
            rule_relevance: self.rule_relevance,
            rule_identifier: self.rule_identifier@,
            rule_url: self.rule_url@,
            matched_text: text::opt_text(self.matched_text),
            referenced_filenames: opt_texts(self.referenced_filenames),
            rule_kind: self.rule_kind,
            query_positions: self.query_positions@,
        }
    }
}

/// The views of a sequence of engine matches.
pub open spec fn license_match_views(matches: Seq<LicenseMatch>) -> Seq<LicenseMatchView> {
    matches.map_values(|m: LicenseMatch| m@)
}

/// A license detection of the detection engine.
#[derive(Debug)]
pub struct InternalLicenseDetection {
    pub license_expression: Option<String>,
    pub license_expression_spdx: Option<String>,
    pub matches: Vec<LicenseMatch>,
    pub detection_log: Vec<String>,
    pub identifier: Option<String>,
}

/// What an [`InternalLicenseDetection`] holds.
#[verifier::ext_equal]
pub struct InternalDetectionView {
    pub license_expression: Option<Seq<char>>,
    pub license_expression_spdx: Option<Seq<char>>,
    pub matches: Seq<LicenseMatchView>,
    pub detection_log: Seq<Seq<char>>,
    pub identifier: Option<Seq<char>>,
}

impl View for InternalLicenseDetection {
    type V = InternalDetectionView;

    open spec fn view(&self) -> InternalDetectionView {
        InternalDetectionView {
            license_expression: text::opt_text(self.license_expression),
            license_expression_spdx: text::opt_text(self.license_expression_spdx),
            matches: license_match_views(self.matches@),
            detection_log: text::texts(self.detection_log@),
            identifier: text::opt_text(self.identifier),
        }
    }
}

/// The views of a sequence of engine detections.
pub open spec fn internal_detection_views(detections: Seq<InternalLicenseDetection>) -> Seq<
    InternalDetectionView,
> {
    detections.map_values(|d: InternalLicenseDetection| d@)
}

/// What of a match and of its text goes into the scan output.
#[derive(Clone, Copy, Debug, PartialEq, Eq, Structural)]
pub struct LicenseScanOptions {
    pub include_text: bool,
    pub include_text_diagnostics: bool,
    pub include_diagnostics: bool,
    pub unknown_licenses: bool,
    pub enable_sequence_matching: bool,
    pub min_score: u8,
}

impl Default for LicenseScanOptions {
    /// Every match of the engine, sequence matches included, without text and
    /// diagnostics.
    fn default() -> (r: Self)
        ensures
            r == (LicenseScanOptions {
                include_text: false,
                include_text_diagnostics: false,
                include_diagnostics: false,
                unknown_licenses: false,
                enable_sequence_matching: true,
                min_score: 0,
            }),
    {
        LicenseScanOptions {
            include_text: false,
            include_text_diagnostics: false,
            include_diagnostics: false,
            unknown_licenses: false,
            enable_sequence_matching: true,
            min_score: 0,
        }
    }
}

/// A copy of an optional string.
pub fn copy_opt(text: &Option<String>) -> (r: Option<String>)
    ensures
        text::opt_text(r) == text::opt_text(*text),
{
    match text {
        Some(s) => Some(s.clone()),
        None => None,
    }
}

/// A copy of a list of strings.
pub fn copy_strings(list: &Vec<String>) -> (r: Vec<String>)
    ensures
        text::texts(r@) == text::texts(list@),
{
    let mut r: Vec<String> = Vec::new();
    let mut i: usize = 0;
    while i < list.len()
        invariant
            i <= list@.len(),
            text::texts(r@) == text::texts(list@.take(i as int)),
        decreases list@.len() - i,
    {
        let ghost before = r@;
        r.push(list[i].clone());
        proof {
            assert(text::texts(r@) == text::texts(before).push(list@[i as int]@));
            assert(text::texts(list@.take(i + 1)) == text::texts(list@.take(i as int)).push(
                list@[i as int]@,
            ));
        }
        i = i + 1;
    }
    assert(list@.take(i as int) == list@);
    r
}

/// A copy of an optional list of strings.
pub fn copy_opt_strings(list: &Option<Vec<String>>) -> (r: Option<Vec<String>>)
    ensures
        opt_texts(r) == opt_texts(*list),
{
    match list {
        Some(v) => Some(copy_strings(v)),
        None => None,
    }
}

impl Clone for Match {
    fn clone(&self) -> (r: Self)
        ensures
            r@ == self@,
    {
        Match {
            license_expression: self.license_expression.clone(),
            license_expression_spdx: self.license_expression_spdx.clone(),
            from_file: copy_opt(&self.from_file),
            start_line: self.start_line,
            end_line: self.end_line,
            matcher: self.matcher,
            score: self.score,
            matched_length: self.matched_length,
            match_coverage: self.match_coverage,
            rule_relevance: self.rule_relevance,
            rule_identifier: self.rule_identifier.clone(),
            rule_url: copy_opt(&self.rule_url),
            matched_text: copy_opt(&self.matched_text),
            referenced_filenames: copy_opt_strings(&self.referenced_filenames),
            matched_text_diagnostics: copy_opt(&self.matched_text_diagnostics),
        }
    }
}

/// A copy of a list of matches.
pub fn copy_matches(list: &Vec<Match>) -> (r: Vec<Match>)
    ensures
        match_views(r@) == match_views(list@),
{
    let mut r: Vec<Match> = Vec::new();
    let mut i: usize = 0;
    while i < list.len()
        invariant
            i <= list@.len(),
            match_views(r@) == match_views(list@.take(i as int)),
        decreases list@.len() - i,
    {
        let ghost before = r@;
        r.push(list[i].clone());
        proof {
            assert(match_views(r@) == match_views(before).push(list@[i as int]@));
            assert(match_views(list@.take(i + 1)) == match_views(list@.take(i as int)).push(
                list@[i as int]@,
            ));
        }
        i = i + 1;
    }
    assert(list@.take(i as int) == list@);
    r
}

impl Clone for PublicLicenseDetection {
    fn clone(&self) -> (r: Self)
        ensures
            r@ == self@,
    {
        PublicLicenseDetection {
            license_expression: self.license_expression.clone(),
            license_expression_spdx: self.license_expression_spdx.clone(),
            matches: copy_matches(&self.matches),
            detection_log: copy_strings(&self.detection_log),
            identifier: self.identifier.clone(),
        }
    }
}

/// A copy of a list of positions.
pub fn copy_positions(list: &Vec<usize>) -> (r: Vec<usize>)
    ensures
        r@ == list@,
{
    let mut r: Vec<usize> = Vec::new();
    let mut i: usize = 0;
    while i < list.len()
        invariant
            i <= list@.len(),
            r@ == list@.take(i as int),
        decreases list@.len() - i,
    {
        r.push(list[i]);
        assert(list@.take(i + 1) == list@.take(i as int).push(list@[i as int]));
        i = i + 1;
    }
    assert(list@.take(i as int) == list@);
    r
}

impl Clone for LicenseMatch {
    fn clone(&self) -> (r: Self)
        ensures
            r@ == self@,
    {
        LicenseMatch {
            license_expression: self.license_expression.clone(),
            license_expression_spdx: copy_opt(&self.license_expression_spdx),
            from_file: copy_opt(&self.from_file),
            start_line: self.start_line,
            end_line: self.end_line,
            matcher: self.matcher,
            score: self.score,
            matched_length: self.matched_length,
            coverage: self.coverage,
            rule_relevance: self.rule_relevance,
            rule_identifier: self.rule_identifier.clone(),
            rule_url: self.rule_url.clone(),
            matched_text: copy_opt(&self.matched_text),
            referenced_filenames: copy_opt_strings(&self.referenced_filenames),
            rule_kind: self.rule_kind,
            query_positions: copy_positions(&self.query_positions),
        }
    }
}

/// A copy of a list of engine matches.
pub fn copy_license_matches(list: &Vec<LicenseMatch>) -> (r: Vec<LicenseMatch>)
    ensures
        license_match_views(r@) == license_match_views(list@),
{
    let ghost all = license_match_views(list@);
    let mut r: Vec<LicenseMatch> = Vec::new();
    let mut i: usize = 0;
    while i < list.len()
        invariant
            all == license_match_views(list@),
            i <= list@.len(),
            license_match_views(r@) == all.take(i as int),
        decreases list@.len() - i,
    {
        let ghost before = license_match_views(r@);
        r.push(list[i].clone());
        assert(license_match_views(r@) == before.push(all[i as int]));
        assert(all.take(i + 1) == all.take(i as int).push(all[i as int]));
        i = i + 1;
    }
    assert(all.take(i as int) == all);
    r
}

impl Clone for InternalLicenseDetection {
    fn clone(&self) -> (r: Self)
        ensures
            r@ == self@,
    {
        InternalLicenseDetection {
            license_expression: copy_opt(&self.license_expression),
            license_expression_spdx: copy_opt(&self.license_expression_spdx),
            matches: copy_license_matches(&self.matches),
            detection_log: copy_strings(&self.detection_log),
            identifier: copy_opt(&self.identifier),
        }
    }
}

/// A copy of a list of engine detections.
pub fn copy_internal_detections(list: &Vec<InternalLicenseDetection>) -> (r: Vec<
    InternalLicenseDetection,
>)
    ensures
        internal_detection_views(r@) == internal_detection_views(list@),
{
    let ghost all = internal_detection_views(list@);
    let mut r: Vec<InternalLicenseDetection> = Vec::new();
    let mut i: usize = 0;
    while i < list.len()
        invariant
            all == internal_detection_views(list@),
            i <= list@.len(),
            internal_detection_views(r@) == all.take(i as int),
        decreases list@.len() - i,
    {
        let ghost before = internal_detection_views(r@);
        r.push(list[i].clone());
        assert(internal_detection_views(r@) == before.push(all[i as int]));
        assert(all.take(i + 1) == all.take(i as int).push(all[i as int]));
        i = i + 1;
    }
    assert(all.take(i as int) == all);
    r
}

/// Whether two lists hold the same strings.
pub fn same_strings(a: &Vec<String>, b: &Vec<String>) -> (same: bool)
    ensures
        same == (text::texts(a@) == text::texts(b@)),
{
    if a.len() != b.len() {
        assert(text::texts(a@).len() != text::texts(b@).len());
        return false;
    }
    let mut i: usize = 0;
    while i < a.len()
        invariant
            i <= a@.len(),
            a@.len() == b@.len(),
            forall|j: int| 0 <= j < i ==> a@[j]@ == b@[j]@,
        decreases a@.len() - i,
    {
        if a[i] != b[i] {
            assert(text::texts(a@)[i as int] != text::texts(b@)[i as int]);
            return false;
        }
        i = i + 1;
    }
    assert(text::texts(a@) == text::texts(b@));
    true
}

/// Whether two matches hold the same.
pub fn same_match(a: &Match, b: &Match) -> (same: bool)
    ensures
        same == (a@ == b@),
{
    let same_files = match (&a.referenced_filenames, &b.referenced_filenames) {
        (Some(x), Some(y)) => same_strings(x, y),
        (None, None) => true,
        _ => false,
    };
    a.license_expression == b.license_expression && a.license_expression_spdx
        == b.license_expression_spdx && text::same_opt(&a.from_file, &b.from_file) && a.start_line
        == b.start_line && a.end_line == b.end_line && a.matcher == b.matcher && a.score == b.score
        && a.matched_length == b.matched_length && a.match_coverage == b.match_coverage
        && a.rule_relevance == b.rule_relevance && a.rule_identifier == b.rule_identifier
        && text::same_opt(&a.rule_url, &b.rule_url) && text::same_opt(&a.matched_text, &b.matched_text)
        && same_files && text::same_opt(&a.matched_text_diagnostics, &b.matched_text_diagnostics)
}

} // verus!
