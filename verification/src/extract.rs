//! The license information of one file: from the detections of the engine to
//! the record of the file.
use std::time::Instant;

use vstd::prelude::*;

use crate::context;
use crate::convert;
use crate::declared;
use crate::expression;
use crate::index::LicenseIndex;
use crate::lists;
use crate::models;
use crate::models::{InternalLicenseDetection, LicenseScanOptions, Match, PublicLicenseDetection};
use crate::nix;
use crate::notice;
use crate::paths;
use crate::paths::ScanPath;
use crate::query;
use crate::query::{LicenseDetectionError, LicenseTextCounts, Query};
use crate::reading;
use crate::readme;
use crate::sourcemap;
use crate::spdx;
use crate::text;

verus! {

/// What the license scan finds out about a file.
#[derive(Debug)]
pub struct FileLicenseInfo {
    /// The license of the file, in license keys.
    pub detected_license_expression: Option<String>,
    pub license_detections: Vec<PublicLicenseDetection>,
    pub license_clues: Vec<Match>,
    /// What the percentage of license text is made of.
    pub license_text: Option<LicenseTextCounts>,
}

/// What a [`FileLicenseInfo`] holds.
#[verifier::ext_equal]
pub struct InfoView {
    pub expression: Option<Seq<char>>,
    pub detections: Seq<models::DetectionView>,
    pub clues: Seq<models::MatchView>,
    pub counts: Option<LicenseTextCounts>,
}

impl View for FileLicenseInfo {
    type V = InfoView;

    open spec fn view(&self) -> InfoView {
        InfoView {
            expression: text::opt_text(self.detected_license_expression),
            detections: models::detection_views(self.license_detections@),
            clues: models::match_views(self.license_clues@),
            counts: self.license_text,
        }
    }
}

impl FileLicenseInfo {
    /// The record of a file of which nothing is known.
    pub fn new() -> (info: FileLicenseInfo)
        ensures
            info@ == (InfoView { expression: None, detections: seq![], clues: seq![], counts: None }),
    {
        let info = FileLicenseInfo {
            detected_license_expression: None,
            license_detections: Vec::new(),
            license_clues: Vec::new(),
            license_text: None,
        };
        assert(info@.detections =~= seq![]);
        assert(info@.clues =~= seq![]);
        info
    }
}

/// What went wrong with a file while the scan went on.
#[derive(Debug)]
pub struct ScanDiagnostic {
    pub severity: DiagnosticSeverity,
    pub message: String,
}

/// How much a [`ScanDiagnostic`] matters.
#[derive(Clone, Copy, Debug, PartialEq, Eq, Structural)]
pub enum DiagnosticSeverity {
    Error,
    Warning,
}

impl View for ScanDiagnostic {
    type V = (DiagnosticSeverity, Seq<char>);

    open spec fn view(&self) -> (DiagnosticSeverity, Seq<char>) {
        (self.severity, self.message@)
    }
}

impl ScanDiagnostic {
    /// A diagnostic of an error.
    pub fn error(message: String) -> (d: ScanDiagnostic)
        ensures
            d@ == (DiagnosticSeverity::Error, message@),
    {
        ScanDiagnostic { severity: DiagnosticSeverity::Error, message }
    }
}

pub open spec fn diagnostic_views(ds: Seq<ScanDiagnostic>) -> Seq<(DiagnosticSeverity, Seq<char>)> {
    ds.map_values(|d: ScanDiagnostic| d@)
}

/// Why the scan of a file failed.
#[derive(Debug)]
pub struct FileScanError {
    message: String,
}

impl FileScanError {
    /// What the error says.
    pub closed spec fn said(self) -> Seq<char> {
        self.message@
    }

    /// The license scan took longer than the given seconds.
    pub fn from_license_detection_timeout(seconds: &str) -> (e: FileScanError)
        ensures
            e.said() == timeout_message(seconds@),
    {
        let mut message = "Timeout during license scan (> ".to_owned();
        message.append(seconds);
        message.append("s)");
        FileScanError { message }
    }

    /// What the error says.
    pub fn message(&self) -> (r: String)
        ensures
            r@ == self.said(),
    {
        self.message.clone()
    }
}

/// What a license scan that took too long says.
pub open spec fn timeout_message(seconds: Seq<char>) -> Seq<char> {
    "Timeout during license scan (> "@ + seconds + "s)"@
}

/// What an error of the detection engine says.
pub open spec fn detection_error_text(e: LicenseDetectionError) -> Seq<char> {
    match e {
        LicenseDetectionError::Timeout => "license detection timed out"@,
    }
}

/// The detections that conversion gives, in order.
pub open spec fn shown_detections(
    ds: Seq<models::InternalDetectionView>,
    options: LicenseScanOptions,
    content: Seq<char>,
    q: Option<query::QueryView>,
    urls: Map<Seq<char>, Seq<Seq<char>>>,
) -> Seq<models::DetectionView>
    decreases ds.len(),
{
    if ds.len() == 0 {
        seq![]
    } else {
        let before = shown_detections(ds.drop_last(), options, content, q, urls);
        match convert::converted_detection(ds.last(), options, content, q, Some(urls)).0 {
            Some(d) => before.push(d),
            None => before,
        }
    }
}

/// The clues that conversion gives, in order.
pub open spec fn shown_clues(
    ds: Seq<models::InternalDetectionView>,
    options: LicenseScanOptions,
    content: Seq<char>,
    q: Option<query::QueryView>,
    urls: Map<Seq<char>, Seq<Seq<char>>>,
) -> Seq<models::MatchView>
    decreases ds.len(),
{
    if ds.len() == 0 {
        seq![]
    } else {
        shown_clues(ds.drop_last(), options, content, q, urls) + convert::converted_detection(
            ds.last(),
            options,
            content,
            q,
            Some(urls),
        ).1
    }
}

/// The detections of a file as its record shows them: pruned by their context,
/// with those that a Nix manifest declares and the single licenses of a README
/// choice, without the redundant ones, and collapsed in a source map.
pub open spec fn final_detections(
    shown: Seq<models::DetectionView>,
    path: paths::PathView,
    content: Seq<char>,
    options: LicenseScanOptions,
) -> Seq<models::DetectionView> {
    let pruned = if content.len() == 0 {
        shown
    } else {
        context::context_pruned_all(
            shown,
            text::lines_of(content),
            path.posix,
            options.include_diagnostics,
        )
    };
    let supplemented = pruned + nix::nix_supplement(path, content, pruned);
    let expanded = readme::with_single_choices(path, content, supplemented);
    sourcemap::collapsed(path, readme::without_redundant(path, expanded))
}

/// The clues of a file as its record shows them.
pub open spec fn final_clues(shown: Seq<models::MatchView>, content: Seq<char>) -> Seq<
    models::MatchView,
> {
    if content.len() == 0 {
        shown
    } else {
        context::kept_matches(shown, text::lines_of(content))
    }
}

/// The license of a file with the given detections: the primary one, or all.
pub open spec fn file_expression(ds: Seq<models::DetectionView>) -> Option<Seq<char>> {
    if ds.len() == 0 {
        None
    } else {
        match spdx::primary(sourcemap::keys_listed(ds)) {
            Some(expression) => Some(expression),
            None => spdx::combined(sourcemap::keys_listed(ds)),
        }
    }
}

/// How much of a query the given detections cover.
pub open spec fn text_counts(
    q: Option<query::QueryView>,
    ds: Seq<models::InternalDetectionView>,
) -> Option<LicenseTextCounts> {
    match q {
        Some(read) => Some(
            LicenseTextCounts {
                matched: query::positions_of(ds).len() as usize,
                known: read.tokens.len() as usize,
                unknown: read.unknown_tokens as usize,
            },
        ),
        None => None,
    }
}

/// The record of a file behind its license scan. A license that was known
/// before stays where the scan finds none.
pub open spec fn filled_info(
    before: InfoView,
    ds: Seq<models::InternalDetectionView>,
    q: Option<query::QueryView>,
    content: Seq<char>,
    path: paths::PathView,
    options: LicenseScanOptions,
    urls: Map<Seq<char>, Seq<Seq<char>>>,
) -> InfoView {
    let promoted = notice::promoted_all(path, ds);
    let detections = final_detections(
        shown_detections(promoted, options, content, q, urls),
        path,
        content,
        options,
    );
    InfoView {
        expression: match file_expression(detections) {
            Some(expression) => Some(expression),
            None => before.expression,
        },
        detections,
        clues: final_clues(shown_clues(promoted, options, content, q, urls), content),
        counts: text_counts(q, promoted),
    }
}

fn collect_keys(detections: &Vec<PublicLicenseDetection>) -> (r: Vec<String>)
    ensures
        text::texts(r@) == sourcemap::keys_listed(models::detection_views(detections@)),
{
    let ghost all = sourcemap::keys_listed(models::detection_views(detections@));
    let mut r: Vec<String> = Vec::new();
    let mut i: usize = 0;
    while i < detections.len()
        invariant
            all == sourcemap::keys_listed(models::detection_views(detections@)),
            i <= detections@.len(),
            text::texts(r@) == all.take(i as int),
        decreases detections@.len() - i,
    {
        let ghost before = text::texts(r@);
        r.push(detections[i].license_expression.clone());
        assert(models::detection_views(detections@)[i as int] == detections@[i as int]@);
        assert(text::texts(r@) == before.push(all[i as int]));
        assert(all.take(i + 1) == all.take(i as int).push(all[i as int]));
        i = i + 1;
    }
    assert(all.take(i as int) == all);
    r
}

/// The license of a file with the given detections.
fn select_file_expression(detections: &Vec<PublicLicenseDetection>) -> (r: Option<String>)
    ensures
        text::opt_text(r) == file_expression(models::detection_views(detections@)),
{
    assert(models::detection_views(detections@).len() == detections@.len());
    if detections.len() == 0 {
        return None;
    }
    let keys = collect_keys(detections);
    match spdx::select_primary_license_expression(&keys) {
        Some(expression) => Some(expression),
        None => spdx::combine_license_expressions_preserving_structure(&keys),
    }
}

/// One of the detections has a match.
pub open spec fn any_match(ds: Seq<models::InternalDetectionView>) -> bool {
    exists|i: int| 0 <= i < ds.len() && (#[trigger] ds[i]).matches.len() > 0
}

/// Converts all detections.
fn convert_all(
    detections: &Vec<InternalLicenseDetection>,
    query: Option<&Query>,
    text_content: &str,
    license_options: LicenseScanOptions,
    index: &LicenseIndex,
) -> (r: Result<(Vec<PublicLicenseDetection>, Vec<Match>), LicenseDetectionError>)
    ensures
        !any_match(models::internal_detection_views(detections@)) ==> r is Ok,
        any_match(models::internal_detection_views(detections@)) ==> query::kept_time(
            query::deadline_of(query::opt_query(query)),
            r is Err,
        ),
        r is Ok ==> models::detection_views(r->Ok_0.0@) == shown_detections(
            models::internal_detection_views(detections@),
            license_options,
            text_content@,
            query::opt_query(query),
            index.reference_urls(),
        ),
        r is Ok ==> models::match_views(r->Ok_0.1@) == shown_clues(
            models::internal_detection_views(detections@),
            license_options,
            text_content@,
            query::opt_query(query),
            index.reference_urls(),
        ),
{
    let ghost all = models::internal_detection_views(detections@);
    let ghost q = query::opt_query(query);
    let ghost urls = index.reference_urls();
    let mut shown: Vec<PublicLicenseDetection> = Vec::new();
    let mut clues: Vec<Match> = Vec::new();
    let mut i: usize = 0;
    proof {
        assert(models::detection_views(shown@) =~= shown_detections(
            all.take(0),
            license_options,
            text_content@,
            q,
            urls,
        ));
        assert(models::match_views(clues@) =~= shown_clues(
            all.take(0),
            license_options,
            text_content@,
            q,
            urls,
        ));
    }
    while i < detections.len()
        invariant
            all == models::internal_detection_views(detections@),
            q == query::opt_query(query),
            urls == index.reference_urls(),
            i <= detections@.len(),
            forall|j: int| 0 <= j < i && (#[trigger] all[j]).matches.len() > 0
                ==> query::kept_time(query::deadline_of(q), false),
            models::detection_views(shown@) == shown_detections(
                all.take(i as int),
                license_options,
                text_content@,
                q,
                urls,
            ),
            models::match_views(clues@) == shown_clues(
                all.take(i as int),
                license_options,
                text_content@,
                q,
                urls,
            ),
        decreases detections@.len() - i,
    {
        let ghost shown_before = models::detection_views(shown@);
        let ghost clues_before = clues@;
        proof {
            assert(all[i as int] == detections@[i as int]@);
            assert(all.take(i + 1).drop_last() == all.take(i as int));
            assert(all.take(i + 1).last() == all[i as int]);
            assert(convert::opt_urls(Some(index)) == Some(urls));
        }
        match convert::convert_detection_to_model(
            &detections[i],
            license_options,
            text_content,
            query,
            Some(index),
        ) {
            Ok((converted, mut more)) => {
                let ghost added = more@;
                if let Some(detection) = converted {
                    let ghost view = detection@;
                    shown.push(detection);
                    assert(models::detection_views(shown@) == shown_before.push(view));
                }
                clues.append(&mut more);
                assert(models::match_views(clues@) == models::match_views(clues_before)
                    + models::match_views(added));
            },
            Err(e) => {
                return Err(e);
            },
        }
        i = i + 1;
    }
    assert(all.take(i as int) == all);
    Ok((shown, clues))
}

/// Fills the record of a file from the detections of the engine. Where the
/// deadline of the query passes on the way, the record stays as it was.
pub fn process_successful_detections(
    file_info: &mut FileLicenseInfo,
    detections: &Vec<InternalLicenseDetection>,
    query: Option<&Query>,
    text_content: &str,
    path: &ScanPath,
    license_options: LicenseScanOptions,
    index: &LicenseIndex,
) -> (r: Result<(), LicenseDetectionError>)
    ensures
        query::kept_time(query::deadline_of(query::opt_query(query)), r is Err),
        r is Err ==> *final(file_info) == *old(file_info),
        r is Ok ==> final(file_info)@ == filled_info(
            old(file_info)@,
            models::internal_detection_views(detections@),
            query::opt_query(query),
            text_content@,
            path@,
            license_options,
            index.reference_urls(),
        ),
{
    if let Err(e) = query::check_deadline(query) {
        return Err(e);
    }
    let mut promoted = models::copy_internal_detections(detections);
    notice::promote_legal_notice_low_quality_detections(&mut promoted, path);
    let (mut shown, mut clues) = match convert_all(
        &promoted,
        query,
        text_content,
        license_options,
        index,
    ) {
        Ok(converted) => converted,
        Err(e) => return Err(e),
    };
    context::prune_contextual_short_reference_matches(
        path,
        text_content,
        license_options.include_diagnostics,
        &mut shown,
        &mut clues,
    );
    let mut supplement = nix::supplement_nix_manifest_license_detections(
        path,
        text_content,
        &shown,
    );
    let ghost pruned = shown@;
    let ghost added = supplement@;
    shown.append(&mut supplement);
    assert(models::detection_views(shown@) == models::detection_views(pruned)
        + models::detection_views(added));
    readme::expand_dual_licensed_under_readme_choice_detections(path, text_content, &mut shown);
    readme::prune_redundant_readme_conjunctive_detections(path, &mut shown);
    let shown = sourcemap::collapse_repeated_sourcemap_license_detections(path, shown);
    if let Err(e) = query::check_deadline(query) {
        return Err(e);
    }
    if let Some(expression) = select_file_expression(&shown) {
        file_info.detected_license_expression = Some(expression);
    }
    file_info.license_detections = shown;
    file_info.license_clues = clues;
    file_info.license_text = match query {
        Some(q) => Some(query::count_license_text(q, &promoted)),
        None => None,
    };
    Ok(())
}

/// What the license scan of a file works on.
#[derive(Debug)]
pub struct LicenseExtractionInput<'a> {
    pub path: &'a ScanPath,
    pub text_content: String,
    pub license_options: LicenseScanOptions,
    pub from_binary_strings: bool,
    /// The seconds that the scan may take, as messages show them.
    pub timeout_seconds: String,
    pub deadline: Option<Instant>,
}

/// What the detection engine is asked for.
#[derive(Debug)]
pub struct EngineCall<'a> {
    pub text: &'a str,
    pub unknown_licenses: bool,
    pub from_binary_strings: bool,
    /// The path that the matches are to name. A scan by score under a deadline
    /// leaves it out, and the path is attached to what comes back.
    pub source_path: Option<&'a str>,
    pub enable_sequence_matching: bool,
    /// The least score of a match, where one is asked for.
    pub min_score: Option<u8>,
    pub deadline: Option<Instant>,
}

/// What the query of a file is built from.
#[derive(Debug)]
pub struct QueryCall<'a> {
    pub text: &'a str,
    pub from_binary_strings: bool,
    pub deadline: Option<Instant>,
}

/// A detection engine: the licenses that it knows, how it detects them in a
/// text, and how it reads a text as a query.
pub struct LicenseEngine<'a, D, B> {
    pub index: &'a LicenseIndex,
    pub detect: D,
    pub build_query: B,
}

/// The engine may answer a call with the given detections.
pub open spec fn detects<'a, D>(
    detect: D,
    call: EngineCall<'a>,
    found: Vec<InternalLicenseDetection>,
) -> bool where
    D: FnOnce(EngineCall<'a>) -> Result<Vec<InternalLicenseDetection>, LicenseDetectionError>,
 {
    call_ensures(
        detect,
        (call,),
        Ok::<Vec<InternalLicenseDetection>, LicenseDetectionError>(found),
    )
}

/// The path of the matches is left to be attached.
pub open spec fn attaches_path(input: LicenseExtractionInput) -> bool {
    input.deadline is Some && input.license_options.min_score != 0
}

/// A call asks the engine for what the input says.
pub open spec fn asks_for(call: EngineCall, input: LicenseExtractionInput) -> bool {
    &&& call.text@ == input.text_content@
    &&& call.unknown_licenses == input.license_options.unknown_licenses
    &&& call.from_binary_strings == input.from_binary_strings
    &&& call.source_path is Some == !attaches_path(input)
    &&& call.source_path is Some ==> call.source_path->0@ == input.path@.posix
    &&& call.enable_sequence_matching == input.license_options.enable_sequence_matching
    &&& call.min_score == (if input.license_options.min_score == 0 {
        None
    } else {
        Some(input.license_options.min_score)
    })
    &&& call.deadline == input.deadline
}

/// A call reads the text of the input.
pub open spec fn reads(call: QueryCall, input: LicenseExtractionInput) -> bool {
    call.text@ == input.text_content@ && call.from_binary_strings == input.from_binary_strings
        && call.deadline == input.deadline
}

/// A match with the path of its file.
pub open spec fn with_path(m: models::LicenseMatchView, posix: Seq<char>) -> models::LicenseMatchView {
    if m.from_file is None {
        models::LicenseMatchView { from_file: Some(posix), ..m }
    } else {
        m
    }
}

/// A detection whose matches have the path of their file.
pub open spec fn detection_with_path(
    d: models::InternalDetectionView,
    posix: Seq<char>,
) -> models::InternalDetectionView {
    models::InternalDetectionView {
        matches: d.matches.map_values(|m: models::LicenseMatchView| with_path(m, posix)),
        ..d
    }
}

/// Detections whose matches have the path of their file.
pub open spec fn detections_with_path(
    ds: Seq<models::InternalDetectionView>,
    posix: Seq<char>,
) -> Seq<models::InternalDetectionView> {
    ds.map_values(|d: models::InternalDetectionView| detection_with_path(d, posix))
}

/// The detections of the engine, the path attached where it was left out.
pub open spec fn reported(
    ds: Seq<models::InternalDetectionView>,
    input: LicenseExtractionInput,
) -> Seq<models::InternalDetectionView> {
    if attaches_path(input) {
        detections_with_path(ds, input.path@.posix)
    } else {
        ds
    }
}

/// What a scan leaves behind: the record, the diagnostics, and whether it is
/// done or took too long.
pub open spec fn detected(
    before: InfoView,
    after: InfoView,
    r: Result<(), FileScanError>,
    ds: Seq<models::InternalDetectionView>,
    q: Option<query::QueryView>,
    input: LicenseExtractionInput,
    urls: Map<Seq<char>, Seq<Seq<char>>>,
) -> bool {
    &&& r is Ok ==> after == filled_info(
        before,
        ds,
        q,
        input.text_content@,
        input.path@,
        input.license_options,
        urls,
    )
    &&& r is Err ==> after == before && r->Err_0.said() == timeout_message(input.timeout_seconds@)
    &&& query::kept_time(query::deadline_of(q), r is Err)
}

/// What a scan leaves behind whose engine failed. A failure under a deadline
/// ends the scan of the file; without one it is a diagnostic.
pub open spec fn engine_failed(
    before: Seq<(DiagnosticSeverity, Seq<char>)>,
    after: Seq<(DiagnosticSeverity, Seq<char>)>,
    r: Result<(), FileScanError>,
    error: LicenseDetectionError,
    input: LicenseExtractionInput,
) -> bool {
    if input.deadline is Some {
        r is Err && r->Err_0.said() == timeout_message(input.timeout_seconds@) && after == before
    } else {
        r is Ok && after == before.push(
            (
                DiagnosticSeverity::Error,
                "License detection failed: "@ + detection_error_text(error),
            ),
        )
    }
}

/// What a scan leaves behind whose engine detected, once the query was built,
/// or not. Under a deadline, a query that could not be built ends the scan.
pub open spec fn recorded(
    before: InfoView,
    after: InfoView,
    r: Result<(), FileScanError>,
    ds: Seq<models::InternalDetectionView>,
    built: Result<Query, LicenseDetectionError>,
    input: LicenseExtractionInput,
    urls: Map<Seq<char>, Seq<Seq<char>>>,
) -> bool {
    if input.deadline is Some && built is Err {
        r is Err && after == before && r->Err_0.said() == timeout_message(input.timeout_seconds@)
    } else {
        detected(before, after, r, reported(ds, input), built_query(built), input, urls)
    }
}

/// The view of a query that was built.
pub open spec fn built_query(built: Result<Query, LicenseDetectionError>) -> Option<
    query::QueryView,
> {
    match built {
        Ok(q) => Some(q@),
        Err(_) => None,
    }
}

fn attach_path(m: &mut models::LicenseMatch, posix: &str)
    ensures
        final(m)@ == with_path(old(m)@, posix@),
{
    if m.from_file.is_none() {
        m.from_file = Some(posix.to_owned());
    }
}

fn attach_path_to_matches(matches: &Vec<models::LicenseMatch>, posix: &str) -> (r: Vec<
    models::LicenseMatch,
>)
    ensures
        models::license_match_views(r@) == models::license_match_views(matches@).map_values(
            |m: models::LicenseMatchView| with_path(m, posix@),
        ),
{
    let ghost all = models::license_match_views(matches@).map_values(
        |m: models::LicenseMatchView| with_path(m, posix@),
    );
    let mut r: Vec<models::LicenseMatch> = Vec::new();
    let mut i: usize = 0;
    while i < matches.len()
        invariant
            all == models::license_match_views(matches@).map_values(
                |m: models::LicenseMatchView| with_path(m, posix@),
            ),
            i <= matches@.len(),
            models::license_match_views(r@) == all.take(i as int),
        decreases matches@.len() - i,
    {
        let ghost before = models::license_match_views(r@);
        let mut m = matches[i].clone();
        attach_path(&mut m, posix);
        r.push(m);
        assert(models::license_match_views(matches@)[i as int] == matches@[i as int]@);
        assert(models::license_match_views(r@) == before.push(all[i as int]));
        assert(all.take(i + 1) == all.take(i as int).push(all[i as int]));
        i = i + 1;
    }
    assert(all.take(i as int) == all);
    r
}

/// Names the path of the file in the matches that name none.
pub fn attach_source_path_to_detections(
    detections: &mut Vec<InternalLicenseDetection>,
    posix: &str,
)
    ensures
        models::internal_detection_views(final(detections)@) == detections_with_path(
            models::internal_detection_views(old(detections)@),
            posix@,
        ),
{
    let ghost all = models::internal_detection_views(detections@);
    let ghost goal = detections_with_path(all, posix@);
    let mut i: usize = 0;
    while i < detections.len()
        invariant
            i <= detections@.len(),
            all.len() == detections@.len(),
            goal == detections_with_path(all, posix@),
            forall|j: int| 0 <= j < i ==> (#[trigger] detections@[j])@ == goal[j],
            forall|j: int| i <= j < detections@.len() ==> (#[trigger] detections@[j])@ == all[j],
        decreases detections@.len() - i,
    {
        let mut detection = detections[i].clone();
        detection.matches = attach_path_to_matches(&detection.matches, posix);
        assert(detection@ == goal[i as int]);
        detections.set(i, detection);
        i = i + 1;
    }
    assert(models::internal_detection_views(detections@) == goal);
}

/// The call that asks the engine for what the input says.
pub fn engine_call<'a>(input: &'a LicenseExtractionInput<'a>) -> (call: EngineCall<'a>)
    ensures
        asks_for(call, *input),
{
    let by_score = input.license_options.min_score != 0;
    EngineCall {
        text: input.text_content.as_str(),
        unknown_licenses: input.license_options.unknown_licenses,
        from_binary_strings: input.from_binary_strings,
        source_path: if input.deadline.is_some() && by_score {
            None
        } else {
            Some(input.path.posix.as_str())
        },
        enable_sequence_matching: input.license_options.enable_sequence_matching,
        min_score: if by_score {
            Some(input.license_options.min_score)
        } else {
            None
        },
        deadline: input.deadline,
    }
}

/// The error of a license scan that took too long.
pub fn license_detection_timeout(timeout_seconds: &str) -> (e: FileScanError)
    ensures
        e.said() == timeout_message(timeout_seconds@),
{
    FileScanError::from_license_detection_timeout(timeout_seconds)
}

/// Notes that the engine failed. A failure under a deadline ends the scan of
/// the file; without one the scan goes on.
pub fn note_engine_failure(
    scan_diagnostics: &mut Vec<ScanDiagnostic>,
    input: &LicenseExtractionInput,
    error: LicenseDetectionError,
) -> (r: Result<(), FileScanError>)
    ensures
        engine_failed(
            diagnostic_views(old(scan_diagnostics)@),
            diagnostic_views(final(scan_diagnostics)@),
            r,
            error,
            *input,
        ),
{
    if input.deadline.is_some() {
        return Err(license_detection_timeout(input.timeout_seconds.as_str()));
    }
    let ghost before = diagnostic_views(scan_diagnostics@);
    let mut message = "License detection failed: ".to_owned();
    match error {
        LicenseDetectionError::Timeout => {
            message.append("license detection timed out");
        },
    }
    let diagnostic = ScanDiagnostic::error(message);
    let ghost view = diagnostic@;
    scan_diagnostics.push(diagnostic);
    assert(diagnostic_views(scan_diagnostics@) == before.push(view));
    Ok(())
}

/// Fills the record of a file from what the engine detected and from the query
/// that was built, or not. Under a deadline, a query that could not be built
/// ends the scan of the file.
pub fn record_detections(
    file_info: &mut FileLicenseInfo,
    input: &LicenseExtractionInput,
    index: &LicenseIndex,
    detections: Vec<InternalLicenseDetection>,
    built: Result<Query, LicenseDetectionError>,
) -> (r: Result<(), FileScanError>)
    ensures
        recorded(
            old(file_info)@,
            final(file_info)@,
            r,
            models::internal_detection_views(detections@),
            built,
            *input,
            index.reference_urls(),
        ),
{
    let mut detections = detections;
    if input.deadline.is_some() && input.license_options.min_score != 0 {
        attach_source_path_to_detections(&mut detections, input.path.posix.as_str());
    }
    if built.is_err() && input.deadline.is_some() {
        return Err(license_detection_timeout(input.timeout_seconds.as_str()));
    }
    let query = match &built {
        Ok(q) => Some(q),
        Err(_) => None,
    };
    match process_successful_detections(
        file_info,
        &detections,
        query,
        input.text_content.as_str(),
        input.path,
        input.license_options,
        index,
    ) {
        Ok(_) => Ok(()),
        Err(_) => Err(license_detection_timeout(input.timeout_seconds.as_str())),
    }
}

/// Scans a file for licenses with an engine and fills its record. The engine is
/// asked once, and the query is built only where it succeeds.
pub fn extract_license_information<'a, D, B>(
    file_info: &mut FileLicenseInfo,
    scan_diagnostics: &mut Vec<ScanDiagnostic>,
    input: &'a LicenseExtractionInput<'a>,
    license_engine: Option<LicenseEngine<'a, D, B>>,
) -> (r: Result<(), FileScanError>) where
    D: FnOnce(EngineCall<'a>) -> Result<Vec<InternalLicenseDetection>, LicenseDetectionError>,
    B: FnOnce(QueryCall<'a>) -> Result<Query, LicenseDetectionError>,

    requires
        license_engine is Some ==> forall|call: EngineCall<'a>|
            asks_for(call, *input) ==> call_requires(license_engine->0.detect, (call,)),
        license_engine is Some ==> forall|
            asked: EngineCall<'a>,
            found: Vec<InternalLicenseDetection>,
            call: QueryCall<'a>,
        |
            asks_for(asked, *input) && #[trigger] detects(
                license_engine->0.detect,
                asked,
                found,
            ) && #[trigger] reads(call, *input) ==> call_requires(
                license_engine->0.build_query,
                (call,),
            ),
    ensures
        license_engine is None ==> r is Ok && final(file_info)@ == old(file_info)@
            && diagnostic_views(final(scan_diagnostics)@) == diagnostic_views(
            old(scan_diagnostics)@,
        ),
        license_engine is Some ==> exists|call: EngineCall<'a>, outcome|
            #![trigger call_ensures(license_engine->0.detect, (call,), outcome)]
            {
                &&& asks_for(call, *input)
                &&& call_ensures(license_engine->0.detect, (call,), outcome)
                &&& outcome is Err ==> final(file_info)@ == old(file_info)@ && engine_failed(
                    diagnostic_views(old(scan_diagnostics)@),
                    diagnostic_views(final(scan_diagnostics)@),
                    r,
                    outcome->Err_0,
                    *input,
                )
                &&& outcome is Ok ==> diagnostic_views(final(scan_diagnostics)@)
                    == diagnostic_views(old(scan_diagnostics)@)
                &&& outcome is Ok ==> exists|reading: QueryCall<'a>, built|
                    #![trigger call_ensures(license_engine->0.build_query, (reading,), built)]
                    {
                        &&& reads(reading, *input)
                        &&& call_ensures(license_engine->0.build_query, (reading,), built)
                        &&& recorded(
                            old(file_info)@,
                            final(file_info)@,
                            r,
                            models::internal_detection_views(outcome->Ok_0@),
                            built,
                            *input,
                            license_engine->0.index.reference_urls(),
                        )
                    }
            },
{
    let engine = match license_engine {
        Some(engine) => engine,
        None => return Ok(()),
    };
    let call = engine_call(input);
    let ghost asked = call;
    let detection_result = (engine.detect)(call);
    let ghost outcome = detection_result;
    assert(call_ensures(engine.detect, (asked,), outcome));
    match detection_result {
        Ok(detections) => {
            let reading = QueryCall {
                text: input.text_content.as_str(),
                from_binary_strings: input.from_binary_strings,
                deadline: input.deadline,
            };
            let ghost read = reading;
            assert(detects(engine.detect, asked, detections));
            assert(reads(read, *input));
            let built = (engine.build_query)(reading);
            assert(call_ensures(engine.build_query, (read,), built));
            record_detections(file_info, input, engine.index, detections, built)
        },
        Err(error) => note_engine_failure(scan_diagnostics, input, error),
    }
}

/// Without a deadline what the engine detected is always recorded.
pub proof fn law_no_deadline_no_failure(
    before: InfoView,
    after: InfoView,
    r: Result<(), FileScanError>,
    ds: Seq<models::InternalDetectionView>,
    q: Option<query::QueryView>,
    input: LicenseExtractionInput,
    urls: Map<Seq<char>, Seq<Seq<char>>>,
)
    requires
        detected(before, after, r, ds, q, input, urls),
        query::deadline_of(q) is None,
    ensures
        r is Ok,
        after == filled_info(
            before,
            ds,
            q,
            input.text_content@,
            input.path@,
            input.license_options,
            urls,
        ),
{
}

/// Without a deadline a failure of the engine does not end the scan of a file: it
/// is one diagnostic more.
pub proof fn law_engine_failure_is_told(
    before: Seq<(DiagnosticSeverity, Seq<char>)>,
    after: Seq<(DiagnosticSeverity, Seq<char>)>,
    r: Result<(), FileScanError>,
    error: LicenseDetectionError,
    input: LicenseExtractionInput,
)
    requires
        engine_failed(before, after, r, error, input),
        input.deadline is None,
    ensures
        r is Ok,
        after.len() == before.len() + 1,
        after.drop_last() == before,
        after.last().0 == DiagnosticSeverity::Error,
        after.last().1 == "License detection failed: "@ + "license detection timed out"@,
{
}

/// With a deadline a failure of the engine, or of the reading of the query, ends the
/// scan of a file with the time that was given, and records nothing.
pub proof fn law_late_scan_is_told(
    before: Seq<(DiagnosticSeverity, Seq<char>)>,
    after: Seq<(DiagnosticSeverity, Seq<char>)>,
    record: InfoView,
    recorded_after: InfoView,
    r: Result<(), FileScanError>,
    ds: Seq<models::InternalDetectionView>,
    error: LicenseDetectionError,
    input: LicenseExtractionInput,
    urls: Map<Seq<char>, Seq<Seq<char>>>,
)
    requires
        input.deadline is Some,
    ensures
        engine_failed(before, after, r, error, input) ==> r is Err && after == before
            && r->Err_0.said() == "Timeout during license scan (> "@ + input.timeout_seconds@
            + "s)"@,
        recorded(record, recorded_after, r, ds, Err(error), input, urls) ==> r is Err
            && recorded_after == record && r->Err_0.said() == "Timeout during license scan (> "@
            + input.timeout_seconds@ + "s)"@,
{
}

/// Every detection has a match.
pub open spec fn all_have_matches(ds: Seq<models::DetectionView>) -> bool {
    forall|i: int| 0 <= i < ds.len() ==> (#[trigger] ds[i]).matches.len() > 0
}

proof fn lemma_pruned_have_matches(
    ds: Seq<models::DetectionView>,
    lines: Seq<Seq<char>>,
    posix: Seq<char>,
    include_diagnostics: bool,
)
    ensures
        all_have_matches(context::context_pruned_all(ds, lines, posix, include_diagnostics)),
    decreases ds.len(),
{
    if ds.len() > 0 {
        lemma_pruned_have_matches(ds.drop_last(), lines, posix, include_diagnostics);
        context::law_context_pruned_has_matches(ds.last(), lines, posix, include_diagnostics);
    }
}

proof fn lemma_supplement_has_matches(
    declarations: Seq<nix::NixDeclarationView>,
    known: Set<Seq<char>>,
)
    ensures
        all_have_matches(nix::supplemented(declarations, known).detections),
    decreases declarations.len(),
{
    if declarations.len() > 0 {
        lemma_supplement_has_matches(declarations.drop_last(), known);
    }
}

proof fn lemma_deduplicated_have_matches(ds: Seq<models::DetectionView>)
    requires
        all_have_matches(ds),
    ensures
        all_have_matches(sourcemap::deduplicated(ds)),
    decreases ds.len(),
{
    if ds.len() > 0 {
        let fewer = ds.drop_last();
        assert forall|i: int| 0 <= i < fewer.len() implies (#[trigger] fewer[i]).matches.len()
            > 0 by {
            assert(fewer[i] == ds[i]);
        }
        lemma_deduplicated_have_matches(fewer);
        let before = sourcemap::deduplicated(fewer);
        let after = sourcemap::deduplicated(ds);
        let last = ds.last();
        assert(ds[ds.len() - 1] == last);
        sourcemap::lemma_first_same_bounds(before, last);
        assert forall|i: int| 0 <= i < after.len() implies (#[trigger] after[i]).matches.len()
            > 0 by {
            match sourcemap::first_same(before, last) {
                Some(k) => {
                    if i == k {
                        sourcemap::law_merged_holds_both(before[k].matches, last.matches);
                    } else {
                        assert(after[i] == before[i]);
                    }
                },
                None => {
                    if i < before.len() {
                        assert(after[i] == before[i]);
                    }
                },
            }
        }
    }
}

proof fn lemma_merged_all_has_matches(ds: Seq<models::DetectionView>)
    requires
        ds.len() > 0,
        all_have_matches(ds),
    ensures
        sourcemap::merged_all(ds).matches.len() > 0,
    decreases ds.len(),
{
    if ds.len() == 1 {
        assert(ds[0].matches.len() > 0);
    } else {
        let fewer = ds.drop_last();
        assert forall|i: int| 0 <= i < fewer.len() implies (#[trigger] fewer[i]).matches.len()
            > 0 by {
            assert(fewer[i] == ds[i]);
        }
        lemma_merged_all_has_matches(fewer);
        sourcemap::law_merged_holds_both(
            sourcemap::merged_all(fewer).matches,
            ds.last().matches,
        );
    }
}

proof fn lemma_one_for_all_has_matches(
    ds: Seq<models::DetectionView>,
    one: models::DetectionView,
)
    requires
        all_have_matches(ds),
        one.matches.len() > 0,
    ensures
        all_have_matches(sourcemap::one_for_all(ds, one)),
    decreases ds.len(),
{
    if ds.len() > 0 {
        let fewer = ds.drop_last();
        assert forall|i: int| 0 <= i < fewer.len() implies (#[trigger] fewer[i]).matches.len()
            > 0 by {
            assert(fewer[i] == ds[i]);
        }
        lemma_one_for_all_has_matches(fewer, one);
        assert(ds[ds.len() - 1] == ds.last());
    }
}

proof fn lemma_collapsed_have_matches(path: paths::PathView, ds: Seq<models::DetectionView>)
    requires
        all_have_matches(ds),
    ensures
        all_have_matches(sourcemap::collapsed(path, ds)),
{
    let once = sourcemap::deduplicated(ds);
    let concrete = sourcemap::concrete_ones(once);
    lemma_deduplicated_have_matches(ds);
    crate::lists::lemma_filter_holds(once, |d: models::DetectionView| sourcemap::concrete(d));
    assert forall|i: int| 0 <= i < concrete.len() implies (#[trigger] concrete[i]).matches.len()
        > 0 by {
        let j = choose|j: int| 0 <= j < once.len() && once[j] == concrete[i];
        assert(once[j].matches.len() > 0);
    }
    if concrete.len() > 1 {
        lemma_merged_all_has_matches(concrete);
        lemma_one_for_all_has_matches(once, sourcemap::combined_detection(concrete));
    }
}

/// Every detection that the record of a file shows has a match that tells where
/// it comes from.
pub proof fn law_recorded_detections_have_matches(
    shown: Seq<models::DetectionView>,
    path: paths::PathView,
    content: Seq<char>,
    options: LicenseScanOptions,
)
    requires
        content.len() > 0 || all_have_matches(shown),
    ensures
        all_have_matches(final_detections(shown, path, content, options)),
{
    let lines = text::lines_of(content);
    lemma_pruned_have_matches(shown, lines, path.posix, options.include_diagnostics);
    let pruned = if content.len() == 0 {
        shown
    } else {
        context::context_pruned_all(shown, lines, path.posix, options.include_diagnostics)
    };
    let added = nix::nix_supplement(path, content, pruned);
    lemma_supplement_has_matches(nix::nix_declarations(content), nix::detected_keys(pruned));
    let supplemented = pruned + added;
    assert forall|i: int| 0 <= i < supplemented.len() implies (
    #[trigger] supplemented[i]).matches.len() > 0 by {
        if i < pruned.len() {
            assert(supplemented[i] == pruned[i]);
        } else {
            assert(supplemented[i] == added[i - pruned.len()]);
        }
    }
    let expanded = readme::with_single_choices(path, content, supplemented);
    readme::law_added_choices_are_single(path, content, supplemented);
    assert forall|i: int| 0 <= i < expanded.len() implies (#[trigger] expanded[i]).matches.len()
        > 0 by {
        if i < supplemented.len() {
            assert(expanded.take(supplemented.len() as int)[i] == expanded[i]);
        } else {
            assert(readme::shows_single(expanded[i]));
        }
    }
    let left = readme::without_redundant(path, expanded);
    readme::law_redundant_only_removes(path, expanded);
    assert forall|i: int| 0 <= i < left.len() implies (#[trigger] left[i]).matches.len() > 0 by {
        assert(expanded.contains(left[i]));
        let j = choose|j: int| 0 <= j < expanded.len() && expanded[j] == left[i];
        assert(expanded[j].matches.len() > 0);
    }
    lemma_collapsed_have_matches(path, left);
}

/// In a file that is no README, no Nix manifest and no source map, detections
/// are pruned by their context and nothing else happens to them.
pub proof fn law_ordinary_files_are_only_pruned(
    shown: Seq<models::DetectionView>,
    path: paths::PathView,
    content: Seq<char>,
    options: LicenseScanOptions,
)
    requires
        !paths::readme_like(path),
        !paths::nix_file(path),
        !paths::sourcemap_like(path),
        content.len() > 0,
    ensures
        final_detections(shown, path, content, options) == context::context_pruned_all(
            shown,
            text::lines_of(content),
            path.posix,
            options.include_diagnostics,
        ),
{
    let pruned = context::context_pruned_all(
        shown,
        text::lines_of(content),
        path.posix,
        options.include_diagnostics,
    );
    assert(pruned + Seq::<models::DetectionView>::empty() == pruned);
}

/// The key expressions of detections.
proof fn lemma_keys_listed(ds: Seq<models::DetectionView>)
    ensures
        sourcemap::keys_listed(ds).len() == ds.len(),
        forall|i: int|
            0 <= i < ds.len() ==> #[trigger] sourcemap::keys_listed(ds)[i]
                == ds[i].license_expression,
{
}

/// The license of a file names every license of its detections, and no other. It
/// is the expression of one of them, or it asks for all of them.
pub proof fn law_file_names_every_license(
    ds: Seq<models::DetectionView>,
    key: Seq<char>,
    granted: Set<Seq<char>>,
)
    requires
        ds.len() > 0,
        forall|i: int|
            0 <= i < ds.len() ==> expression::parsed(
                (#[trigger] ds[i]).license_expression,
            ) is Some,
    ensures
        file_expression(ds) is Some,
        expression::expression_keys(file_expression(ds)->0).contains(key) == exists|i: int|
            0 <= i < ds.len() && expression::expression_keys(
                (#[trigger] ds[i]).license_expression,
            ).contains(key),
        (exists|i: int|
            0 <= i < ds.len() && (#[trigger] ds[i]).license_expression == file_expression(ds)->0)
            || reading::text_met(file_expression(ds)->0, granted) == forall|i: int|
            0 <= i < ds.len() ==> reading::text_met(
                (#[trigger] ds[i]).license_expression,
                granted,
            ),
{
    let listed = sourcemap::keys_listed(ds);
    lemma_keys_listed(ds);
    assert forall|i: int| 0 <= i < listed.len() implies expression::parsed(
        #[trigger] listed[i],
    ) is Some && expression::parsed(text::trim_of(listed[i])) is Some && text::trim_of(
        listed[i],
    ).len() > 0 by {
        assert(expression::parsed(ds[i].license_expression) is Some);
        reading::law_white_space_around_does_not_matter(listed[i]);
    }
    assert(text::trim_of(listed[0]).len() > 0);
    reading::law_combined_where_there_is_one(listed);
    if spdx::primary(listed) is Some {
        reading::law_primary_names_every_license(listed, key);
        let chosen = spdx::primary(listed)->0;
        let i = choose|i: int| 0 <= i < listed.len() && listed[i] == chosen;
        assert(ds[i].license_expression == chosen);
    } else {
        reading::law_combined_names_every_license(listed, key);
        reading::law_combined_asks_for_all(listed, granted);
        if reading::all_met(listed, granted) {
            assert forall|i: int| 0 <= i < ds.len() implies reading::text_met(
                (#[trigger] ds[i]).license_expression,
                granted,
            ) by {
                assert(text::trim_of(listed[i]).len() > 0);
            }
        } else {
            let i = choose|i: int|
                0 <= i < listed.len() && text::trim_of(#[trigger] listed[i]).len() > 0
                    && !reading::text_met(listed[i], granted);
            assert(!reading::text_met(ds[i].license_expression, granted));
        }
    }
    if exists|i: int|
        0 <= i < listed.len() && expression::expression_keys(#[trigger] listed[i]).contains(key) {
        let i = choose|i: int|
            0 <= i < listed.len() && expression::expression_keys(#[trigger] listed[i]).contains(
                key,
            );
        assert(expression::expression_keys(ds[i].license_expression).contains(key));
    }
    if exists|i: int|
        0 <= i < ds.len() && expression::expression_keys(
            (#[trigger] ds[i]).license_expression,
        ).contains(key) {
        let i = choose|i: int|
            0 <= i < ds.len() && expression::expression_keys(
                (#[trigger] ds[i]).license_expression,
            ).contains(key);
        assert(expression::expression_keys(listed[i]).contains(key));
    }
}

/// The license in the record of a file names every license of the detections that
/// the record holds, and no other. Where there are none, it stays as it was.
pub proof fn law_record_names_every_license(
    before: InfoView,
    ds: Seq<models::InternalDetectionView>,
    q: Option<query::QueryView>,
    content: Seq<char>,
    path: paths::PathView,
    options: LicenseScanOptions,
    urls: Map<Seq<char>, Seq<Seq<char>>>,
    key: Seq<char>,
)
    ensures
        ({
            let info = filled_info(before, ds, q, content, path, options, urls);
            &&& info.detections.len() == 0 ==> info.expression == before.expression
            &&& info.detections.len() > 0 && (forall|i: int|
                0 <= i < info.detections.len() ==> expression::parsed(
                    (#[trigger] info.detections[i]).license_expression,
                ) is Some) ==> info.expression is Some && expression::expression_keys(
                info.expression->0,
            ).contains(key) == exists|i: int|
                0 <= i < info.detections.len() && expression::expression_keys(
                    (#[trigger] info.detections[i]).license_expression,
                ).contains(key)
        }),
{
    let info = filled_info(before, ds, q, content, path, options, urls);
    if info.detections.len() > 0 && (forall|i: int|
        0 <= i < info.detections.len() ==> expression::parsed(
            (#[trigger] info.detections[i]).license_expression,
        ) is Some) {
        law_file_names_every_license(info.detections, key, Set::empty());
    }
}

/// Detections are shown one by one and in their order, and so are clues.
pub proof fn law_detections_are_shown_one_by_one(
    a: Seq<models::InternalDetectionView>,
    d: models::InternalDetectionView,
    options: LicenseScanOptions,
    content: Seq<char>,
    q: Option<query::QueryView>,
    urls: Map<Seq<char>, Seq<Seq<char>>>,
)
    ensures
        ({
            let (shown, clues) = convert::converted_detection(d, options, content, q, Some(urls));
            let before = shown_detections(a, options, content, q, urls);
            let all = a.push(d);
            &&& shown is Some ==> shown_detections(all, options, content, q, urls) == before.push(
                shown->0,
            )
            &&& shown is None ==> shown_detections(all, options, content, q, urls) == before
            &&& shown_clues(all, options, content, q, urls) == shown_clues(
                a,
                options,
                content,
                q,
                urls,
            ) + clues
        }),
{
    assert(a.push(d).drop_last() == a);
}

proof fn lemma_all_shown(
    ds: Seq<models::InternalDetectionView>,
    options: LicenseScanOptions,
    content: Seq<char>,
    q: Option<query::QueryView>,
    urls: Map<Seq<char>, Seq<Seq<char>>>,
)
    requires
        forall|i: int| 0 <= i < ds.len() ==> (#[trigger] ds[i]).license_expression is Some,
    ensures
        ({
            let shown = shown_detections(ds, options, content, q, urls);
            &&& shown.len() == ds.len()
            &&& shown_clues(ds, options, content, q, urls).len() == 0
            &&& forall|i: int|
                0 <= i < ds.len() ==> Some(#[trigger] shown[i]) == convert::converted_detection(
                    ds[i],
                    options,
                    content,
                    q,
                    Some(urls),
                ).0
        }),
    decreases ds.len(),
{
    if ds.len() > 0 {
        let fewer = ds.drop_last();
        assert forall|i: int| 0 <= i < fewer.len() implies (
        #[trigger] fewer[i]).license_expression is Some by {
            assert(fewer[i] == ds[i]);
        }
        assert(ds[ds.len() - 1] == ds.last());
        lemma_all_shown(fewer, options, content, q, urls);
        let before = shown_detections(fewer, options, content, q, urls);
        let shown = shown_detections(ds, options, content, q, urls);
        assert forall|i: int| 0 <= i < ds.len() implies Some(#[trigger] shown[i])
            == convert::converted_detection(ds[i], options, content, q, Some(urls)).0 by {
            if i < fewer.len() {
                assert(shown[i] == before[i]);
            }
        }
    }
}

proof fn lemma_unpruned_stay(
    ds: Seq<models::DetectionView>,
    lines: Seq<Seq<char>>,
    posix: Seq<char>,
    include_diagnostics: bool,
)
    requires
        forall|i: int| 0 <= i < ds.len() ==> (#[trigger] ds[i]).matches.len() > 0,
        forall|i: int, j: int|
            0 <= i < ds.len() && 0 <= j < ds[i].matches.len() ==> !context::pruned_by_context(
                #[trigger] ds[i].matches[j],
                lines,
            ),
    ensures
        context::context_pruned_all(ds, lines, posix, include_diagnostics) == ds,
    decreases ds.len(),
{
    if ds.len() > 0 {
        let fewer = ds.drop_last();
        let d = ds.last();
        assert(ds[ds.len() - 1] == d);
        assert forall|i: int| 0 <= i < fewer.len() implies (#[trigger] fewer[i]).matches.len()
            > 0 by {
            assert(fewer[i] == ds[i]);
        }
        assert forall|i: int, j: int|
            0 <= i < fewer.len() && 0 <= j
                < fewer[i].matches.len() implies !context::pruned_by_context(
            #[trigger] fewer[i].matches[j],
            lines,
        ) by {
            assert(ds[i].matches[j] == fewer[i].matches[j]);
        }
        lemma_unpruned_stay(fewer, lines, posix, include_diagnostics);
        assert forall|j: int| 0 <= j < d.matches.len() implies !context::pruned_by_context(
            #[trigger] d.matches[j],
            lines,
        ) by {
            assert(ds[ds.len() - 1].matches[j] == d.matches[j]);
        }
        context::law_detection_keeps_unpruned_matches(
            d,
            lines,
            posix,
            include_diagnostics,
            Seq::empty(),
        );
        assert(fewer.push(d) == ds);
    }
}

/// Every license that the engine detects in an ordinary file is recorded, on the
/// lines on which it was found: where no match can be pruned by its context, the
/// record has a detection for each of the engine's, in their order, with the
/// license and the lines of each match.
pub proof fn law_every_detection_is_recorded(
    before: InfoView,
    ds: Seq<models::InternalDetectionView>,
    q: Option<query::QueryView>,
    content: Seq<char>,
    path: paths::PathView,
    options: LicenseScanOptions,
    urls: Map<Seq<char>, Seq<Seq<char>>>,
    i: int,
    j: int,
)
    requires
        !paths::readme_like(path),
        !paths::nix_file(path),
        !paths::sourcemap_like(path),
        !paths::legal_notice_like(path),
        forall|k: int|
            0 <= k < ds.len() ==> (#[trigger] ds[k]).license_expression is Some
                && ds[k].matches.len() > 0,
        forall|k: int, l: int|
            0 <= k < ds.len() && 0 <= l < ds[k].matches.len() ==> !context::pruned_by_context(
                convert::converted_match(#[trigger] ds[k].matches[l], options, content, q),
                text::lines_of(content),
            ),
        0 <= i < ds.len(),
        0 <= j < ds[i].matches.len(),
    ensures
        ({
            let info = filled_info(before, ds, q, content, path, options, urls);
            &&& info.detections.len() == ds.len()
            &&& info.clues.len() == 0
            &&& info.detections[i].license_expression == ds[i].license_expression->0
            &&& info.detections[i].matches.len() == ds[i].matches.len()
            &&& info.detections[i].matches[j].license_expression
                == ds[i].matches[j].license_expression
            &&& info.detections[i].matches[j].start_line == ds[i].matches[j].start_line
            &&& info.detections[i].matches[j].end_line == ds[i].matches[j].end_line
        }),
{
    let info = filled_info(before, ds, q, content, path, options, urls);
    let shown = shown_detections(ds, options, content, q, urls);
    let lines = text::lines_of(content);
    assert(notice::promoted_all(path, ds) == ds);
    lemma_all_shown(ds, options, content, q, urls);
    assert forall|k: int| 0 <= k < shown.len() implies (#[trigger] shown[k]).matches
        == convert::converted_matches(ds[k].matches, options, content, q) && shown[k].matches.len()
        > 0 by {
        assert(Some(shown[k]) == convert::converted_detection(
            ds[k],
            options,
            content,
            q,
            Some(urls),
        ).0);
    }
    assert forall|k: int, l: int|
        0 <= k < shown.len() && 0 <= l < shown[k].matches.len() implies !context::pruned_by_context(
        #[trigger] shown[k].matches[l],
        lines,
    ) by {
        assert(shown[k].matches == convert::converted_matches(
            ds[k].matches,
            options,
            content,
            q,
        ));
        assert(shown[k].matches[l] == convert::converted_match(
            ds[k].matches[l],
            options,
            content,
            q,
        ));
    }
    lemma_unpruned_stay(shown, lines, path.posix, options.include_diagnostics);
    assert(shown + Seq::<models::DetectionView>::empty() == shown);
    assert(info.detections == shown);
    let no_clues = shown_clues(ds, options, content, q, urls);
    assert(no_clues == Seq::<models::MatchView>::empty());
    lists::lemma_filter_empty(|m: models::MatchView| !context::pruned_by_context(m, lines));
    convert::law_detection_shows_its_matches(ds[i], options, content, q, Some(urls), j);
    assert(Some(shown[i]) == convert::converted_detection(
        ds[i],
        options,
        content,
        q,
        Some(urls),
    ).0);
}

/// The clues of a record are the matches of the engine's clues that their context
/// does not prune, in their order; without text, none is pruned.
pub proof fn law_recorded_clues(
    before: InfoView,
    ds: Seq<models::InternalDetectionView>,
    q: Option<query::QueryView>,
    content: Seq<char>,
    path: paths::PathView,
    options: LicenseScanOptions,
    urls: Map<Seq<char>, Seq<Seq<char>>>,
    m: models::MatchView,
)
    ensures
        ({
            let info = filled_info(before, ds, q, content, path, options, urls);
            let shown = shown_clues(notice::promoted_all(path, ds), options, content, q, urls);
            &&& lists::in_order(info.clues, shown)
            &&& content.len() == 0 ==> info.clues == shown
            &&& content.len() > 0 ==> info.clues.contains(m) == (shown.contains(m)
                && !context::pruned_by_context(m, text::lines_of(content)))
        }),
{
    let shown = shown_clues(notice::promoted_all(path, ds), options, content, q, urls);
    context::law_unpruned_matches_are_kept(shown, text::lines_of(content), m);
    lists::lemma_in_order_itself(shown);
}

/// How much of a file is license text is counted from the words of the query: all
/// that are known, all that are not, and those that a match of a detection covers,
/// which are no more than are known.
pub proof fn law_license_text_is_counted(
    q: query::QueryView,
    ds: Seq<models::InternalDetectionView>,
)
    requires
        q.tokens.len() <= usize::MAX,
        q.unknown_tokens <= usize::MAX,
        forall|p: usize| #[trigger]
            query::positions_of(ds).contains(p) ==> p < q.tokens.len(),
    ensures
        text_counts(None, ds) is None,
        text_counts(Some(q), ds) is Some,
        text_counts(Some(q), ds)->0.known == q.tokens.len(),
        text_counts(Some(q), ds)->0.unknown == q.unknown_tokens,
        text_counts(Some(q), ds)->0.matched == query::positions_of(ds).len(),
        text_counts(Some(q), ds)->0.matched <= text_counts(Some(q), ds)->0.known,
{
    lemma_bounded_set(query::positions_of(ds), q.tokens.len());
}

proof fn lemma_bounded_set(positions: Set<usize>, n: nat)
    requires
        n <= usize::MAX,
        forall|p: usize| #[trigger] positions.contains(p) ==> p < n,
    ensures
        positions.finite(),
        positions.len() <= n,
    decreases n,
{
    if n == 0 {
        assert(positions =~= Set::<usize>::empty());
    } else {
        let top = (n - 1) as usize;
        let fewer = positions.remove(top);
        assert forall|p: usize| #[trigger] fewer.contains(p) implies p < n - 1 by {
            assert(positions.contains(p));
        }
        lemma_bounded_set(fewer, (n - 1) as nat);
        if positions.contains(top) {
            assert(positions =~= fewer.insert(top));
        } else {
            assert(positions =~= fewer);
        }
    }
}

/// A match that names no file gets that of the scan, and nothing else of a
/// detection changes. This happens only under a deadline with a least score.
pub proof fn law_path_is_attached(
    ds: Seq<models::InternalDetectionView>,
    input: LicenseExtractionInput,
    i: int,
    j: int,
)
    requires
        0 <= i < ds.len(),
        0 <= j < ds[i].matches.len(),
    ensures
        ({
            let after = reported(ds, input);
            let m = after[i].matches[j];
            let was = ds[i].matches[j];
            &&& after.len() == ds.len()
            &&& after[i].license_expression == ds[i].license_expression
            &&& after[i].license_expression_spdx == ds[i].license_expression_spdx
            &&& after[i].detection_log == ds[i].detection_log
            &&& after[i].identifier == ds[i].identifier
            &&& after[i].matches.len() == ds[i].matches.len()
            &&& m.start_line == was.start_line
            &&& m.end_line == was.end_line
            &&& m.license_expression == was.license_expression
            &&& m.query_positions == was.query_positions
            &&& m.matched_text == was.matched_text
            &&& was.from_file is Some ==> m == was
            &&& input.deadline is None || input.license_options.min_score == 0 ==> after == ds
            &&& input.deadline is Some && input.license_options.min_score != 0
                && was.from_file is None ==> m.from_file == Some(input.path@.posix)
        }),
{
}

/// Every license that a Nix expression declares by a known symbol is recorded.
pub proof fn law_declared_licenses_are_recorded(
    shown: Seq<models::DetectionView>,
    path: paths::PathView,
    content: Seq<char>,
    options: LicenseScanOptions,
    i: int,
)
    requires
        path.extension == Some("nix"@),
        !paths::readme_like(path),
        !paths::sourcemap_like(path),
        text::has_text(content, "license ="@),
        0 <= i < nix::nix_declarations(content).len(),
        nix::spdx_of_symbol(nix::nix_declarations(content)[i].symbol) is Some,
        declared::key_of_spdx(
            nix::spdx_of_symbol(nix::nix_declarations(content)[i].symbol)->0,
        ) is Some,
    ensures
        ({
            let all = final_detections(shown, path, content, options);
            let key = declared::key_of_spdx(
                nix::spdx_of_symbol(nix::nix_declarations(content)[i].symbol)->0,
            )->0;
            exists|k: int|
                0 <= k < all.len() && (expression::expression_keys(
                    (#[trigger] all[k]).license_expression,
                ).contains(text::lower(key)) || expression::expression_keys(
                    all[k].license_expression_spdx,
                ).contains(text::lower(key)))
        }),
{
    let pruned = pruned_first(shown, path, content, options);
    let all = pruned + nix::nix_supplement(path, content, pruned);
    nix::law_every_declared_license_is_detected(path, content, pruned, i);
    assert(final_detections(shown, path, content, options) == all);
    let key = declared::key_of_spdx(
        nix::spdx_of_symbol(nix::nix_declarations(content)[i].symbol)->0,
    )->0;
    let k = choose|k: int|
        0 <= k < all.len() && (expression::expression_keys(
            (#[trigger] all[k]).license_expression,
        ).contains(text::lower(key)) || expression::expression_keys(
            all[k].license_expression_spdx,
        ).contains(text::lower(key)));
    assert(final_detections(shown, path, content, options)[k] == all[k]);
}

spec fn pruned_first(
    shown: Seq<models::DetectionView>,
    path: paths::PathView,
    content: Seq<char>,
    options: LicenseScanOptions,
) -> Seq<models::DetectionView> {
    if content.len() == 0 {
        shown
    } else {
        context::context_pruned_all(
            shown,
            text::lines_of(content),
            path.posix,
            options.include_diagnostics,
        )
    }
}

/// A README file records every single license of a choice that it announces: a
/// detection with its expression stands on the lines of the choice, or one shows just
/// that match. This holds where no match is pruned by its context and nothing is
/// redundant.
pub proof fn law_choices_are_recorded(
    shown: Seq<models::DetectionView>,
    path: paths::PathView,
    content: Seq<char>,
    options: LicenseScanOptions,
    i: int,
    j: int,
)
    requires
        path.file_stem is Some,
        text::lower(path.file_stem->0) == "readme"@,
        !paths::nix_file(path),
        !paths::sourcemap_like(path),
        text::has_text(text::lower(content), "dual-licensed under"@) || text::has_text(
            text::lower(content),
            "dual licensed under"@,
        ),
        context::context_pruned_all(
            shown,
            text::lines_of(content),
            path.posix,
            options.include_diagnostics,
        ) == shown,
        forall|k: int|
            0 <= k < readme::with_single_choices(path, content, shown).len() ==> !readme::redundant(
                #[trigger] readme::with_single_choices(path, content, shown)[k],
                readme::with_single_choices(path, content, shown),
            ),
        0 <= i < shown.len(),
        text::has_text(shown[i].license_expression_spdx, " OR "@),
        0 <= j < shown[i].matches.len(),
        ({
            let s = text::trim_of(shown[i].matches[j].license_expression_spdx);
            &&& s.len() > 0
            &&& !text::has_text(s, " OR "@)
            &&& !text::has_text(s, " AND "@)
            &&& !text::has_text(s, " WITH "@)
        }),
    ensures
        readme::shows_choice(
            final_detections(shown, path, content, options),
            shown[i],
            shown[i].matches[j],
        ),
{
    let expanded = readme::with_single_choices(path, content, shown);
    assert(shown + Seq::<models::DetectionView>::empty() == shown);
    readme::law_every_license_of_a_choice_shows(path, content, shown, i, j);
    lists::lemma_filter_all(expanded, |d: models::DetectionView| !readme::redundant(d, expanded));
}

/// A README file records of its detections what its choices leave.
pub proof fn law_readme_records_what_is_left(
    shown: Seq<models::DetectionView>,
    path: paths::PathView,
    options: LicenseScanOptions,
)
    requires
        paths::readme_like(path),
        !paths::nix_file(path),
        !paths::sourcemap_like(path),
    ensures
        final_detections(shown, path, seq![], options) == readme::without_redundant(path, shown),
{
    let nothing = Seq::<char>::empty();
    assert(shown + Seq::<models::DetectionView>::empty() == shown);
    reveal_strlit("dual-licensed under");
    reveal_strlit("dual licensed under");
    assert(text::lower(nothing) =~= nothing);
    assert("dual-licensed under"@.len() > 0 && "dual licensed under"@.len() > 0);
    assert(!readme::announces_choice(nothing));
}

/// A source map records at most one detection that names licenses.
pub proof fn law_source_map_records_one(
    shown: Seq<models::DetectionView>,
    path: paths::PathView,
    content: Seq<char>,
    options: LicenseScanOptions,
)
    requires
        path.file_name is Some,
        text::finishes_with(text::lower(path.file_name->0), ".js.map"@) || text::finishes_with(
            text::lower(path.file_name->0),
            ".css.map"@,
        ),
    ensures
        sourcemap::concrete_ones(final_detections(shown, path, content, options)).len() <= 1,
{
    let pruned = pruned_first(shown, path, content, options);
    let expanded = readme::with_single_choices(
        path,
        content,
        pruned + nix::nix_supplement(path, content, pruned),
    );
    sourcemap::law_collapsed_has_one_concrete(path, readme::without_redundant(path, expanded));
}

/// What is recorded of detections is recorded of them when they are promoted: a
/// second promotion, before the record, would change nothing.
pub proof fn law_promotion_is_recorded(
    before: InfoView,
    ds: Seq<models::InternalDetectionView>,
    q: Option<query::QueryView>,
    content: Seq<char>,
    path: paths::PathView,
    options: LicenseScanOptions,
    urls: Map<Seq<char>, Seq<Seq<char>>>,
)
    ensures
        filled_info(before, ds, q, content, path, options, urls) == filled_info(
            before,
            notice::promoted_all(path, ds),
            q,
            content,
            path,
            options,
            urls,
        ),
{
    notice::law_promoted_all_idempotent(path, ds);
}

/// The engine is asked for the text of the file, under the options and the deadline
/// of the scan, and the query is built from the same text.
pub proof fn law_engine_is_asked_for_the_file(
    call: EngineCall,
    reading: QueryCall,
    input: LicenseExtractionInput,
)
    requires
        asks_for(call, input),
        reads(reading, input),
    ensures
        call.text@ == input.text_content@,
        reading.text@ == call.text@,
        call.deadline == input.deadline,
        reading.deadline == call.deadline,
        call.from_binary_strings == input.from_binary_strings,
        reading.from_binary_strings == call.from_binary_strings,
        call.unknown_licenses == input.license_options.unknown_licenses,
        call.enable_sequence_matching == input.license_options.enable_sequence_matching,
        input.license_options.min_score == 0 ==> call.min_score is None,
        input.license_options.min_score > 0 ==> call.min_score == Some(
            input.license_options.min_score,
        ),
        input.license_options.min_score == 0 || input.deadline is None ==> call.source_path is Some
            && call.source_path->0@ == input.path@.posix,
        input.license_options.min_score > 0 && input.deadline is Some ==> call.source_path is None,
{
}

/// Without a deadline a query that cannot be built does not keep detections from the
/// record.
pub proof fn law_record_needs_no_query(
    before: InfoView,
    after: InfoView,
    r: Result<(), FileScanError>,
    ds: Seq<models::InternalDetectionView>,
    error: LicenseDetectionError,
    input: LicenseExtractionInput,
    urls: Map<Seq<char>, Seq<Seq<char>>>,
)
    requires
        input.deadline is None,
        recorded(before, after, r, ds, Err(error), input, urls),
    ensures
        r is Ok,
        after == filled_info(
            before,
            ds,
            None,
            input.text_content@,
            input.path@,
            input.license_options,
            urls,
        ),
        after.counts is None,
{
}

} // verus!
