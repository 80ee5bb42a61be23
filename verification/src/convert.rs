//! From what the detection engine reports to what the scan output shows.
use vstd::prelude::*;

use crate::expression;
use crate::index::LicenseIndex;
use crate::lists;
use crate::matched_text;
use crate::models;
use crate::models::{
    Coverage, InternalLicenseDetection, LicenseMatch, LicenseScanOptions, Match,
    PublicLicenseDetection,
};
use crate::notice;
use crate::query;
use crate::query::{LicenseDetectionError, Query};
use crate::reading;
use crate::spdx;
use crate::text;

verus! {

/// A hundredth of a percent in the unit of [`Coverage`].
pub const COVERAGE_HUNDREDTH: u64 = 10_000_000_000;

/// A coverage in hundredths of a percent, halves rounded up.
pub open spec fn rounded_coverage(c: Coverage) -> nat {
    (c.picos as nat + (COVERAGE_HUNDREDTH / 2) as nat) / (COVERAGE_HUNDREDTH as nat)
}

/// An SPDX expression in its normal form; nothing where it has none.
pub open spec fn normalized_spdx(s: Option<Seq<char>>) -> Seq<char> {
    match s {
        Some(expression) => {
            let trimmed = text::trim_of(expression);
            if trimmed.len() == 0 {
                seq![]
            } else {
                match spdx::combined_strict(seq![trimmed]) {
                    Some(r) => r,
                    None => seq![],
                }
            }
        },
        None => seq![],
    }
}

/// A match as the scan output shows it.
pub open spec fn converted_match(
    m: models::LicenseMatchView,
    options: LicenseScanOptions,
    content: Seq<char>,
    q: Option<query::QueryView>,
) -> models::MatchView {
    models::MatchView {
        license_expression: m.license_expression,
        license_expression_spdx: normalized_spdx(m.license_expression_spdx),
        from_file: m.from_file,
        start_line: m.start_line,
        end_line: m.end_line,
        matcher: m.matcher,
        score: m.score,
        matched_length: Some(m.matched_length),
        match_coverage: Some(rounded_coverage(m.coverage) as u64),
        rule_relevance: Some(m.rule_relevance),
        rule_identifier: m.rule_identifier,
        rule_url: if m.rule_url.len() == 0 {
            None
        } else {
            Some(m.rule_url)
        },
        matched_text: if options.include_text {
            Some(query::output_text(m, content, q))
        } else {
            None
        },
        referenced_filenames: m.referenced_filenames,
        matched_text_diagnostics: if options.include_text_diagnostics && q is Some {
            Some(query::diagnostic_text(m, q->0))
        } else {
            None
        },
    }
}

pub open spec fn converted_matches(
    matches: Seq<models::LicenseMatchView>,
    options: LicenseScanOptions,
    content: Seq<char>,
    q: Option<query::QueryView>,
) -> Seq<models::MatchView> {
    matches.map_values(|m: models::LicenseMatchView| converted_match(m, options, content, q))
}

/// An address in the form in which addresses are compared.
pub open spec fn normalized_url(s: Seq<char>) -> Seq<char> {
    text::lower(text::trim_end_char_of(text::trim_of(s), '/'))
}

/// The text holds the address.
pub open spec fn mentions_url(normalized: Seq<char>, url: Seq<char>) -> bool {
    normalized_url(url).len() > 0 && text::has_text(normalized, normalized_url(url))
}

/// The text that the address of a license is looked for in.
pub open spec fn reference_text(q: query::QueryView, m: models::LicenseMatchView) -> Seq<char> {
    match m.matched_text {
        Some(held) => held,
        None => matched_text::lines_between(
            q.text,
            m.start_line.number(),
            m.end_line.number(),
        ),
    }
}

/// The text of a match holds a reference address of its license.
pub open spec fn refers_to_license(
    q: query::QueryView,
    m: models::LicenseMatchView,
    urls: Map<Seq<char>, Seq<Seq<char>>>,
) -> bool {
    let normalized = normalized_url(reference_text(q, m));
    urls.contains_key(m.license_expression) && normalized.len() > 0 && exists|i: int|
        0 <= i < urls[m.license_expression].len() && mentions_url(
            normalized,
            #[trigger] urls[m.license_expression][i],
        )
}

/// The matches of a detection that hold a reference address of their license.
pub open spec fn referring_matches(
    matches: Seq<models::LicenseMatchView>,
    q: query::QueryView,
    urls: Map<Seq<char>, Seq<Seq<char>>>,
) -> Seq<models::LicenseMatchView> {
    matches.filter(|m: models::LicenseMatchView| refers_to_license(q, m, urls))
}

/// A clue that is a detection, because it holds a reference address of its license.
pub open spec fn promoted_reference(
    d: models::InternalDetectionView,
    options: LicenseScanOptions,
    content: Seq<char>,
    q: Option<query::QueryView>,
    urls: Map<Seq<char>, Seq<Seq<char>>>,
) -> Option<models::DetectionView> {
    match q {
        Some(read) => {
            let matches = referring_matches(d.matches, read, urls);
            match spdx::combined(notice::match_expressions(matches)) {
                Some(expression) => if matches.len() == 0 {
                    None
                } else {
                    Some(
                        models::DetectionView {
                            license_expression: expression,
                            license_expression_spdx: or_nothing(notice::joint_spdx(matches)),
                            matches: converted_matches(matches, options, content, q),
                            detection_log: if options.include_diagnostics {
                                seq!["promoted-reference-url-license-clue"@]
                            } else {
                                seq![]
                            },
                            identifier: or_nothing(d.identifier),
                        },
                    )
                },
                None => None,
            }
        },
        None => None,
    }
}

pub open spec fn or_nothing(s: Option<Seq<char>>) -> Seq<char> {
    match s {
        Some(t) => t,
        None => seq![],
    }
}

/// A detection as the scan output shows it: a detection, or clues.
pub open spec fn converted_detection(
    d: models::InternalDetectionView,
    options: LicenseScanOptions,
    content: Seq<char>,
    q: Option<query::QueryView>,
    urls: Option<Map<Seq<char>, Seq<Seq<char>>>>,
) -> (Option<models::DetectionView>, Seq<models::MatchView>) {
    let matches = converted_matches(d.matches, options, content, q);
    match d.license_expression {
        Some(expression) => (
            Some(
                models::DetectionView {
                    license_expression: expression,
                    license_expression_spdx: normalized_spdx(d.license_expression_spdx),
                    matches,
                    detection_log: if options.include_diagnostics {
                        d.detection_log
                    } else {
                        seq![]
                    },
                    identifier: or_nothing(d.identifier),
                },
            ),
            seq![],
        ),
        None => {
            let promoted = match urls {
                Some(known) => promoted_reference(d, options, content, q, known),
                None => None,
            };
            if promoted is Some {
                (promoted, seq![])
            } else {
                (None, matches)
            }
        },
    }
}

/// The view of an optional detection.
pub open spec fn opt_detection(d: Option<PublicLicenseDetection>) -> Option<models::DetectionView> {
    match d {
        Some(detection) => Some(detection@),
        None => None,
    }
}

/// The addresses that an optional index knows.
pub open spec fn opt_urls(index: Option<&LicenseIndex>) -> Option<
    Map<Seq<char>, Seq<Seq<char>>>,
> {
    match index {
        Some(known) => Some(known.reference_urls()),
        None => None,
    }
}

/// A coverage in hundredths of a percent, halves rounded up.
pub fn round_coverage(coverage: Coverage) -> (r: u64)
    ensures
        r == rounded_coverage(coverage),
{
    let whole: u64 = coverage.picos / COVERAGE_HUNDREDTH;
    if coverage.picos % COVERAGE_HUNDREDTH >= COVERAGE_HUNDREDTH / 2 {
        whole + 1
    } else {
        whole
    }
}

/// An SPDX expression in its normal form; nothing where it has none.
pub fn normalize_optional_spdx_expression(expression: Option<&str>) -> (r: String)
    ensures
        r@ == normalized_spdx(
            match expression {
                Some(s) => Some(s@),
                None => None,
            },
        ),
{
    let expression = match expression {
        Some(expression) => expression,
        None => return String::new(),
    };
    let chars = text::to_chars(expression);
    let trimmed = text::trim(&chars);
    if trimmed.len() == 0 {
        return String::new();
    }
    let mut expressions: Vec<String> = Vec::new();
    expressions.push(text::to_text(trimmed));
    assert(text::texts(expressions@) == seq![trimmed@]);
    match spdx::combine_license_expressions_preserving_structure_strict(&expressions) {
        Some(normalized) => normalized,
        None => String::new(),
    }
}

fn normalize_held(expression: &Option<String>) -> (r: String)
    ensures
        r@ == normalized_spdx(text::opt_text(*expression)),
{
    match expression {
        Some(s) => normalize_optional_spdx_expression(Some(s.as_str())),
        None => String::new(),
    }
}

/// A match as the scan output shows it.
pub fn convert_match_to_model(
    m: &LicenseMatch,
    license_options: LicenseScanOptions,
    text_content: &str,
    query: Option<&Query>,
) -> (r: Result<Match, LicenseDetectionError>)
    ensures
        query::kept_time(query::deadline_of(query::opt_query(query)), r is Err),
        r is Ok ==> r->Ok_0@ == converted_match(
            m@,
            license_options,
            text_content@,
            query::opt_query(query),
        ),
{
    if let Err(e) = query::check_deadline(query) {
        return Err(e);
    }
    let rule_url = if m.rule_url.as_str().is_empty() {
        None
    } else {
        Some(m.rule_url.clone())
    };
    let shown_text = if license_options.include_text {
        match query::extract_output_matched_text(m, text_content, query) {
            Ok(shown) => Some(shown),
            Err(e) => return Err(e),
        }
    } else {
        None
    };
    let diagnostics = match query {
        Some(q) => if license_options.include_text_diagnostics {
            match query::matched_text_diagnostics_from_match(q, m) {
                Ok(marked) => Some(marked),
                Err(e) => return Err(e),
            }
        } else {
            None
        },
        None => None,
    };
    if let Err(e) = query::check_deadline(query) {
        return Err(e);
    }
    Ok(
        Match {
            license_expression: m.license_expression.clone(),
            license_expression_spdx: normalize_held(&m.license_expression_spdx),
            from_file: models::copy_opt(&m.from_file),
            start_line: m.start_line,
            end_line: m.end_line,
            matcher: m.matcher,
            score: m.score,
            matched_length: Some(m.matched_length),
            match_coverage: Some(round_coverage(m.coverage)),
            rule_relevance: Some(m.rule_relevance),
            rule_identifier: m.rule_identifier.clone(),
            rule_url,
            matched_text: shown_text,
            referenced_filenames: models::copy_opt_strings(&m.referenced_filenames),
            matched_text_diagnostics: diagnostics,
        },
    )
}

fn convert_matches(
    matches: &Vec<LicenseMatch>,
    license_options: LicenseScanOptions,
    text_content: &str,
    query: Option<&Query>,
) -> (r: Result<Vec<Match>, LicenseDetectionError>)
    ensures
        matches@.len() == 0 ==> r is Ok,
        matches@.len() > 0 ==> query::kept_time(
            query::deadline_of(query::opt_query(query)),
            r is Err,
        ),
        r is Ok ==> models::match_views(r->Ok_0@) == converted_matches(
            models::license_match_views(matches@),
            license_options,
            text_content@,
            query::opt_query(query),
        ),
{
    let ghost all = converted_matches(
        models::license_match_views(matches@),
        license_options,
        text_content@,
        query::opt_query(query),
    );
    let mut r: Vec<Match> = Vec::new();
    let mut i: usize = 0;
    while i < matches.len()
        invariant
            all == converted_matches(
                models::license_match_views(matches@),
                license_options,
                text_content@,
                query::opt_query(query),
            ),
            i <= matches@.len(),
            i > 0 ==> query::kept_time(query::deadline_of(query::opt_query(query)), false),
            models::match_views(r@) == all.take(i as int),
        decreases matches@.len() - i,
    {
        let ghost before = models::match_views(r@);
        match convert_match_to_model(&matches[i], license_options, text_content, query) {
            Ok(converted) => {
                r.push(converted);
            },
            Err(e) => {
                return Err(e);
            },
        }
        assert(models::license_match_views(matches@)[i as int] == matches@[i as int]@);
        assert(models::match_views(r@) == before.push(all[i as int]));
        assert(all.take(i + 1) == all.take(i as int).push(all[i as int]));
        i = i + 1;
    }
    assert(all.take(i as int) == all);
    Ok(r)
}

/// An address in the form in which addresses are compared.
pub fn normalize_reference_url_candidate(content: &str) -> (r: String)
    ensures
        r@ == normalized_url(content@),
{
    let chars = text::to_chars(content);
    let trimmed = text::trim_end_char(text::trim(&chars), '/');
    let lowered = text::lower_chars(trimmed);
    text::to_text(&lowered)
}

/// Whether the text of a match holds a reference address of its license.
pub fn match_has_exact_reference_url(
    query: &Query,
    license_match: &LicenseMatch,
    index: &LicenseIndex,
) -> (r: bool)
    ensures
        r == refers_to_license(query@, license_match@, index.reference_urls()),
{
    let reference_urls = match index.get(license_match.license_expression.as_str()) {
        Some(urls) => urls,
        None => return false,
    };
    let ghost all = index.reference_urls()[license_match@.license_expression];
    let matched = match &license_match.matched_text {
        Some(held) => held.clone(),
        None => query.matched_text(
            license_match.start_line.get(),
            license_match.end_line.get(),
        ),
    };
    let normalized_text = normalize_reference_url_candidate(matched.as_str());
    let normalized = text::to_chars(normalized_text.as_str());
    if normalized.len() == 0 {
        return false;
    }
    let mut i: usize = 0;
    assert(all.len() == reference_urls@.len());
    while i < reference_urls.len()
        invariant
            all == text::texts(reference_urls@),
            all.len() == reference_urls@.len(),
            i <= reference_urls@.len(),
            normalized@ == normalized_url(reference_text(query@, license_match@)),
            normalized@.len() > 0,
            index.reference_urls().contains_key(license_match@.license_expression),
            all == index.reference_urls()[license_match@.license_expression],
            forall|j: int| 0 <= j < i ==> !mentions_url(normalized@, #[trigger] all[j]),
        decreases reference_urls@.len() - i,
    {
        assert(all[i as int] == reference_urls@[i as int]@);
        let reference = text::to_chars(
            normalize_reference_url_candidate(reference_urls[i].as_str()).as_str(),
        );
        if reference.len() > 0 && text::contains_chars(&normalized, &reference) {
            assert(mentions_url(normalized@, all[i as int]));
            return true;
        }
        i = i + 1;
    }
    false
}

fn keep_referring(matches: &Vec<LicenseMatch>, query: &Query, index: &LicenseIndex) -> (r: Vec<
    LicenseMatch,
>)
    ensures
        models::license_match_views(r@) == referring_matches(
            models::license_match_views(matches@),
            query@,
            index.reference_urls(),
        ),
{
    let ghost all = models::license_match_views(matches@);
    let ghost keep = |m: models::LicenseMatchView|
        refers_to_license(query@, m, index.reference_urls());
    let mut r: Vec<LicenseMatch> = Vec::new();
    let mut i: usize = 0;
    proof {
        lists::lemma_filter_empty(keep);
        assert(all.take(0) == Seq::<models::LicenseMatchView>::empty());
        assert(models::license_match_views(r@) == all.take(0).filter(keep));
    }
    while i < matches.len()
        invariant
            all == models::license_match_views(matches@),
            keep == (|m: models::LicenseMatchView|
                refers_to_license(query@, m, index.reference_urls())),
            i <= matches@.len(),
            models::license_match_views(r@) == all.take(i as int).filter(keep),
        decreases matches@.len() - i,
    {
        let ghost before = models::license_match_views(r@);
        proof {
            assert(all[i as int] == matches@[i as int]@);
            lists::lemma_filter_take(all, keep, i as int);
        }
        if match_has_exact_reference_url(query, &matches[i], index) {
            r.push(matches[i].clone());
            assert(models::license_match_views(r@) == before.push(all[i as int]));
        }
        i = i + 1;
    }
    assert(all.take(i as int) == all);
    r
}

fn held_or_nothing(s: &Option<String>) -> (r: String)
    ensures
        r@ == or_nothing(text::opt_text(*s)),
{
    match s {
        Some(t) => t.clone(),
        None => String::new(),
    }
}

/// Makes a detection of a clue that holds a reference address of its license.
pub fn promote_reference_url_clue_detection(
    detection: &InternalLicenseDetection,
    license_options: LicenseScanOptions,
    text_content: &str,
    query: Option<&Query>,
    index: &LicenseIndex,
) -> (r: Result<Option<PublicLicenseDetection>, LicenseDetectionError>)
    ensures
        promoted_reference(
            detection@,
            license_options,
            text_content@,
            query::opt_query(query),
            index.reference_urls(),
        ) is None ==> r is Ok,
        promoted_reference(
            detection@,
            license_options,
            text_content@,
            query::opt_query(query),
            index.reference_urls(),
        ) is Some ==> query::kept_time(query::deadline_of(query::opt_query(query)), r is Err),
        r is Ok ==> opt_detection(r->Ok_0) == promoted_reference(
            detection@,
            license_options,
            text_content@,
            query::opt_query(query),
            index.reference_urls(),
        ),
{
    let read = match query {
        Some(read) => read,
        None => return Ok(None),
    };
    let promoted = keep_referring(&detection.matches, read, index);
    if promoted.len() == 0 {
        assert(models::license_match_views(promoted@).len() == 0);
        return Ok(None);
    }
    assert(models::license_match_views(promoted@).len() == promoted@.len());
    let expressions = notice::collect_match_expressions(&promoted);
    let license_expression = match spdx::combine_license_expressions_preserving_structure(
        &expressions,
    ) {
        Some(expression) => expression,
        None => return Ok(None),
    };
    let license_expression_spdx = held_or_nothing(&notice::combine_match_spdx_expressions(&promoted));
    let matches = match convert_matches(&promoted, license_options, text_content, query) {
        Ok(matches) => matches,
        Err(e) => return Err(e),
    };
    let mut detection_log: Vec<String> = Vec::new();
    if license_options.include_diagnostics {
        detection_log.push("promoted-reference-url-license-clue".to_owned());
    }
    proof {
        let log = if license_options.include_diagnostics {
            seq!["promoted-reference-url-license-clue"@]
        } else {
            seq![]
        };
        assert(text::texts(detection_log@) =~= log);
    }
    Ok(
        Some(
            PublicLicenseDetection {
                license_expression,
                license_expression_spdx,
                matches,
                detection_log,
                identifier: held_or_nothing(&detection.identifier),
            },
        ),
    )
}

/// A detection as the scan output shows it: a detection, or clues.
pub fn convert_detection_to_model(
    detection: &InternalLicenseDetection,
    license_options: LicenseScanOptions,
    text_content: &str,
    query: Option<&Query>,
    index: Option<&LicenseIndex>,
) -> (r: Result<(Option<PublicLicenseDetection>, Vec<Match>), LicenseDetectionError>)
    ensures
        detection@.matches.len() == 0 ==> r is Ok,
        detection@.matches.len() > 0 ==> query::kept_time(
            query::deadline_of(query::opt_query(query)),
            r is Err,
        ),
        r is Ok ==> (opt_detection(r->Ok_0.0), models::match_views(r->Ok_0.1@))
            == converted_detection(
            detection@,
            license_options,
            text_content@,
            query::opt_query(query),
            opt_urls(index),
        ),
{
    let matches = match convert_matches(
        &detection.matches,
        license_options,
        text_content,
        query,
    ) {
        Ok(matches) => matches,
        Err(e) => return Err(e),
    };
    if let Some(license_expression) = &detection.license_expression {
        let detection_log: Vec<String> = if license_options.include_diagnostics {
            models::copy_strings(&detection.detection_log)
        } else {
            Vec::new()
        };
        let no_clues: Vec<Match> = Vec::new();
        proof {
            assert(models::match_views(no_clues@) =~= Seq::<models::MatchView>::empty());
            if !license_options.include_diagnostics {
                assert(text::texts(detection_log@) =~= Seq::<Seq<char>>::empty());
            }
        }
        return Ok(
            (
                Some(
                    PublicLicenseDetection {
                        license_expression: license_expression.clone(),
                        license_expression_spdx: normalize_held(
                            &detection.license_expression_spdx,
                        ),
                        matches,
                        detection_log,
                        identifier: held_or_nothing(&detection.identifier),
                    },
                ),
                no_clues,
            ),
        );
    }
    if let Some(known) = index {
        match promote_reference_url_clue_detection(
            detection,
            license_options,
            text_content,
            query,
            known,
        ) {
            Ok(Some(promoted)) => {
                let no_clues: Vec<Match> = Vec::new();
                assert(models::match_views(no_clues@) =~= Seq::<models::MatchView>::empty());
                return Ok((Some(promoted), no_clues));
            },
            Ok(None) => {},
            Err(e) => {
                return Err(e);
            },
        }
    }
    Ok((None, matches))
}

/// A detection of the engine becomes a detection or clues, never both, and a
/// detection with an expression is never lost.
pub proof fn law_detection_or_clues(
    d: models::InternalDetectionView,
    options: LicenseScanOptions,
    content: Seq<char>,
    q: Option<query::QueryView>,
    urls: Option<Map<Seq<char>, Seq<Seq<char>>>>,
)
    ensures
        ({
            let (shown, clues) = converted_detection(d, options, content, q, urls);
            &&& shown is Some ==> clues.len() == 0
            &&& d.license_expression is Some ==> shown is Some && shown->0.matches.len()
                == d.matches.len()
            &&& shown is None ==> clues.len() == d.matches.len()
        }),
{
}

/// Without its option, no text of the file goes into the scan output beyond
/// expressions and rule names.
pub proof fn law_text_only_where_asked(
    m: models::LicenseMatchView,
    options: LicenseScanOptions,
    content: Seq<char>,
    q: Option<query::QueryView>,
)
    ensures
        converted_match(m, options, content, q).matched_text is Some == options.include_text,
        converted_match(m, options, content, q).matched_text_diagnostics is Some
            ==> options.include_text_diagnostics,
{
}

/// A shown match says what the engine found, and where: its first and its last
/// line, its license, its file and its rule are those of the engine's match.
pub proof fn law_match_stands_where_it_was_found(
    m: models::LicenseMatchView,
    options: LicenseScanOptions,
    content: Seq<char>,
    q: Option<query::QueryView>,
)
    ensures
        ({
            let shown = converted_match(m, options, content, q);
            &&& shown.start_line == m.start_line
            &&& shown.end_line == m.end_line
            &&& shown.license_expression == m.license_expression
            &&& shown.from_file == m.from_file
            &&& shown.matcher == m.matcher
            &&& shown.score == m.score
            &&& shown.matched_length == Some(m.matched_length)
            &&& shown.rule_relevance == Some(m.rule_relevance)
            &&& shown.rule_identifier == m.rule_identifier
            &&& shown.rule_url is Some == (m.rule_url.len() > 0)
            &&& shown.rule_url is Some ==> shown.rule_url->0 == m.rule_url
            &&& shown.referenced_filenames == m.referenced_filenames
        }),
{
}

/// A shown coverage is as near to the engine's as hundredths of a percent allow,
/// and a half goes up.
pub proof fn law_coverage_is_rounded(
    m: models::LicenseMatchView,
    options: LicenseScanOptions,
    content: Seq<char>,
    q: Option<query::QueryView>,
)
    ensures
        ({
            let shown = converted_match(m, options, content, q).match_coverage;
            &&& shown is Some
            &&& shown->0 * 10_000_000_000 <= m.coverage.picos + 5_000_000_000
            &&& m.coverage.picos + 5_000_000_000 < (shown->0 + 1) * 10_000_000_000
        }),
{
    let n = m.coverage.picos as nat + 5_000_000_000;
    let r = n / 10_000_000_000;
    assert(r * 10_000_000_000 <= n < (r + 1) * 10_000_000_000);
    assert(r <= u64::MAX);
}

/// A normal SPDX expression says what the expression said; what is no expression
/// has none.
pub proof fn law_normalized_spdx_keeps_meaning(s: Seq<char>)
    ensures
        expression::parsed(s) is Some ==> expression::parsed(normalized_spdx(Some(s)))
            == expression::parsed(s),
        expression::parsed(s) is None ==> normalized_spdx(Some(s)).len() == 0,
        normalized_spdx(None).len() == 0,
{
    let trimmed = text::trim_of(s);
    text::lemma_trim(s);
    reading::law_white_space_around_does_not_matter(s);
    if trimmed.len() > 0 {
        let list = seq![trimmed];
        assert(list.drop_last() == Seq::<Seq<char>>::empty());
        assert(list.last() == trimmed && list[0] == trimmed);
        assert(spdx::operands_of(list.drop_last()) == Seq::<spdx::Operand>::empty());
        assert(spdx::operands_of(list) == seq![spdx::operand_of(trimmed)]);
        if expression::parsed(s) is Some {
            assert(spdx::all_parse(list));
            reading::law_normal_form_keeps_meaning(trimmed);
        } else {
            assert(!spdx::all_parse(list));
        }
    }
}

/// A detection of the engine with a license shows as a detection of that license,
/// with all its matches in their order and on their lines. Without a license, its
/// matches are clues, or those that refer to their license make a detection.
pub proof fn law_detection_shows_its_matches(
    d: models::InternalDetectionView,
    options: LicenseScanOptions,
    content: Seq<char>,
    q: Option<query::QueryView>,
    urls: Option<Map<Seq<char>, Seq<Seq<char>>>>,
    i: int,
)
    requires
        0 <= i < d.matches.len(),
    ensures
        ({
            let (shown, clues) = converted_detection(d, options, content, q, urls);
            &&& d.license_expression is Some ==> {
                &&& shown is Some
                &&& shown->0.license_expression == d.license_expression->0
                &&& shown->0.matches.len() == d.matches.len()
                &&& shown->0.matches[i] == converted_match(d.matches[i], options, content, q)
                &&& shown->0.matches[i].start_line == d.matches[i].start_line
                &&& shown->0.matches[i].end_line == d.matches[i].end_line
                &&& d.identifier is Some ==> shown->0.identifier == d.identifier->0
                &&& options.include_diagnostics ==> shown->0.detection_log == d.detection_log
                &&& !options.include_diagnostics ==> shown->0.detection_log.len() == 0
                &&& d.license_expression_spdx is Some && expression::parsed(
                    d.license_expression_spdx->0,
                ) is Some ==> expression::parsed(shown->0.license_expression_spdx)
                    == expression::parsed(d.license_expression_spdx->0)
            }
            &&& shown is None ==> {
                &&& clues.len() == d.matches.len()
                &&& clues[i] == converted_match(d.matches[i], options, content, q)
                &&& clues[i].start_line == d.matches[i].start_line
                &&& clues[i].end_line == d.matches[i].end_line
            }
        }),
{
    if d.license_expression_spdx is Some {
        law_normalized_spdx_keeps_meaning(d.license_expression_spdx->0);
    }
}

/// A clue becomes a detection if and only if there are a query and known addresses
/// and one of its matches, with a license that is not blank, refers to its
/// license. The detection has just the matches that do.
pub proof fn law_clue_becomes_detection(
    d: models::InternalDetectionView,
    options: LicenseScanOptions,
    content: Seq<char>,
    q: Option<query::QueryView>,
    urls: Option<Map<Seq<char>, Seq<Seq<char>>>>,
)
    requires
        d.license_expression is None,
    ensures
        ({
            let shown = converted_detection(d, options, content, q, urls).0;
            &&& shown is Some == (q is Some && urls is Some && exists|i: int|
                0 <= i < d.matches.len() && refers_to_license(
                    q->0,
                    #[trigger] d.matches[i],
                    urls->0,
                ) && text::trim_of(d.matches[i].license_expression).len() > 0)
            &&& shown is Some ==> {
                &&& forall|i: int|
                    0 <= i < d.matches.len() ==> (refers_to_license(
                        q->0,
                        #[trigger] d.matches[i],
                        urls->0,
                    ) ==> shown->0.matches.contains(
                        converted_match(d.matches[i], options, content, q),
                    ))
                &&& forall|k: int|
                    0 <= k < shown->0.matches.len() ==> exists|i: int|
                        0 <= i < d.matches.len() && refers_to_license(
                            q->0,
                            #[trigger] d.matches[i],
                            urls->0,
                        ) && #[trigger] shown->0.matches[k] == converted_match(
                            d.matches[i],
                            options,
                            content,
                            q,
                        )
            }
        }),
{
    let shown = converted_detection(d, options, content, q, urls).0;
    if q is Some && urls is Some {
        let refers = |m: models::LicenseMatchView| refers_to_license(q->0, m, urls->0);
        let matches = referring_matches(d.matches, q->0, urls->0);
        let listed = notice::match_expressions(matches);
        lists::lemma_filter_holds(d.matches, refers);
        reading::law_combined_where_there_is_one(listed);
        assert forall|i: int|
            0 <= i < d.matches.len() && refers(#[trigger] d.matches[i]) implies matches.contains(
            d.matches[i],
        ) by {
            lists::lemma_filter_keeps(d.matches, refers, i);
        }
        if exists|i: int|
            0 <= i < d.matches.len() && refers(#[trigger] d.matches[i]) && text::trim_of(
                d.matches[i].license_expression,
            ).len() > 0 {
            let i = choose|i: int|
                0 <= i < d.matches.len() && refers(#[trigger] d.matches[i]) && text::trim_of(
                    d.matches[i].license_expression,
                ).len() > 0;
            assert(matches.contains(d.matches[i]));
            let k = choose|k: int| 0 <= k < matches.len() && matches[k] == d.matches[i];
            assert(text::trim_of(listed[k]).len() > 0);
        }
        if shown is Some {
            let k = choose|k: int|
                0 <= k < listed.len() && text::trim_of(#[trigger] listed[k]).len() > 0;
            assert(d.matches.contains(matches[k]));
            let i = choose|i: int| 0 <= i < d.matches.len() && d.matches[i] == matches[k];
            assert(refers(d.matches[i]));
            assert(text::trim_of(d.matches[i].license_expression).len() > 0);
            assert forall|i: int|
                0 <= i < d.matches.len() && refers_to_license(
                    q->0,
                    #[trigger] d.matches[i],
                    urls->0,
                ) implies shown->0.matches.contains(
                converted_match(d.matches[i], options, content, q),
            ) by {
                assert(matches.contains(d.matches[i]));
                let k = choose|k: int| 0 <= k < matches.len() && matches[k] == d.matches[i];
                assert(shown->0.matches[k] == converted_match(d.matches[i], options, content, q));
            }
            assert forall|k: int| 0 <= k < shown->0.matches.len() implies exists|i: int|
                0 <= i < d.matches.len() && refers_to_license(
                    q->0,
                    #[trigger] d.matches[i],
                    urls->0,
                ) && #[trigger] shown->0.matches[k] == converted_match(
                    d.matches[i],
                    options,
                    content,
                    q,
                ) by {
                assert(d.matches.contains(matches[k]));
                let i = choose|i: int| 0 <= i < d.matches.len() && d.matches[i] == matches[k];
                assert(refers(d.matches[i]));
            }
        }
    }
}

/// What is left of a text without the white space at its ends and the slashes
/// behind it.
proof fn lemma_url_part(s: Seq<char>) -> (from: int)
    ensures
        ({
            let core = text::trim_end_char_of(text::trim_of(s), '/');
            &&& 0 <= from && from + core.len() <= s.len()
            &&& core == s.subrange(from, from + core.len())
            &&& forall|i: int| 0 <= i < from ==> text::is_white_space(#[trigger] s[i])
            &&& forall|i: int|
                from + core.len() <= i < s.len() ==> text::is_white_space(#[trigger] s[i]) || s[i]
                    == '/'
        }),
{
    let t = text::trim_of(s);
    let core = text::trim_end_char_of(t, '/');
    let (a, b) = text::law_trim_takes_white_space_alone(s);
    text::law_trim_end_char_takes_the_character_alone(t, '/');
    let from = a.len() as int;
    assert(core == s.subrange(from, from + core.len()));
    assert forall|i: int| 0 <= i < from implies text::is_white_space(#[trigger] s[i]) by {
        assert(a[i] == s[i]);
    }
    assert forall|i: int| from + core.len() <= i < s.len() implies text::is_white_space(
        #[trigger] s[i],
    ) || s[i] == '/' by {
        if i < from + t.len() {
            assert(t[i - from] == s[i]);
        } else {
            assert(b[i - from - t.len()] == s[i]);
        }
    }
    from
}

proof fn lemma_lower_part(s: Seq<char>, from: int, to: int)
    requires
        0 <= from <= to <= s.len(),
    ensures
        text::lower(s.subrange(from, to)) == text::lower(s).subrange(from, to),
{
    assert(text::lower(s.subrange(from, to)) =~= text::lower(s).subrange(from, to));
}

/// A match whose text holds an address of its license, in any case of letters,
/// refers to its license.
pub proof fn law_held_address_refers(
    q: query::QueryView,
    m: models::LicenseMatchView,
    urls: Map<Seq<char>, Seq<Seq<char>>>,
    i: int,
)
    requires
        urls.contains_key(m.license_expression),
        0 <= i < urls[m.license_expression].len(),
        ({
            let url = urls[m.license_expression][i];
            let shown = match m.matched_text {
                Some(held) => held,
                None => matched_text::lines_between(
                    q.text,
                    m.start_line.number(),
                    m.end_line.number(),
                ),
            };
            &&& url.len() > 0
            &&& text::is_trimmed(url)
            &&& url.last() != '/'
            &&& text::has_text(text::lower(shown), text::lower(url))
        }),
    ensures
        refers_to_license(q, m, urls),
{
    let url = urls[m.license_expression][i];
    let shown = reference_text(q, m);
    let n = url.len() as int;
    text::lemma_trim(url);
    text::law_trim_end_char_takes_the_character_alone(url, '/');
    assert(normalized_url(url) == text::lower(url));
    let at = choose|at: int| text::occurs_at(text::lower(shown), text::lower(url), at);
    let found = text::lower(shown).subrange(at, at + n);
    assert(found[0] == text::ascii_lower(shown[at]));
    assert(text::lower(url)[0] == text::ascii_lower(url[0]));
    assert(found[n - 1] == text::ascii_lower(shown[at + n - 1]));
    assert(text::lower(url)[n - 1] == text::ascii_lower(url[n - 1]));
    assert(!text::is_white_space(shown[at]));
    assert(!text::is_white_space(shown[at + n - 1]) && shown[at + n - 1] != '/');
    let from = lemma_url_part(shown);
    let core = text::trim_end_char_of(text::trim_of(shown), '/');
    assert(from <= at);
    assert(at + n <= from + core.len());
    lemma_lower_part(shown, from, from + core.len());
    let low = text::lower(core);
    assert(low.subrange(at - from, at - from + n) =~= found);
    assert(text::occurs_at(low, text::lower(url), at - from));
    assert(mentions_url(low, urls[m.license_expression][i]));
}

/// A match refers to its license only by an address of the license that its text
/// holds, but for the case of letters, white space around the address and slashes
/// behind it.
pub proof fn law_refers_by_an_address(
    q: query::QueryView,
    m: models::LicenseMatchView,
    urls: Map<Seq<char>, Seq<Seq<char>>>,
)
    requires
        refers_to_license(q, m, urls),
    ensures
        urls.contains_key(m.license_expression),
        exists|i: int|
            0 <= i < urls[m.license_expression].len() && ({
                let core = text::trim_end_char_of(
                    text::trim_of(#[trigger] urls[m.license_expression][i]),
                    '/',
                );
                core.len() > 0 && text::has_text(text::lower(reference_text(q, m)), text::lower(core))
            }),
{
    let shown = reference_text(q, m);
    let normalized = normalized_url(shown);
    let i = choose|i: int|
        0 <= i < urls[m.license_expression].len() && mentions_url(
            normalized,
            #[trigger] urls[m.license_expression][i],
        );
    let from = lemma_url_part(shown);
    let core = text::trim_end_char_of(text::trim_of(shown), '/');
    lemma_lower_part(shown, from, from + core.len());
    let pat = normalized_url(urls[m.license_expression][i]);
    text::lemma_has_text_in_part(text::lower(shown), from, from + core.len(), pat);
    assert(urls[m.license_expression][i].len() >= 0);
}

/// A promoted clue keeps the order of its matches, names every license that they
/// name and no other, and is logged where diagnostics are asked for.
pub proof fn law_promoted_clue(
    d: models::InternalDetectionView,
    options: LicenseScanOptions,
    content: Seq<char>,
    q: query::QueryView,
    urls: Map<Seq<char>, Seq<Seq<char>>>,
    key: Seq<char>,
)
    requires
        d.license_expression is None,
        converted_detection(d, options, content, Some(q), Some(urls)).0 is Some,
    ensures
        ({
            let shown = converted_detection(d, options, content, Some(q), Some(urls)).0->0;
            &&& lists::in_order(shown.matches, converted_matches(d.matches, options, content, Some(q)))
            &&& (forall|i: int|
                0 <= i < shown.matches.len() ==> expression::parsed(
                    (#[trigger] shown.matches[i]).license_expression,
                ) is Some) ==> expression::expression_keys(shown.license_expression).contains(key)
                == exists|i: int|
                0 <= i < shown.matches.len() && expression::expression_keys(
                    (#[trigger] shown.matches[i]).license_expression,
                ).contains(key)
            &&& options.include_diagnostics ==> shown.detection_log == seq![
                "promoted-reference-url-license-clue"@,
            ]
            &&& !options.include_diagnostics ==> shown.detection_log.len() == 0
            &&& d.identifier is Some ==> shown.identifier == d.identifier->0
        }),
{
    let shown = converted_detection(d, options, content, Some(q), Some(urls)).0->0;
    let refers = |m: models::LicenseMatchView| refers_to_license(q, m, urls);
    let matches = referring_matches(d.matches, q, urls);
    let listed = notice::match_expressions(matches);
    lists::lemma_filter_in_order(d.matches, refers);
    let places = choose|places: Seq<int>| lists::stand_at(matches, d.matches, places);
    let all = converted_matches(d.matches, options, content, Some(q));
    assert(lists::stand_at(shown.matches, all, places)) by {
        assert forall|i: int| 0 <= i < shown.matches.len() implies 0 <= #[trigger] places[i]
            < all.len() && all[places[i]] == shown.matches[i] by {
            assert(d.matches[places[i]] == matches[i]);
        }
    }
    if forall|i: int|
        0 <= i < shown.matches.len() ==> expression::parsed(
            (#[trigger] shown.matches[i]).license_expression,
        ) is Some {
        assert forall|i: int| 0 <= i < listed.len() implies expression::parsed(
            text::trim_of(#[trigger] listed[i]),
        ) is Some by {
            assert(shown.matches[i].license_expression == listed[i]);
            reading::law_white_space_around_does_not_matter(listed[i]);
        }
        reading::law_combined_names_every_license(listed, key);
        if exists|i: int|
            0 <= i < listed.len() && expression::expression_keys(#[trigger] listed[i]).contains(
                key,
            ) {
            let i = choose|i: int|
                0 <= i < listed.len() && expression::expression_keys(
                    #[trigger] listed[i],
                ).contains(key);
            assert(expression::expression_keys(shown.matches[i].license_expression).contains(key));
        }
        if exists|i: int|
            0 <= i < shown.matches.len() && expression::expression_keys(
                (#[trigger] shown.matches[i]).license_expression,
            ).contains(key) {
            let i = choose|i: int|
                0 <= i < shown.matches.len() && expression::expression_keys(
                    (#[trigger] shown.matches[i]).license_expression,
                ).contains(key);
            assert(expression::expression_keys(listed[i]).contains(key));
        }
    }
}

/// The SPDX expression of a promoted clue names what those of its matches name that
/// refer to their licenses, where all of these have one that can be read; it is empty
/// where one has none.
pub proof fn law_promoted_clue_names_spdx(
    d: models::InternalDetectionView,
    options: LicenseScanOptions,
    content: Seq<char>,
    q: query::QueryView,
    urls: Map<Seq<char>, Seq<Seq<char>>>,
    key: Seq<char>,
)
    requires
        d.license_expression is None,
        converted_detection(d, options, content, Some(q), Some(urls)).0 is Some,
    ensures
        ({
            let shown = converted_detection(d, options, content, Some(q), Some(urls)).0->0;
            &&& (exists|i: int|
                0 <= i < d.matches.len() && refers_to_license(q, #[trigger] d.matches[i], urls)
                    && d.matches[i].license_expression_spdx is None)
                ==> shown.license_expression_spdx.len() == 0
            &&& (forall|i: int|
                0 <= i < d.matches.len() && refers_to_license(q, #[trigger] d.matches[i], urls)
                    ==> d.matches[i].license_expression_spdx is Some && expression::parsed(
                    d.matches[i].license_expression_spdx->0,
                ) is Some) ==> expression::expression_keys(shown.license_expression_spdx).contains(
                key,
            ) == exists|i: int|
                0 <= i < d.matches.len() && refers_to_license(q, #[trigger] d.matches[i], urls)
                    && expression::expression_keys(
                    d.matches[i].license_expression_spdx->0,
                ).contains(key)
        }),
{
    let refers = |m: models::LicenseMatchView| refers_to_license(q, m, urls);
    let matches = referring_matches(d.matches, q, urls);
    lists::lemma_filter_holds(d.matches, refers);
    assert forall|i: int|
        0 <= i < d.matches.len() && refers_to_license(
            q,
            #[trigger] d.matches[i],
            urls,
        ) implies matches.contains(d.matches[i]) by {
        assert(refers(d.matches[i]));
        lists::lemma_filter_keeps(d.matches, refers, i);
    }
    assert forall|k: int| 0 <= k < matches.len() implies exists|i: int|
        0 <= i < d.matches.len() && refers_to_license(q, #[trigger] d.matches[i], urls)
            && d.matches[i] == #[trigger] matches[k] by {
        assert(refers(matches[k]) && d.matches.contains(matches[k]));
        let i = choose|i: int| 0 <= i < d.matches.len() && d.matches[i] == matches[k];
        assert(refers_to_license(q, d.matches[i], urls));
    }
    notice::law_joint_spdx(matches, key);
    if exists|i: int|
        0 <= i < d.matches.len() && refers_to_license(q, #[trigger] d.matches[i], urls)
            && d.matches[i].license_expression_spdx is None {
        let i = choose|i: int|
            0 <= i < d.matches.len() && refers_to_license(q, #[trigger] d.matches[i], urls)
                && d.matches[i].license_expression_spdx is None;
        let k = choose|k: int| 0 <= k < matches.len() && matches[k] == d.matches[i];
        assert(matches[k].license_expression_spdx is None);
    }
    if exists|i: int|
        0 <= i < d.matches.len() && refers_to_license(q, #[trigger] d.matches[i], urls)
            && expression::expression_keys(d.matches[i].license_expression_spdx->0).contains(key) {
        let i = choose|i: int|
            0 <= i < d.matches.len() && refers_to_license(q, #[trigger] d.matches[i], urls)
                && expression::expression_keys(
                d.matches[i].license_expression_spdx->0,
            ).contains(key);
        let k = choose|k: int| 0 <= k < matches.len() && matches[k] == d.matches[i];
        assert(expression::expression_keys(matches[k].license_expression_spdx->0).contains(key));
    }
}

} // verus!
