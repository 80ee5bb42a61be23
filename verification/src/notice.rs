//! Legal notice files: a fragment of a notice is a detection there, and not
//! only a clue, where the file asserts a license anyway.
use vstd::prelude::*;

use crate::context;
use crate::expression;
use crate::models;
use crate::models::{InternalLicenseDetection, LicenseMatch, RuleKind};
use crate::paths;
use crate::paths::ScanPath;
use crate::reading;
use crate::spdx;
use crate::text;

verus! {

/// A match that covers less of its rule than this is a clue: 60 percent.
pub const CLUES_MATCH_COVERAGE_THRESHOLD: u64 = 60_000_000_000_000;

/// The license expressions of several matches.
pub open spec fn match_expressions(matches: Seq<models::LicenseMatchView>) -> Seq<Seq<char>> {
    matches.map_values(|m: models::LicenseMatchView| m.license_expression)
}

/// The SPDX expressions of several matches, where all have one.
pub open spec fn match_spdx_expressions(matches: Seq<models::LicenseMatchView>) -> Option<
    Seq<Seq<char>>,
> {
    if forall|i: int|
        0 <= i < matches.len() ==> (#[trigger] matches[i]).license_expression_spdx is Some {
        Some(matches.map_values(|m: models::LicenseMatchView| m.license_expression_spdx->0))
    } else {
        None
    }
}

/// The SPDX expression of several matches together.
pub open spec fn joint_spdx(matches: Seq<models::LicenseMatchView>) -> Option<Seq<char>> {
    match match_spdx_expressions(matches) {
        Some(expressions) => spdx::combined_strict(expressions),
        None => None,
    }
}

/// A match that names licenses and covers enough of its rule.
pub open spec fn asserts_license(m: models::LicenseMatchView) -> bool {
    m.rule_kind != RuleKind::Clue && m.license_expression.len() > 0 && !text::has_text(
        m.license_expression,
        "unknown"@,
    ) && m.coverage.picos >= CLUES_MATCH_COVERAGE_THRESHOLD
}

/// A detection without an expression whose fragments lost quality to extra
/// words alone.
pub open spec fn promotable(d: models::InternalDetectionView) -> bool {
    d.license_expression is None && d.detection_log.contains("low-quality-match-fragments"@)
        && d.matches.len() > 0 && forall|i: int|
        0 <= i < d.matches.len() ==> asserts_license(#[trigger] d.matches[i])
}

/// A detection of a legal notice file that asserts a license.
pub open spec fn promoted(d: models::InternalDetectionView) -> models::InternalDetectionView {
    match spdx::combined(match_expressions(d.matches)) {
        Some(expression) => if promotable(d) {
            models::InternalDetectionView {
                license_expression: Some(expression),
                license_expression_spdx: joint_spdx(d.matches),
                matches: d.matches,
                detection_log: d.detection_log.push("promoted-low-quality-legal-notice"@),
                identifier: d.identifier,
            }
        } else {
            d
        },
        None => d,
    }
}

/// The detections of a file, those of a legal notice file promoted.
pub open spec fn promoted_all(
    path: paths::PathView,
    ds: Seq<models::InternalDetectionView>,
) -> Seq<models::InternalDetectionView> {
    if paths::legal_notice_like(path) && exists|i: int|
        0 <= i < ds.len() && (#[trigger] ds[i]).license_expression is Some {
        ds.map_values(|d: models::InternalDetectionView| promoted(d))
    } else {
        ds
    }
}

/// The license expressions of several matches.
pub fn collect_match_expressions(matches: &Vec<LicenseMatch>) -> (r: Vec<String>)
    ensures
        text::texts(r@) == match_expressions(models::license_match_views(matches@)),
{
    let ghost all = match_expressions(models::license_match_views(matches@));
    let mut r: Vec<String> = Vec::new();
    let mut i: usize = 0;
    while i < matches.len()
        invariant
            all == match_expressions(models::license_match_views(matches@)),
            i <= matches@.len(),
            text::texts(r@) == all.take(i as int),
        decreases matches@.len() - i,
    {
        let ghost before = text::texts(r@);
        r.push(matches[i].license_expression.clone());
        assert(models::license_match_views(matches@)[i as int] == matches@[i as int]@);
        assert(text::texts(r@) == before.push(all[i as int]));
        assert(all.take(i + 1) == all.take(i as int).push(all[i as int]));
        i = i + 1;
    }
    assert(all.take(i as int) == all);
    r
}

/// The SPDX expressions of several matches, where all have one.
pub fn collect_match_spdx_expressions(matches: &Vec<LicenseMatch>) -> (r: Option<Vec<String>>)
    ensures
        models::opt_texts(r) == match_spdx_expressions(models::license_match_views(matches@)),
{
    let ghost views = models::license_match_views(matches@);
    let ghost all = views.map_values(
        |m: models::LicenseMatchView| m.license_expression_spdx->0,
    );
    let mut r: Vec<String> = Vec::new();
    let mut i: usize = 0;
    while i < matches.len()
        invariant
            views == models::license_match_views(matches@),
            all == views.map_values(|m: models::LicenseMatchView| m.license_expression_spdx->0),
            i <= matches@.len(),
            text::texts(r@) == all.take(i as int),
            forall|j: int| 0 <= j < i ==> (#[trigger] views[j]).license_expression_spdx is Some,
        decreases matches@.len() - i,
    {
        let ghost before = text::texts(r@);
        assert(views[i as int] == matches@[i as int]@);
        match &matches[i].license_expression_spdx {
            Some(expression) => {
                r.push(expression.clone());
            },
            None => {
                assert(views[i as int].license_expression_spdx is None);
                return None;
            },
        }
        assert(text::texts(r@) == before.push(all[i as int]));
        assert(all.take(i + 1) == all.take(i as int).push(all[i as int]));
        i = i + 1;
    }
    assert(all.take(i as int) == all);
    Some(r)
}

/// The SPDX expression of several matches together.
pub fn combine_match_spdx_expressions(matches: &Vec<LicenseMatch>) -> (r: Option<String>)
    ensures
        text::opt_text(r) == joint_spdx(models::license_match_views(matches@)),
{
    match collect_match_spdx_expressions(matches) {
        Some(expressions) => spdx::combine_license_expressions_preserving_structure_strict(
            &expressions,
        ),
        None => None,
    }
}

fn is_asserting(m: &LicenseMatch) -> (r: bool)
    ensures
        r == asserts_license(m@),
{
    let expression = text::to_chars(m.license_expression.as_str());
    m.rule_kind != RuleKind::Clue && expression.len() > 0 && !text::contains_str(
        &expression,
        "unknown",
    ) && m.coverage.picos >= CLUES_MATCH_COVERAGE_THRESHOLD
}

fn is_promotable(detection: &InternalLicenseDetection) -> (r: bool)
    ensures
        r == promotable(detection@),
{
    if detection.license_expression.is_some() || !context::has_entry(
        &detection.detection_log,
        "low-quality-match-fragments",
    ) || detection.matches.len() == 0 {
        return false;
    }
    let ghost all = detection@.matches;
    let mut i: usize = 0;
    while i < detection.matches.len()
        invariant
            all == models::license_match_views(detection.matches@),
            i <= detection.matches@.len(),
            forall|j: int| 0 <= j < i ==> asserts_license(#[trigger] all[j]),
        decreases detection.matches@.len() - i,
    {
        assert(all[i as int] == detection.matches@[i as int]@);
        if !is_asserting(&detection.matches[i]) {
            assert(!asserts_license(all[i as int]));
            return false;
        }
        i = i + 1;
    }
    true
}

fn promote(detection: &mut InternalLicenseDetection)
    ensures
        final(detection)@ == promoted(old(detection)@),
{
    if !is_promotable(detection) {
        return;
    }
    let expressions = collect_match_expressions(&detection.matches);
    if let Some(expression) = spdx::combine_license_expressions_preserving_structure(&expressions) {
        let ghost before = text::texts(detection.detection_log@);
        detection.license_expression = Some(expression);
        detection.license_expression_spdx = combine_match_spdx_expressions(&detection.matches);
        detection.detection_log.push("promoted-low-quality-legal-notice".to_owned());
        assert(text::texts(detection.detection_log@) == before.push(
            "promoted-low-quality-legal-notice"@,
        ));
    }
}

fn has_expression(detections: &Vec<InternalLicenseDetection>) -> (r: bool)
    ensures
        r == exists|i: int|
            0 <= i < detections@.len() && (#[trigger] models::internal_detection_views(
                detections@,
            )[i]).license_expression is Some,
{
    let ghost all = models::internal_detection_views(detections@);
    let mut i: usize = 0;
    while i < detections.len()
        invariant
            all == models::internal_detection_views(detections@),
            i <= detections@.len(),
            forall|j: int| 0 <= j < i ==> (#[trigger] all[j]).license_expression is None,
        decreases detections@.len() - i,
    {
        assert(all[i as int] == detections@[i as int]@);
        if detections[i].license_expression.is_some() {
            assert(all[i as int].license_expression is Some);
            return true;
        }
        i = i + 1;
    }
    false
}

/// Makes detections of the notice fragments of a legal notice file that asserts
/// a license.
pub fn promote_legal_notice_low_quality_detections(
    detections: &mut Vec<InternalLicenseDetection>,
    path: &ScanPath,
)
    ensures
        models::internal_detection_views(final(detections)@) == promoted_all(
            path@,
            models::internal_detection_views(old(detections)@),
        ),
{
    assert(models::internal_detection_views(detections@).len() == detections@.len());
    if !paths::is_legal_notice_like_path(path) || !has_expression(detections) {
        return;
    }
    let ghost all = models::internal_detection_views(detections@);
    let ghost goal = all.map_values(|d: models::InternalDetectionView| promoted(d));
    let mut i: usize = 0;
    while i < detections.len()
        invariant
            i <= detections@.len(),
            all.len() == detections@.len(),
            goal == all.map_values(|d: models::InternalDetectionView| promoted(d)),
            forall|j: int| 0 <= j < i ==> (#[trigger] detections@[j])@ == goal[j],
            forall|j: int| i <= j < detections@.len() ==> (#[trigger] detections@[j])@ == all[j],
        decreases detections@.len() - i,
    {
        let mut detection = detections[i].clone();
        promote(&mut detection);
        detections.set(i, detection);
        i = i + 1;
    }
    assert(models::internal_detection_views(detections@) == goal);
}

/// A detection with an expression is left as it is, and no promotion touches
/// the matches.
pub proof fn law_promotion_only_fills(d: models::InternalDetectionView)
    ensures
        d.license_expression is Some ==> promoted(d) == d,
        promoted(d).matches == d.matches,
        promoted(d).identifier == d.identifier,
{
}

/// A second promotion changes nothing.
pub proof fn law_promoted_all_idempotent(
    path: paths::PathView,
    ds: Seq<models::InternalDetectionView>,
)
    ensures
        promoted_all(path, promoted_all(path, ds)) == promoted_all(path, ds),
{
    let once = promoted_all(path, ds);
    let twice = promoted_all(path, once);
    assert(once.len() == ds.len() && twice.len() == ds.len());
    assert forall|i: int| 0 <= i < ds.len() implies #[trigger] twice[i] == once[i] by {
        if once != ds {
            assert(once[i] == promoted(ds[i]));
            assert(promoted(promoted(ds[i])) == promoted(ds[i]));
            if twice != once {
                assert(twice[i] == promoted(once[i]));
            }
        }
    }
    assert(twice =~= once);
}

/// A match that covers too little of its rule, or comes from a rule for clues,
/// keeps its detection from being promoted.
pub proof fn law_clues_are_not_promoted(d: models::InternalDetectionView, i: int)
    requires
        0 <= i < d.matches.len(),
        d.matches[i].coverage.picos < CLUES_MATCH_COVERAGE_THRESHOLD || d.matches[i].rule_kind
            == RuleKind::Clue,
    ensures
        promoted(d) == d,
{
    assert(!asserts_license(d.matches[i]));
}

/// Detections are promoted only in a file with the name of a legal notice in which
/// some detection asserts a license; there each one is.
pub proof fn law_promotion_needs_a_legal_notice(
    path: paths::PathView,
    ds: Seq<models::InternalDetectionView>,
    i: int,
)
    requires
        0 <= i < ds.len(),
    ensures
        promoted_all(path, ds).len() == ds.len(),
        !paths::legal_notice_like(path) ==> promoted_all(path, ds) == ds,
        (forall|k: int| 0 <= k < ds.len() ==> (#[trigger] ds[k]).license_expression is None)
            ==> promoted_all(path, ds) == ds,
        paths::legal_notice_like(path) && (exists|k: int|
            0 <= k < ds.len() && (#[trigger] ds[k]).license_expression is Some) ==> promoted_all(
            path,
            ds,
        )[i] == promoted(ds[i]),
{
}

/// A match asserts a license: it comes from no rule for clues, names licenses that
/// are known, and covers at least 60 percent of its rule.
pub open spec fn is_assertion(m: models::LicenseMatchView) -> bool {
    &&& !(m.rule_kind is Clue)
    &&& m.license_expression.len() > 0
    &&& !text::has_text(m.license_expression, "unknown"@)
    &&& m.coverage.picos >= 60_000_000_000_000
}

/// A detection is promoted if and only if it has no license, lost its quality as
/// fragments, and all its matches assert licenses. Then it names every license that
/// they name and no other, keeps its matches, and says so at the end of its log.
pub proof fn law_fragments_are_promoted(d: models::InternalDetectionView, key: Seq<char>)
    requires
        forall|i: int|
            0 <= i < d.matches.len() ==> expression::parsed(
                (#[trigger] d.matches[i]).license_expression,
            ) is Some,
    ensures
        ({
            let after = promoted(d);
            let asserted = d.license_expression is None && d.matches.len() > 0
                && d.detection_log.contains("low-quality-match-fragments"@) && forall|i: int|
                0 <= i < d.matches.len() ==> is_assertion(#[trigger] d.matches[i]);
            &&& !asserted ==> after == d
            &&& asserted ==> {
                &&& after.license_expression is Some
                &&& after.matches == d.matches
                &&& after.identifier == d.identifier
                &&& after.license_expression_spdx == joint_spdx(d.matches)
                &&& after.detection_log == d.detection_log.push(
                    "promoted-low-quality-legal-notice"@,
                )
                &&& expression::expression_keys(after.license_expression->0).contains(key)
                    == exists|i: int|
                    0 <= i < d.matches.len() && expression::expression_keys(
                        (#[trigger] d.matches[i]).license_expression,
                    ).contains(key)
            }
        }),
{
    let listed = match_expressions(d.matches);
    assert forall|i: int| 0 <= i < d.matches.len() implies asserts_license(#[trigger] d.matches[i])
        == is_assertion(d.matches[i]) by {}
    if d.matches.len() > 0 {
        assert forall|i: int| 0 <= i < listed.len() implies expression::parsed(
            text::trim_of(#[trigger] listed[i]),
        ) is Some && text::trim_of(listed[i]).len() > 0 by {
            assert(listed[i] == d.matches[i].license_expression);
            reading::law_white_space_around_does_not_matter(listed[i]);
        }
        assert(text::trim_of(listed[0]).len() > 0);
        reading::law_combined_where_there_is_one(listed);
        reading::law_combined_names_every_license(listed, key);
        if exists|i: int|
            0 <= i < listed.len() && expression::expression_keys(#[trigger] listed[i]).contains(
                key,
            ) {
            let i = choose|i: int|
                0 <= i < listed.len() && expression::expression_keys(
                    #[trigger] listed[i],
                ).contains(key);
            assert(expression::expression_keys(d.matches[i].license_expression).contains(key));
        }
        if exists|i: int|
            0 <= i < d.matches.len() && expression::expression_keys(
                (#[trigger] d.matches[i]).license_expression,
            ).contains(key) {
            let i = choose|i: int|
                0 <= i < d.matches.len() && expression::expression_keys(
                    (#[trigger] d.matches[i]).license_expression,
                ).contains(key);
            assert(expression::expression_keys(listed[i]).contains(key));
        }
    }
    if promotable(d) {
        assert forall|i: int| 0 <= i < d.matches.len() implies is_assertion(
            #[trigger] d.matches[i],
        ) by {
            assert(asserts_license(d.matches[i]));
        }
    }
}

/// The SPDX expression of several matches together names what each of them names,
/// where all have one; where one of them has none, there is none.
pub proof fn law_joint_spdx(matches: Seq<models::LicenseMatchView>, key: Seq<char>)
    ensures
        (exists|i: int|
            0 <= i < matches.len() && (#[trigger] matches[i]).license_expression_spdx is None)
            ==> joint_spdx(matches) is None,
        matches.len() > 0 && (forall|i: int|
            0 <= i < matches.len() ==> (#[trigger] matches[i]).license_expression_spdx is Some
                && expression::parsed(matches[i].license_expression_spdx->0) is Some)
            ==> joint_spdx(matches) is Some && expression::expression_keys(
            joint_spdx(matches)->0,
        ).contains(key) == exists|i: int|
            0 <= i < matches.len() && expression::expression_keys(
                (#[trigger] matches[i]).license_expression_spdx->0,
            ).contains(key),
{
    if matches.len() > 0 && (forall|i: int|
        0 <= i < matches.len() ==> (#[trigger] matches[i]).license_expression_spdx is Some
            && expression::parsed(matches[i].license_expression_spdx->0) is Some) {
        let listed = match_spdx_expressions(matches)->0;
        assert forall|i: int| 0 <= i < listed.len() implies expression::parsed(
            text::trim_of(#[trigger] listed[i]),
        ) is Some && text::trim_of(listed[i]).len() > 0 by {
            assert(listed[i] == matches[i].license_expression_spdx->0);
            reading::law_white_space_around_does_not_matter(listed[i]);
        }
        assert(text::trim_of(listed[0]).len() > 0);
        reading::law_combined_where_there_is_one(listed);
        reading::law_combined_names_every_license(listed, key);
        if exists|i: int|
            0 <= i < listed.len() && expression::expression_keys(#[trigger] listed[i]).contains(
                key,
            ) {
            let i = choose|i: int|
                0 <= i < listed.len() && expression::expression_keys(
                    #[trigger] listed[i],
                ).contains(key);
            assert(expression::expression_keys(matches[i].license_expression_spdx->0).contains(key));
        }
        if exists|i: int|
            0 <= i < matches.len() && expression::expression_keys(
                (#[trigger] matches[i]).license_expression_spdx->0,
            ).contains(key) {
            let i = choose|i: int|
                0 <= i < matches.len() && expression::expression_keys(
                    (#[trigger] matches[i]).license_expression_spdx->0,
                ).contains(key);
            assert(expression::expression_keys(listed[i]).contains(key));
        }
    }
}

} // verus!
