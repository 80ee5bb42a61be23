//! License choices in README files: a choice between licenses makes the
//! conjunction of the same licenses redundant, and its single licenses show as
//! detections of their own.
use vstd::prelude::*;

use crate::expression;
use crate::expression::LicenseExpression;
use crate::lists;
use crate::models;
use crate::models::{Match, PublicLicenseDetection};
use crate::paths;
use crate::paths::ScanPath;
use crate::reading;
use crate::text;

verus! {

/// The first line of several matches.
pub open spec fn first_line(matches: Seq<models::MatchView>) -> nat
    decreases matches.len(),
{
    if matches.len() <= 1 {
        matches[0].start_line.number()
    } else {
        let before = first_line(matches.drop_last());
        let last = matches.last().start_line.number();
        if last < before {
            last
        } else {
            before
        }
    }
}

/// The last line of several matches.
pub open spec fn last_line(matches: Seq<models::MatchView>) -> nat
    decreases matches.len(),
{
    if matches.len() <= 1 {
        matches[0].end_line.number()
    } else {
        let before = last_line(matches.drop_last());
        let last = matches.last().end_line.number();
        if last > before {
            last
        } else {
            before
        }
    }
}

/// The first and the last line of the matches of a detection.
pub open spec fn line_range(d: models::DetectionView) -> Option<(nat, nat)> {
    if d.matches.len() == 0 {
        None
    } else {
        Some((first_line(d.matches), last_line(d.matches)))
    }
}

/// Two ranges of lines have a line in common, or meet.
pub open spec fn overlap(a: (nat, nat), b: (nat, nat)) -> bool {
    a.0 <= b.1 && b.0 <= a.1
}

/// A detection of a license that is mentioned and not named.
pub open spec fn unknown_detection(d: models::DetectionView) -> bool {
    d.license_expression == "unknown-license-reference"@ || d.license_expression_spdx
        == "LicenseRef-scancode-unknown-license-reference"@
}

/// The expression of a detection: its SPDX expression, where it has one.
pub open spec fn detection_expr(d: models::DetectionView) -> Option<expression::Expr> {
    if d.license_expression_spdx.len() > 0 {
        expression::parsed(d.license_expression_spdx)
    } else if d.license_expression.len() > 0 {
        expression::parsed(d.license_expression)
    } else {
        None
    }
}

/// Both detections have lines, and these overlap.
pub open spec fn detections_overlap(a: models::DetectionView, b: models::DetectionView) -> bool {
    line_range(a) is Some && line_range(b) is Some && overlap(line_range(a)->0, line_range(b)->0)
}

/// A detection of a choice between licenses.
pub open spec fn offers_choice(d: models::DetectionView) -> bool {
    detection_expr(d) is Some && expression::has_or(detection_expr(d)->0) && line_range(d) is Some
}

/// A detection of licenses that all hold, without a choice.
pub open spec fn conjunctive(d: models::DetectionView) -> bool {
    detection_expr(d) is Some && !expression::has_or(detection_expr(d)->0) && expression::has_and(
        detection_expr(d)->0,
    )
}

/// A known license stands on the lines of an unknown one.
pub open spec fn hides_unknown(other: models::DetectionView, d: models::DetectionView) -> bool {
    !unknown_detection(other) && detections_overlap(d, other)
}

/// A choice between the same licenses stands on the lines of a conjunction.
pub open spec fn hides_conjunction(other: models::DetectionView, d: models::DetectionView) -> bool {
    offers_choice(other) && expression::key_set(detection_expr(other)->0) == expression::key_set(
        detection_expr(d)->0,
    ) && detections_overlap(d, other)
}

/// A detection of a README file that another one makes redundant.
pub open spec fn redundant(d: models::DetectionView, all: Seq<models::DetectionView>) -> bool {
    ||| unknown_detection(d) && exists|i: int|
        0 <= i < all.len() && hides_unknown(#[trigger] all[i], d)
    ||| conjunctive(d) && exists|i: int|
        0 <= i < all.len() && hides_conjunction(#[trigger] all[i], d)
}

/// What is left of the detections of a file without the redundant ones. Only a
/// README file that offers a choice has any.
pub open spec fn without_redundant(
    path: paths::PathView,
    all: Seq<models::DetectionView>,
) -> Seq<models::DetectionView> {
    if paths::readme_like(path) && all.len() >= 2 && exists|i: int|
        0 <= i < all.len() && offers_choice(#[trigger] all[i]) {
        all.filter(|d: models::DetectionView| !redundant(d, all))
    } else {
        all
    }
}

/// A text that announces a choice between licenses.
pub open spec fn announces_choice(s: Seq<char>) -> bool {
    text::has_text(text::lower(s), "dual-licensed under"@) || text::has_text(
        text::lower(s),
        "dual licensed under"@,
    )
}

/// The SPDX expression of a match, where it names a single license.
pub open spec fn names_single(m: models::MatchView) -> bool {
    let s = text::trim_of(m.license_expression_spdx);
    s.len() > 0 && !text::has_text(s, " OR "@) && !text::has_text(s, " AND "@) && !text::has_text(
        s,
        " WITH "@,
    )
}

/// A detection has the given SPDX expression and the given lines.
pub open spec fn stands_on(d: models::DetectionView, spdx: Seq<char>, range: (nat, nat)) -> bool {
    d.license_expression_spdx == spdx && line_range(d) == Some(range)
}

/// One of the detections has the given SPDX expression and the given lines.
pub open spec fn present(
    ds: Seq<models::DetectionView>,
    spdx: Seq<char>,
    range: (nat, nat),
) -> bool {
    exists|i: int| 0 <= i < ds.len() && stands_on(#[trigger] ds[i], spdx, range)
}

/// The detection of a single license of a choice.
pub open spec fn single_choice(d: models::DetectionView, m: models::MatchView) -> models::DetectionView {
    models::DetectionView {
        license_expression: m.license_expression,
        license_expression_spdx: m.license_expression_spdx,
        matches: seq![m],
        detection_log: d.detection_log,
        identifier: seq![],
    }
}

/// The added detections behind some of the matches of a choice.
pub open spec fn choices_after_matches(
    d: models::DetectionView,
    matches: Seq<models::MatchView>,
    all: Seq<models::DetectionView>,
    added: Seq<models::DetectionView>,
) -> Seq<models::DetectionView>
    decreases matches.len(),
{
    if matches.len() == 0 {
        added
    } else {
        let before = choices_after_matches(d, matches.drop_last(), all, added);
        let m = matches.last();
        let spdx = text::trim_of(m.license_expression_spdx);
        if names_single(m) && !present(all, spdx, line_range(d)->0) && !present(
            before,
            spdx,
            line_range(d)->0,
        ) {
            before.push(single_choice(d, m))
        } else {
            before
        }
    }
}

/// The added detections behind some of the detections.
pub open spec fn choices_after(
    ds: Seq<models::DetectionView>,
    all: Seq<models::DetectionView>,
) -> Seq<models::DetectionView>
    decreases ds.len(),
{
    if ds.len() == 0 {
        seq![]
    } else {
        let before = choices_after(ds.drop_last(), all);
        let d = ds.last();
        if text::has_text(d.license_expression_spdx, " OR "@) && line_range(d) is Some {
            choices_after_matches(d, d.matches, all, before)
        } else {
            before
        }
    }
}

/// The detections of a file with the single licenses of its choices.
pub open spec fn with_single_choices(
    path: paths::PathView,
    content: Seq<char>,
    all: Seq<models::DetectionView>,
) -> Seq<models::DetectionView> {
    if paths::readme_like(path) && announces_choice(content) {
        all + choices_after(all, all)
    } else {
        all
    }
}

/// The first and the last line of the matches of a detection.
pub fn detection_line_range(detection: &PublicLicenseDetection) -> (r: Option<(usize, usize)>)
    ensures
        r is Some == line_range(detection@) is Some,
        r is Some ==> line_range(detection@)->0 == ((r->0).0 as nat, (r->0).1 as nat),
{
    let ghost all = models::match_views(detection.matches@);
    if detection.matches.len() == 0 {
        return None;
    }
    assert(all[0] == detection.matches@[0]@);
    assert(all.take(1)[0] == all[0]);
    let mut start: usize = detection.matches[0].start_line.get();
    let mut end: usize = detection.matches[0].end_line.get();
    let mut i: usize = 1;
    while i < detection.matches.len()
        invariant
            all == models::match_views(detection.matches@),
            1 <= i <= detection.matches@.len(),
            start == first_line(all.take(i as int)),
            end == last_line(all.take(i as int)),
        decreases detection.matches@.len() - i,
    {
        proof {
            assert(all[i as int] == detection.matches@[i as int]@);
            assert(all.take(i + 1).drop_last() == all.take(i as int));
            assert(all.take(i + 1).last() == all[i as int]);
        }
        let match_start: usize = detection.matches[i].start_line.get();
        let match_end: usize = detection.matches[i].end_line.get();
        if match_start < start {
            start = match_start;
        }
        if match_end > end {
            end = match_end;
        }
        i = i + 1;
    }
    assert(all.take(i as int) == all);
    Some((start, end))
}

/// Whether two ranges of lines have a line in common, or meet.
pub fn ranges_overlap(a_start: usize, a_end: usize, b_start: usize, b_end: usize) -> (r: bool)
    ensures
        r == overlap((a_start as nat, a_end as nat), (b_start as nat, b_end as nat)),
{
    a_start <= b_end && b_start <= a_end
}

/// Whether a detection stands for a license that is mentioned and not named.
pub fn detection_is_unknown_reference(detection: &PublicLicenseDetection) -> (r: bool)
    ensures
        r == unknown_detection(detection@),
{
    text::same_str(detection.license_expression.as_str(), "unknown-license-reference")
        || text::same_str(
        detection.license_expression_spdx.as_str(),
        "LicenseRef-scancode-unknown-license-reference",
    )
}

/// The expression of a detection, where it has one that can be read.
pub fn detection_expression_ast(detection: &PublicLicenseDetection) -> (r: Option<
    LicenseExpression,
>)
    ensures
        r is Some == detection_expr(detection@) is Some,
        r is Some ==> r->0@ == detection_expr(detection@)->0,
{
    let expression = if !detection.license_expression_spdx.as_str().is_empty() {
        detection.license_expression_spdx.as_str()
    } else if !detection.license_expression.as_str().is_empty() {
        detection.license_expression.as_str()
    } else {
        return None;
    };
    match expression::parse_expression(expression) {
        Ok(parsed) => Some(parsed),
        Err(_) => None,
    }
}

fn overlap_of(a: &PublicLicenseDetection, b: &PublicLicenseDetection) -> (r: bool)
    ensures
        r == detections_overlap(a@, b@),
{
    match (detection_line_range(a), detection_line_range(b)) {
        (Some(x), Some(y)) => ranges_overlap(x.0, x.1, y.0, y.1),
        _ => false,
    }
}

/// The keys of a detection that offers a choice.
fn choice_keys(detection: &PublicLicenseDetection) -> (r: Option<Vec<String>>)
    ensures
        r is Some == offers_choice(detection@),
        r is Some ==> text::texts(r->0@).to_set() == expression::key_set(
            detection_expr(detection@)->0,
        ),
{
    match detection_expression_ast(detection) {
        Some(parsed) => {
            if expression::expression_contains_or(&parsed) && detection.matches.len() > 0 {
                Some(expression::lower_keys(&parsed))
            } else {
                None
            }
        },
        None => None,
    }
}

fn same_keys(a: &Vec<String>, b: &Vec<String>) -> (r: bool)
    ensures
        r == (text::texts(a@).to_set() == text::texts(b@).to_set()),
{
    let r = expression::has_all_keys(a, b) && expression::has_all_keys(b, a);
    proof {
        if r {
            assert(text::texts(a@).to_set() =~= text::texts(b@).to_set());
        }
    }
    r
}

fn is_hidden_unknown(
    detection: &PublicLicenseDetection,
    detections: &Vec<PublicLicenseDetection>,
) -> (r: bool)
    ensures
        r == exists|i: int|
            0 <= i < detections@.len() && hides_unknown(
                #[trigger] models::detection_views(detections@)[i],
                detection@,
            ),
{
    let ghost all = models::detection_views(detections@);
    let mut i: usize = 0;
    while i < detections.len()
        invariant
            all == models::detection_views(detections@),
            i <= detections@.len(),
            forall|j: int| 0 <= j < i ==> !hides_unknown(#[trigger] all[j], detection@),
        decreases detections@.len() - i,
    {
        assert(all[i as int] == detections@[i as int]@);
        if !detection_is_unknown_reference(&detections[i]) && overlap_of(
            detection,
            &detections[i],
        ) {
            assert(hides_unknown(all[i as int], detection@));
            return true;
        }
        i = i + 1;
    }
    false
}

fn is_hidden_conjunction(
    keys: &Vec<String>,
    detection: &PublicLicenseDetection,
    detections: &Vec<PublicLicenseDetection>,
) -> (r: bool)
    requires
        text::texts(keys@).to_set() == expression::key_set(detection_expr(detection@)->0),
    ensures
        r == exists|i: int|
            0 <= i < detections@.len() && hides_conjunction(
                #[trigger] models::detection_views(detections@)[i],
                detection@,
            ),
{
    let ghost all = models::detection_views(detections@);
    let mut i: usize = 0;
    while i < detections.len()
        invariant
            text::texts(keys@).to_set() == expression::key_set(detection_expr(detection@)->0),
            all == models::detection_views(detections@),
            i <= detections@.len(),
            forall|j: int| 0 <= j < i ==> !hides_conjunction(#[trigger] all[j], detection@),
        decreases detections@.len() - i,
    {
        assert(all[i as int] == detections@[i as int]@);
        if let Some(candidate_keys) = choice_keys(&detections[i]) {
            if same_keys(&candidate_keys, keys) && overlap_of(detection, &detections[i]) {
                assert(hides_conjunction(all[i as int], detection@));
                return true;
            }
        }
        i = i + 1;
    }
    false
}

fn is_redundant(
    detection: &PublicLicenseDetection,
    detections: &Vec<PublicLicenseDetection>,
) -> (r: bool)
    ensures
        r == redundant(detection@, models::detection_views(detections@)),
{
    assert(models::detection_views(detections@).len() == detections@.len());
    if detection_is_unknown_reference(detection) && is_hidden_unknown(detection, detections) {
        return true;
    }
    match detection_expression_ast(detection) {
        Some(parsed) => {
            if expression::expression_contains_or(&parsed) || !expression::expression_contains_and(
                &parsed,
            ) {
                false
            } else {
                let keys = expression::lower_keys(&parsed);
                is_hidden_conjunction(&keys, detection, detections)
            }
        },
        None => false,
    }
}

fn has_choice(detections: &Vec<PublicLicenseDetection>) -> (r: bool)
    ensures
        r == exists|i: int|
            0 <= i < detections@.len() && offers_choice(
                #[trigger] models::detection_views(detections@)[i],
            ),
{
    let ghost all = models::detection_views(detections@);
    let mut i: usize = 0;
    while i < detections.len()
        invariant
            all == models::detection_views(detections@),
            i <= detections@.len(),
            forall|j: int| 0 <= j < i ==> !offers_choice(#[trigger] all[j]),
        decreases detections@.len() - i,
    {
        assert(all[i as int] == detections@[i as int]@);
        if choice_keys(&detections[i]).is_some() {
            assert(offers_choice(all[i as int]));
            return true;
        }
        i = i + 1;
    }
    false
}

/// Removes the detections of a README file that a license choice makes redundant.
pub fn prune_redundant_readme_conjunctive_detections(
    path: &ScanPath,
    detections: &mut Vec<PublicLicenseDetection>,
)
    ensures
        models::detection_views(final(detections)@) == without_redundant(
            path@,
            models::detection_views(old(detections)@),
        ),
{
    let ghost all = models::detection_views(detections@);
    assert(all.len() == detections@.len());
    if !paths::is_readme_like_path(path) || detections.len() < 2 || !has_choice(detections) {
        return;
    }
    let ghost keep = |d: models::DetectionView| !redundant(d, all);
    let mut kept: Vec<PublicLicenseDetection> = Vec::new();
    let mut i: usize = 0;
    proof {
        lists::lemma_filter_empty(keep);
        assert(all.take(0) == Seq::<models::DetectionView>::empty());
        assert(models::detection_views(kept@) == all.take(0).filter(keep));
    }
    while i < detections.len()
        invariant
            all == models::detection_views(detections@),
            keep == (|d: models::DetectionView| !redundant(d, all)),
            i <= detections@.len(),
            models::detection_views(kept@) == all.take(i as int).filter(keep),
        decreases detections@.len() - i,
    {
        let ghost before = models::detection_views(kept@);
        proof {
            assert(all[i as int] == detections@[i as int]@);
            lists::lemma_filter_take(all, keep, i as int);
        }
        if !is_redundant(&detections[i], detections) {
            kept.push(detections[i].clone());
            assert(models::detection_views(kept@) == before.push(all[i as int]));
        }
        i = i + 1;
    }
    assert(all.take(i as int) == all);
    *detections = kept;
}

/// Whether a text announces a choice between licenses.
pub fn has_dual_licensed_under_notice_text(content: &str) -> (r: bool)
    ensures
        r == announces_choice(content@),
{
    let chars = text::to_chars(content);
    let lower = text::lower_chars(&chars);
    text::contains_str(&lower, "dual-licensed under") || text::contains_str(
        &lower,
        "dual licensed under",
    )
}

fn is_present(
    detections: &Vec<PublicLicenseDetection>,
    spdx: &[char],
    range: (usize, usize),
) -> (r: bool)
    ensures
        r == present(
            models::detection_views(detections@),
            spdx@,
            (range.0 as nat, range.1 as nat),
        ),
{
    let ghost all = models::detection_views(detections@);
    let ghost lines = (range.0 as nat, range.1 as nat);
    assert(all.len() == detections@.len());
    let mut i: usize = 0;
    while i < detections.len()
        invariant
            all == models::detection_views(detections@),
            all.len() == detections@.len(),
            lines == (range.0 as nat, range.1 as nat),
            i <= detections@.len(),
            forall|j: int| 0 <= j < i ==> !stands_on(#[trigger] all[j], spdx@, lines),
        decreases detections@.len() - i,
    {
        assert(all[i as int] == detections@[i as int]@);
        let existing = text::to_chars(detections[i].license_expression_spdx.as_str());
        if text::same_chars(&existing, spdx) {
            if let Some(other) = detection_line_range(&detections[i]) {
                if other.0 == range.0 && other.1 == range.1 {
                    assert(stands_on(all[i as int], spdx@, lines));
                    return true;
                }
            }
        }
        i = i + 1;
    }
    false
}

/// Adds the single licenses of one choice.
fn add_choices(
    detection: &PublicLicenseDetection,
    range: (usize, usize),
    detections: &Vec<PublicLicenseDetection>,
    extras: &mut Vec<PublicLicenseDetection>,
)
    requires
        line_range(detection@) == Some((range.0 as nat, range.1 as nat)),
    ensures
        models::detection_views(final(extras)@) == choices_after_matches(
            detection@,
            detection@.matches,
            models::detection_views(detections@),
            models::detection_views(old(extras)@),
        ),
{
    let ghost start = models::detection_views(extras@);
    let ghost all = models::detection_views(detections@);
    let ghost matches = detection@.matches;
    let mut i: usize = 0;
    assert(matches.take(0) == Seq::<models::MatchView>::empty());
    while i < detection.matches.len()
        invariant
            all == models::detection_views(detections@),
            matches == models::match_views(detection.matches@),
            matches == detection@.matches,
            line_range(detection@) == Some((range.0 as nat, range.1 as nat)),
            i <= detection.matches@.len(),
            models::detection_views(extras@) == choices_after_matches(
                detection@,
                matches.take(i as int),
                all,
                start,
            ),
        decreases detection.matches@.len() - i,
    {
        let ghost before = models::detection_views(extras@);
        let detection_match = &detection.matches[i];
        proof {
            assert(matches[i as int] == detection_match@);
            assert(matches.take(i + 1).drop_last() == matches.take(i as int));
            assert(matches.take(i + 1).last() == matches[i as int]);
        }
        i = i + 1;
        let spdx = text::to_chars(detection_match.license_expression_spdx.as_str());
        let single = text::trim(&spdx);
        if single.len() == 0 || text::contains_str(single, " OR ") || text::contains_str(
            single,
            " AND ",
        ) || text::contains_str(single, " WITH ") {
            continue ;
        }
        if is_present(detections, single, range) || is_present(extras, single, range) {
            continue ;
        }
        let mut matches_of_extra: Vec<Match> = Vec::new();
        matches_of_extra.push(detection_match.clone());
        let extra = PublicLicenseDetection {
            license_expression: detection_match.license_expression.clone(),
            license_expression_spdx: detection_match.license_expression_spdx.clone(),
            matches: matches_of_extra,
            detection_log: models::copy_strings(&detection.detection_log),
            identifier: String::new(),
        };
        let ghost added = extra@;
        proof {
            let expected = single_choice(detection@, detection_match@);
            assert(added.matches =~= expected.matches);
            assert(added.identifier =~= expected.identifier);
            assert(added =~= expected);
        }
        extras.push(extra);
        assert(models::detection_views(extras@) == before.push(added));
    }
    assert(matches.take(i as int) == matches);
}

/// Adds the single licenses of the choices of a README file that announces one.
pub fn expand_dual_licensed_under_readme_choice_detections(
    path: &ScanPath,
    text_content: &str,
    detections: &mut Vec<PublicLicenseDetection>,
)
    ensures
        models::detection_views(final(detections)@) == with_single_choices(
            path@,
            text_content@,
            models::detection_views(old(detections)@),
        ),
{
    if !paths::is_readme_like_path(path) || !has_dual_licensed_under_notice_text(text_content) {
        return;
    }
    let ghost all = models::detection_views(detections@);
    let mut extras: Vec<PublicLicenseDetection> = Vec::new();
    let mut i: usize = 0;
    assert(models::detection_views(extras@) == choices_after(all.take(0), all));
    while i < detections.len()
        invariant
            all == models::detection_views(detections@),
            i <= detections@.len(),
            models::detection_views(extras@) == choices_after(all.take(i as int), all),
        decreases detections@.len() - i,
    {
        proof {
            assert(all[i as int] == detections@[i as int]@);
            assert(all.take(i + 1).drop_last() == all.take(i as int));
            assert(all.take(i + 1).last() == all[i as int]);
        }
        let spdx = text::to_chars(detections[i].license_expression_spdx.as_str());
        if text::contains_str(&spdx, " OR ") {
            if let Some(range) = detection_line_range(&detections[i]) {
                add_choices(&detections[i], range, detections, &mut extras);
            }
        }
        i = i + 1;
    }
    assert(all.take(i as int) == all);
    let ghost added = models::detection_views(extras@);
    let ghost before = detections@;
    let ghost extra_seq = extras@;
    detections.append(&mut extras);
    assert(models::detection_views(detections@) == models::detection_views(before)
        + models::detection_views(extra_seq));
}

/// Overlap has no direction.
pub proof fn law_overlap_symmetric(a: (nat, nat), b: (nat, nat))
    ensures
        overlap(a, b) == overlap(b, a),
{
}

proof fn lemma_range_bounds(matches: Seq<models::MatchView>)
    requires
        matches.len() > 0,
    ensures
        forall|i: int|
            0 <= i < matches.len() ==> first_line(matches)
                <= (#[trigger] matches[i]).start_line.number() && matches[i].end_line.number()
                <= last_line(matches),
    decreases matches.len(),
{
    if matches.len() > 1 {
        lemma_range_bounds(matches.drop_last());
        assert forall|i: int| 0 <= i < matches.len() implies first_line(matches) <= (
        #[trigger] matches[i]).start_line.number() && matches[i].end_line.number() <= last_line(
            matches,
        ) by {
            if i < matches.len() - 1 {
                assert(matches.drop_last()[i] == matches[i]);
            }
        }
    }
}

/// The lines of a detection hold those of each of its matches.
pub proof fn law_line_range_holds_matches(d: models::DetectionView, i: int)
    requires
        0 <= i < d.matches.len(),
    ensures
        line_range(d) is Some,
        (line_range(d)->0).0 <= d.matches[i].start_line.number(),
        d.matches[i].end_line.number() <= (line_range(d)->0).1,
{
    lemma_range_bounds(d.matches);
}

/// Only detections of unknown licenses and conjunctions are ever redundant: a
/// choice, and a single license that is known, stay.
pub proof fn law_choices_stay(
    path: paths::PathView,
    all: Seq<models::DetectionView>,
    i: int,
)
    requires
        0 <= i < all.len(),
        !unknown_detection(all[i]),
        !conjunctive(all[i]),
    ensures
        without_redundant(path, all).contains(all[i]),
{
    let keep = |d: models::DetectionView| !redundant(d, all);
    assert(keep(all[i]));
    lists::lemma_filter_keeps(all, keep, i);
}

/// Nothing comes in when the redundant detections go, and what is left stays in
/// its order.
pub proof fn law_redundant_only_removes(path: paths::PathView, all: Seq<models::DetectionView>)
    ensures
        without_redundant(path, all).len() <= all.len(),
        forall|i: int|
            0 <= i < without_redundant(path, all).len() ==> all.contains(
                #[trigger] without_redundant(path, all)[i],
            ),
        lists::in_order(without_redundant(path, all), all),
{
    let keep = |d: models::DetectionView| !redundant(d, all);
    lists::lemma_filter_holds(all, keep);
    lists::lemma_filter_in_order(all, keep);
    lists::lemma_in_order_itself(all);
    assert forall|i: int| 0 <= i < without_redundant(path, all).len() implies all.contains(
        #[trigger] without_redundant(path, all)[i],
    ) by {
        if without_redundant(path, all) == all {
            assert(all[i] == without_redundant(path, all)[i]);
        } else {
            assert(without_redundant(path, all) == all.filter(keep));
            assert(all.contains(all.filter(keep)[i]));
        }
    }
}

/// What is left without the redundant detections has no redundant ones.
pub proof fn law_nothing_redundant_is_left(path: paths::PathView, all: Seq<models::DetectionView>)
    ensures
        without_redundant(path, without_redundant(path, all)) == without_redundant(path, all),
{
    let left = without_redundant(path, all);
    law_redundant_only_removes(path, all);
    if left != all {
        let keep = |d: models::DetectionView| !redundant(d, all);
        let keep_again = |d: models::DetectionView| !redundant(d, left);
        assert(left == all.filter(keep));
        lists::lemma_filter_holds(all, keep);
        assert forall|i: int| 0 <= i < left.len() implies keep_again(#[trigger] left[i]) by {
            let d = left[i];
            assert(keep(d));
            if redundant(d, left) {
                if unknown_detection(d) && exists|j: int|
                    0 <= j < left.len() && hides_unknown(#[trigger] left[j], d) {
                    let j = choose|j: int|
                        0 <= j < left.len() && hides_unknown(#[trigger] left[j], d);
                    assert(all.contains(left[j]));
                    let k = choose|k: int| 0 <= k < all.len() && #[trigger] all[k] == left[j];
                    assert(hides_unknown(all[k], d));
                } else {
                    let j = choose|j: int|
                        0 <= j < left.len() && hides_conjunction(#[trigger] left[j], d);
                    assert(all.contains(left[j]));
                    let k = choose|k: int| 0 <= k < all.len() && #[trigger] all[k] == left[j];
                    assert(hides_conjunction(all[k], d));
                }
            }
        }
        lists::lemma_filter_all(left, keep_again);
    }
}

/// A detection of one match that names a single license.
pub open spec fn shows_single(d: models::DetectionView) -> bool {
    d.matches.len() == 1 && names_single(d.matches[0]) && d.license_expression
        == d.matches[0].license_expression && d.license_expression_spdx
        == d.matches[0].license_expression_spdx
}

proof fn lemma_choices_after_matches_single(
    d: models::DetectionView,
    matches: Seq<models::MatchView>,
    all: Seq<models::DetectionView>,
    added: Seq<models::DetectionView>,
)
    requires
        forall|i: int| 0 <= i < added.len() ==> shows_single(#[trigger] added[i]),
    ensures
        forall|i: int|
            0 <= i < choices_after_matches(d, matches, all, added).len() ==> shows_single(
                #[trigger] choices_after_matches(d, matches, all, added)[i],
            ),
    decreases matches.len(),
{
    if matches.len() > 0 {
        lemma_choices_after_matches_single(d, matches.drop_last(), all, added);
        let before = choices_after_matches(d, matches.drop_last(), all, added);
        let after = choices_after_matches(d, matches, all, added);
        assert forall|i: int| 0 <= i < after.len() implies shows_single(#[trigger] after[i]) by {
            if i < before.len() {
                assert(after[i] == before[i]);
            } else {
                assert(after[i] == single_choice(d, matches.last()));
                assert(after[i].matches[0] == matches.last());
            }
        }
    }
}

proof fn lemma_choices_after_single(
    ds: Seq<models::DetectionView>,
    all: Seq<models::DetectionView>,
)
    ensures
        forall|i: int|
            0 <= i < choices_after(ds, all).len() ==> shows_single(
                #[trigger] choices_after(ds, all)[i],
            ),
    decreases ds.len(),
{
    if ds.len() > 0 {
        lemma_choices_after_single(ds.drop_last(), all);
        lemma_choices_after_matches_single(
            ds.last(),
            ds.last().matches,
            all,
            choices_after(ds.drop_last(), all),
        );
    }
}

/// The detections stay where they are when the single licenses of choices come
/// in, and what comes in are detections of one match, each of a single license.
pub proof fn law_added_choices_are_single(
    path: paths::PathView,
    content: Seq<char>,
    all: Seq<models::DetectionView>,
)
    ensures
        with_single_choices(path, content, all).len() >= all.len(),
        with_single_choices(path, content, all).take(all.len() as int) == all,
        forall|i: int|
            all.len() <= i < with_single_choices(path, content, all).len() ==> shows_single(
                #[trigger] with_single_choices(path, content, all)[i],
            ),
{
    lemma_choices_after_single(all, all);
    let r = with_single_choices(path, content, all);
    if r != all {
        assert forall|i: int| all.len() <= i < r.len() implies shows_single(#[trigger] r[i]) by {
            assert(r[i] == choices_after(all, all)[i - all.len()]);
        }
    }
}

/// A text begins with another one.
spec fn grows<A>(before: Seq<A>, after: Seq<A>) -> bool {
    before.len() <= after.len() && after.take(before.len() as int) == before
}

proof fn lemma_present_grows(
    before: Seq<models::DetectionView>,
    after: Seq<models::DetectionView>,
    spdx: Seq<char>,
    range: (nat, nat),
)
    requires
        grows(before, after),
        present(before, spdx, range),
    ensures
        present(after, spdx, range),
{
    let i = choose|i: int| 0 <= i < before.len() && stands_on(#[trigger] before[i], spdx, range);
    assert(after.take(before.len() as int)[i] == after[i]);
    assert(stands_on(after[i], spdx, range));
}

proof fn lemma_choices_grow(
    d: models::DetectionView,
    matches: Seq<models::MatchView>,
    all: Seq<models::DetectionView>,
    added: Seq<models::DetectionView>,
    n: int,
)
    requires
        0 <= n <= matches.len(),
    ensures
        grows(
            choices_after_matches(d, matches.take(n), all, added),
            choices_after_matches(d, matches, all, added),
        ),
        grows(added, choices_after_matches(d, matches, all, added)),
    decreases matches.len(),
{
    let after = choices_after_matches(d, matches, all, added);
    if matches.len() == 0 {
        assert(matches.take(n) == matches);
        assert(after.take(after.len() as int) == after);
    } else {
        let fewer = matches.drop_last();
        let before = choices_after_matches(d, fewer, all, added);
        assert(before.take(before.len() as int) == before);
        assert(after.take(before.len() as int) == before);
        lemma_choices_grow(d, fewer, all, added, 0);
        assert(after.take(added.len() as int) == before.take(added.len() as int));
        if n < matches.len() {
            lemma_choices_grow(d, fewer, all, added, n);
            assert(fewer.take(n) == matches.take(n));
            let part = choices_after_matches(d, matches.take(n), all, added);
            assert(after.take(part.len() as int) == before.take(part.len() as int));
        } else {
            assert(matches.take(n) == matches);
            assert(after.take(after.len() as int) == after);
        }
    }
}

/// The license of a match shows: a detection with its SPDX expression stands on the
/// lines of the choice, or a detection shows just the match.
pub open spec fn shows_choice(
    shown: Seq<models::DetectionView>,
    choice: models::DetectionView,
    m: models::MatchView,
) -> bool {
    exists|k: int|
        0 <= k < shown.len() && ({
            let d = #[trigger] shown[k];
            ||| d.license_expression_spdx == text::trim_of(m.license_expression_spdx) && line_range(
                d,
            ) == line_range(choice)
            ||| d.matches == seq![m] && d.license_expression == m.license_expression
                && d.license_expression_spdx == m.license_expression_spdx
        })
}

proof fn lemma_match_is_shown(
    d: models::DetectionView,
    matches: Seq<models::MatchView>,
    all: Seq<models::DetectionView>,
    added: Seq<models::DetectionView>,
    j: int,
)
    requires
        0 <= j < matches.len(),
        names_single(matches[j]),
        line_range(d) is Some,
    ensures
        shows_choice(all + choices_after_matches(d, matches, all, added), d, matches[j]),
{
    let m = matches[j];
    let spdx = text::trim_of(m.license_expression_spdx);
    let range = line_range(d)->0;
    let upto = matches.take(j + 1);
    assert(upto.drop_last() == matches.take(j));
    assert(upto.last() == m);
    let before = choices_after_matches(d, matches.take(j), all, added);
    let after = choices_after_matches(d, upto, all, added);
    let whole = choices_after_matches(d, matches, all, added);
    lemma_choices_grow(d, matches, all, added, j + 1);
    let shown = all + whole;
    if present(all, spdx, range) {
        let k = choose|k: int| 0 <= k < all.len() && stands_on(#[trigger] all[k], spdx, range);
        assert(shown[k] == all[k]);
    } else if present(before, spdx, range) {
        lemma_choices_grow(d, matches, all, added, j);
        lemma_present_grows(before, whole, spdx, range);
        let k = choose|k: int| 0 <= k < whole.len() && stands_on(#[trigger] whole[k], spdx, range);
        assert(shown[all.len() + k] == whole[k]);
    } else {
        let k = before.len() as int;
        assert(after[k] == single_choice(d, m));
        assert(whole.take(after.len() as int)[k] == whole[k]);
        assert(shown[all.len() + k] == single_choice(d, m));
    }
}

proof fn lemma_more_choices_grow(ds: Seq<models::DetectionView>, all: Seq<models::DetectionView>, n: int)
    requires
        0 <= n <= ds.len(),
    ensures
        grows(choices_after(ds.take(n), all), choices_after(ds, all)),
    decreases ds.len(),
{
    let after = choices_after(ds, all);
    if n == ds.len() {
        assert(ds.take(n) == ds);
        assert(after.take(after.len() as int) == after);
    } else {
        let fewer = ds.drop_last();
        let before = choices_after(fewer, all);
        lemma_more_choices_grow(fewer, all, n);
        assert(fewer.take(n) == ds.take(n));
        let d = ds.last();
        lemma_choices_grow(d, d.matches, all, before, 0);
        assert(before.take(before.len() as int) == before);
        assert(grows(before, after));
        let part = choices_after(ds.take(n), all);
        assert(after.take(part.len() as int) == after.take(before.len() as int).take(
            part.len() as int,
        ));
    }
}

/// Every single license of a choice shows, where a README file announces one: a
/// detection with its expression stands on the lines of the choice, or a detection
/// shows just that match. What was there stays, in front.
pub proof fn law_every_license_of_a_choice_shows(
    path: paths::PathView,
    content: Seq<char>,
    all: Seq<models::DetectionView>,
    i: int,
    j: int,
)
    requires
        path.file_stem is Some,
        text::lower(path.file_stem->0) == "readme"@,
        text::has_text(text::lower(content), "dual-licensed under"@) || text::has_text(
            text::lower(content),
            "dual licensed under"@,
        ),
        0 <= i < all.len(),
        text::has_text(all[i].license_expression_spdx, " OR "@),
        0 <= j < all[i].matches.len(),
        ({
            let s = text::trim_of(all[i].matches[j].license_expression_spdx);
            &&& s.len() > 0
            &&& !text::has_text(s, " OR "@)
            &&& !text::has_text(s, " AND "@)
            &&& !text::has_text(s, " WITH "@)
        }),
    ensures
        shows_choice(with_single_choices(path, content, all), all[i], all[i].matches[j]),
        with_single_choices(path, content, all).len() >= all.len(),
        with_single_choices(path, content, all).take(all.len() as int) == all,
{
    reveal_strlit("readme");
    assert(text::lower("readme"@) =~= "readme"@);
    let d = all[i];
    let upto = all.take(i + 1);
    assert(upto.drop_last() == all.take(i));
    assert(upto.last() == d);
    let before = choices_after(all.take(i), all);
    let after = choices_after(upto, all);
    let whole = choices_after(all, all);
    lemma_match_is_shown(d, d.matches, all, before, j);
    lemma_more_choices_grow(all, all, i + 1);
    let part = all + after;
    let shown = all + whole;
    assert(with_single_choices(path, content, all) == shown);
    assert(shown.take(all.len() as int) == all);
    let m = d.matches[j];
    let k = choose|k: int|
        0 <= k < part.len() && ({
            let e = #[trigger] part[k];
            ||| e.license_expression_spdx == text::trim_of(m.license_expression_spdx) && line_range(
                e,
            ) == line_range(d)
            ||| e.matches == seq![m] && e.license_expression == m.license_expression
                && e.license_expression_spdx == m.license_expression_spdx
        });
    assert(shown[k] == part[k]) by {
        if k >= all.len() {
            assert(whole.take(after.len() as int)[k - all.len()] == whole[k - all.len()]);
        }
    }
}

/// Only a README file that announces a choice gains detections.
pub proof fn law_choices_need_a_notice(
    path: paths::PathView,
    content: Seq<char>,
    all: Seq<models::DetectionView>,
)
    requires
        path.file_stem is None || text::lower(path.file_stem->0) != "readme"@ || (!text::has_text(
            text::lower(content),
            "dual-licensed under"@,
        ) && !text::has_text(text::lower(content), "dual licensed under"@)),
    ensures
        with_single_choices(path, content, all) == all,
{
    reveal_strlit("readme");
    assert(text::lower("readme"@) =~= "readme"@);
}

/// Two ranges of lines overlap if and only if they have a line in common.
pub proof fn law_overlap_is_a_common_line(a: (nat, nat), b: (nat, nat))
    requires
        a.0 <= a.1,
        b.0 <= b.1,
    ensures
        overlap(a, b) == exists|n: nat| a.0 <= n <= a.1 && #[trigger] in_range(b, n),
{
    if overlap(a, b) {
        let n = if a.0 <= b.0 {
            b.0
        } else {
            a.0
        };
        assert(in_range(b, n));
    }
}

/// A line lies in a range.
pub open spec fn in_range(range: (nat, nat), n: nat) -> bool {
    range.0 <= n <= range.1
}

/// The range of lines of a detection begins with a line that one of its matches
/// begins with, and ends with one that a match ends with.
pub proof fn law_line_range_is_of_matches(d: models::DetectionView)
    requires
        d.matches.len() > 0,
    ensures
        line_range(d) is Some,
        exists|i: int|
            0 <= i < d.matches.len() && (#[trigger] d.matches[i]).start_line.number() == (
            line_range(d)->0).0,
        exists|i: int|
            0 <= i < d.matches.len() && (#[trigger] d.matches[i]).end_line.number() == (line_range(
                d,
            )->0).1,
{
    lemma_range_attained(d.matches);
}

proof fn lemma_range_attained(matches: Seq<models::MatchView>)
    requires
        matches.len() > 0,
    ensures
        exists|i: int|
            0 <= i < matches.len() && (#[trigger] matches[i]).start_line.number() == first_line(
                matches,
            ),
        exists|i: int|
            0 <= i < matches.len() && (#[trigger] matches[i]).end_line.number() == last_line(
                matches,
            ),
    decreases matches.len(),
{
    if matches.len() == 1 {
        assert(matches[0].start_line.number() == first_line(matches));
        assert(matches[0].end_line.number() == last_line(matches));
    } else {
        let fewer = matches.drop_last();
        lemma_range_attained(fewer);
        assert(matches[matches.len() - 1] == matches.last());
        let a = choose|i: int|
            0 <= i < fewer.len() && (#[trigger] fewer[i]).start_line.number() == first_line(fewer);
        let b = choose|i: int|
            0 <= i < fewer.len() && (#[trigger] fewer[i]).end_line.number() == last_line(fewer);
        assert(matches[a] == fewer[a] && matches[b] == fewer[b]);
        if first_line(matches) == first_line(fewer) {
            assert(matches[a].start_line.number() == first_line(matches));
        } else {
            assert(matches[matches.len() - 1].start_line.number() == first_line(matches));
        }
        if last_line(matches) == last_line(fewer) {
            assert(matches[b].end_line.number() == last_line(matches));
        } else {
            assert(matches[matches.len() - 1].end_line.number() == last_line(matches));
        }
    }
}

/// A choice between licenses in a README file hides a conjunction of the same
/// licenses on its lines.
pub proof fn law_choice_hides_conjunction(
    path: paths::PathView,
    all: Seq<models::DetectionView>,
    choice: int,
    joint: int,
)
    requires
        path.file_stem is Some,
        text::lower(path.file_stem->0) == "readme"@,
        0 <= choice < all.len(),
        0 <= joint < all.len(),
        detection_expr(all[choice]) is Some,
        expression::has_or(detection_expr(all[choice])->0),
        detection_expr(all[joint]) is Some,
        !expression::has_or(detection_expr(all[joint])->0),
        expression::has_and(detection_expr(all[joint])->0),
        expression::key_set(detection_expr(all[choice])->0) == expression::key_set(
            detection_expr(all[joint])->0,
        ),
        all[choice].matches.len() > 0,
        all[joint].matches.len() > 0,
        overlap(line_range(all[joint])->0, line_range(all[choice])->0),
    ensures
        !without_redundant(path, all).contains(all[joint]),
{
    reveal_strlit("readme");
    assert(text::lower("readme"@) =~= "readme"@);
    let keep = |d: models::DetectionView| !redundant(d, all);
    assert(hides_conjunction(all[choice], all[joint]));
    assert(redundant(all[joint], all));
    assert(offers_choice(all[choice]));
    assert(choice != joint);
    lists::lemma_filter_holds(all, keep);
    if all.filter(keep).contains(all[joint]) {
        let i = choose|i: int| 0 <= i < all.filter(keep).len() && all.filter(keep)[i] == all[joint];
        assert(keep(all.filter(keep)[i]));
    }
}

/// A known license hides a mention of an unknown one on its lines, in a README file
/// that offers a choice.
pub proof fn law_known_license_hides_unknown(
    path: paths::PathView,
    all: Seq<models::DetectionView>,
    choice: int,
    known: int,
    unknown: int,
)
    requires
        path.file_stem is Some,
        text::lower(path.file_stem->0) == "readme"@,
        0 <= choice < all.len(),
        0 <= known < all.len(),
        0 <= unknown < all.len(),
        offers_choice(all[choice]),
        all[unknown].license_expression == "unknown-license-reference"@,
        all[known].license_expression != "unknown-license-reference"@,
        all[known].license_expression_spdx != "LicenseRef-scancode-unknown-license-reference"@,
        all[known].matches.len() > 0,
        all[unknown].matches.len() > 0,
        overlap(line_range(all[unknown])->0, line_range(all[known])->0),
    ensures
        !without_redundant(path, all).contains(all[unknown]),
{
    reveal_strlit("readme");
    assert(text::lower("readme"@) =~= "readme"@);
    let keep = |d: models::DetectionView| !redundant(d, all);
    assert(hides_unknown(all[known], all[unknown]));
    assert(redundant(all[unknown], all));
    assert(known != unknown);
    lists::lemma_filter_holds(all, keep);
    if all.filter(keep).contains(all[unknown]) {
        let i = choose|i: int|
            0 <= i < all.filter(keep).len() && all.filter(keep)[i] == all[unknown];
        assert(keep(all.filter(keep)[i]));
    }
}

/// A detection that goes is a mention of an unknown license on the lines of a known
/// one, or a conjunction on the lines of a choice between the same licenses, in a
/// README file that offers a choice.
pub proof fn law_only_redundant_detections_go(
    path: paths::PathView,
    all: Seq<models::DetectionView>,
    i: int,
)
    requires
        0 <= i < all.len(),
        !without_redundant(path, all).contains(all[i]),
    ensures
        path.file_stem is Some && text::lower(path.file_stem->0) == "readme"@,
        exists|k: int|
            0 <= k < all.len() && ({
                let d = all[i];
                let other = #[trigger] all[k];
                &&& d.matches.len() > 0
                &&& other.matches.len() > 0
                &&& overlap(line_range(d)->0, line_range(other)->0)
                &&& ({
                    ||| (d.license_expression == "unknown-license-reference"@
                        || d.license_expression_spdx
                        == "LicenseRef-scancode-unknown-license-reference"@)
                        && other.license_expression != "unknown-license-reference"@
                        && other.license_expression_spdx
                        != "LicenseRef-scancode-unknown-license-reference"@
                    ||| detection_expr(d) is Some && detection_expr(other) is Some
                        && expression::has_and(detection_expr(d)->0) && !expression::has_or(
                        detection_expr(d)->0,
                    ) && expression::has_or(detection_expr(other)->0) && expression::key_set(
                        detection_expr(d)->0,
                    ) == expression::key_set(detection_expr(other)->0)
                })
            }),
{
    reveal_strlit("readme");
    assert(text::lower("readme"@) =~= "readme"@);
    let keep = |d: models::DetectionView| !redundant(d, all);
    if keep(all[i]) {
        lists::lemma_filter_keeps(all, keep, i);
    }
    if without_redundant(path, all) == all {
        assert(all.contains(all[i]));
    }
    assert(redundant(all[i], all));
    if unknown_detection(all[i]) && exists|k: int|
        0 <= k < all.len() && hides_unknown(#[trigger] all[k], all[i]) {
        let k = choose|k: int| 0 <= k < all.len() && hides_unknown(#[trigger] all[k], all[i]);
        assert(all[k].matches.len() > 0);
    } else {
        let k = choose|k: int| 0 <= k < all.len() && hides_conjunction(#[trigger] all[k], all[i]);
        assert(all[k].matches.len() > 0);
    }
}

/// The expression of a detection is that of its SPDX expression, and that of its
/// license keys only where it has none.
pub proof fn law_detection_expression(d: models::DetectionView)
    ensures
        d.license_expression_spdx.len() > 0 ==> detection_expr(d) == expression::parsed(
            d.license_expression_spdx,
        ),
        d.license_expression_spdx.len() == 0 ==> detection_expr(d) == expression::parsed(
            d.license_expression,
        ),
{
    if d.license_expression.len() == 0 {
        reading::law_white_space_around_does_not_matter(d.license_expression);
        text::lemma_trim(d.license_expression);
    }
}

/// An added detection shows a single license of a choice, which neither stood on
/// the lines of the choice before nor was added before.
pub open spec fn added_for(
    choice: models::DetectionView,
    all: Seq<models::DetectionView>,
    before: Seq<models::DetectionView>,
    d: models::DetectionView,
) -> bool {
    &&& text::has_text(choice.license_expression_spdx, " OR "@)
    &&& d.matches.len() == 1
    &&& choice.matches.contains(d.matches[0])
    &&& d.license_expression == d.matches[0].license_expression
    &&& d.license_expression_spdx == d.matches[0].license_expression_spdx
    &&& d.detection_log == choice.detection_log
    &&& d.identifier.len() == 0
    &&& text::trim_of(d.license_expression_spdx).len() > 0
    &&& !text::has_text(text::trim_of(d.license_expression_spdx), " OR "@)
    &&& !text::has_text(text::trim_of(d.license_expression_spdx), " AND "@)
    &&& !text::has_text(text::trim_of(d.license_expression_spdx), " WITH "@)
    &&& !present(all, text::trim_of(d.license_expression_spdx), line_range(choice)->0)
    &&& !present(before, text::trim_of(d.license_expression_spdx), line_range(choice)->0)
}

/// Each of the added detections has its choice.
spec fn all_have_choices(
    all: Seq<models::DetectionView>,
    added: Seq<models::DetectionView>,
) -> bool {
    forall|k: int|
        0 <= k < added.len() ==> exists|i: int|
            0 <= i < all.len() && added_for(#[trigger] all[i], all, added.take(k), #[trigger] added[k])
}

proof fn lemma_added_for(
    d: models::DetectionView,
    matches: Seq<models::MatchView>,
    all: Seq<models::DetectionView>,
    added: Seq<models::DetectionView>,
    place: int,
)
    requires
        all_have_choices(all, added),
        0 <= place < all.len(),
        all[place] == d,
        text::has_text(d.license_expression_spdx, " OR "@),
        forall|j: int| 0 <= j < matches.len() ==> d.matches.contains(#[trigger] matches[j]),
    ensures
        all_have_choices(all, choices_after_matches(d, matches, all, added)),
    decreases matches.len(),
{
    if matches.len() > 0 {
        let fewer = matches.drop_last();
        assert forall|j: int| 0 <= j < fewer.len() implies d.matches.contains(
            #[trigger] fewer[j],
        ) by {
            assert(fewer[j] == matches[j]);
        }
        lemma_added_for(d, fewer, all, added, place);
        let before = choices_after_matches(d, fewer, all, added);
        let after = choices_after_matches(d, matches, all, added);
        let m = matches.last();
        assert(matches[matches.len() - 1] == m);
        if after != before {
            assert(after == before.push(single_choice(d, m)));
            assert forall|k: int| 0 <= k < after.len() implies exists|i: int|
                0 <= i < all.len() && added_for(
                    #[trigger] all[i],
                    all,
                    after.take(k),
                    #[trigger] after[k],
                ) by {
                if k < before.len() {
                    assert(after.take(k) == before.take(k));
                    assert(after[k] == before[k]);
                    let i = choose|i: int|
                        0 <= i < all.len() && added_for(
                            #[trigger] all[i],
                            all,
                            before.take(k),
                            before[k],
                        );
                    assert(added_for(all[i], all, after.take(k), after[k]));
                } else {
                    assert(after.take(k) == before);
                    assert(after[k].matches[0] == m);
                    assert(added_for(all[place], all, after.take(k), after[k]));
                }
            }
        }
    }
}

proof fn lemma_all_added_for(ds: Seq<models::DetectionView>, all: Seq<models::DetectionView>)
    requires
        ds.len() <= all.len(),
        ds == all.take(ds.len() as int),
    ensures
        all_have_choices(all, choices_after(ds, all)),
    decreases ds.len(),
{
    if ds.len() > 0 {
        let fewer = ds.drop_last();
        let n = ds.len() - 1;
        assert(fewer == all.take(n));
        lemma_all_added_for(fewer, all);
        let d = ds.last();
        assert(all[n] == d);
        if text::has_text(d.license_expression_spdx, " OR "@) && line_range(d) is Some {
            assert forall|j: int| 0 <= j < d.matches.len() implies d.matches.contains(
                #[trigger] d.matches[j],
            ) by {}
            lemma_added_for(d, d.matches, all, choices_after(fewer, all), n);
        }
    }
}

/// Every added detection shows a single license of a choice that was there, and no
/// license is added where it stands already.
pub proof fn law_added_choices_come_from_choices(
    path: paths::PathView,
    content: Seq<char>,
    all: Seq<models::DetectionView>,
    k: int,
)
    requires
        all.len() <= k < with_single_choices(path, content, all).len(),
    ensures
        ({
            let shown = with_single_choices(path, content, all);
            exists|i: int|
                0 <= i < all.len() && added_for(
                    #[trigger] all[i],
                    all,
                    shown.subrange(all.len() as int, k),
                    shown[k],
                )
        }),
{
    let shown = with_single_choices(path, content, all);
    let added = choices_after(all, all);
    assert(all == all.take(all.len() as int));
    lemma_all_added_for(all, all);
    let n = k - all.len();
    assert(shown[k] == added[n]);
    assert(shown.subrange(all.len() as int, k) == added.take(n));
    let i = choose|i: int|
        0 <= i < all.len() && added_for(#[trigger] all[i], all, added.take(n), added[n]);
    assert(added_for(all[i], all, shown.subrange(all.len() as int, k), shown[k]));
}

/// Where no detection that has matches offers a choice, none goes.
pub proof fn law_without_choices_all_stay(path: paths::PathView, all: Seq<models::DetectionView>)
    requires
        forall|i: int|
            0 <= i < all.len() && (#[trigger] all[i]).matches.len() > 0 ==> detection_expr(
                all[i],
            ) is None || !expression::has_or(detection_expr(all[i])->0),
    ensures
        without_redundant(path, all) == all,
{
    if exists|i: int| 0 <= i < all.len() && offers_choice(#[trigger] all[i]) {
        let i = choose|i: int| 0 <= i < all.len() && offers_choice(#[trigger] all[i]);
        assert(all[i].matches.len() > 0);
    }
}

} // verus!
