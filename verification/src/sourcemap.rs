//! Source maps repeat the license texts of the files that they were made from.
//! Their detections collapse into one.
use vstd::prelude::*;

use crate::context;
use crate::expression;
use crate::lists;
use crate::models;
use crate::models::{Match, PublicLicenseDetection};
use crate::paths;
use crate::paths::ScanPath;
use crate::reading;
use crate::readme;
use crate::spdx;
use crate::text;

verus! {

/// A list with what another one adds to it, each item once.
pub open spec fn merged<A>(first: Seq<A>, more: Seq<A>) -> Seq<A>
    decreases more.len(),
{
    if more.len() == 0 {
        first
    } else {
        let before = merged(first, more.drop_last());
        if before.contains(more.last()) {
            before
        } else {
            before.push(more.last())
        }
    }
}

/// A detection with what another one adds to it.
pub open spec fn merged_detection(
    a: models::DetectionView,
    b: models::DetectionView,
) -> models::DetectionView {
    models::DetectionView {
        license_expression: a.license_expression,
        license_expression_spdx: a.license_expression_spdx,
        matches: merged(a.matches, b.matches),
        detection_log: merged(a.detection_log, b.detection_log),
        identifier: if a.identifier.len() == 0 {
            b.identifier
        } else {
            a.identifier
        },
    }
}

/// Two detections with the same expressions.
pub open spec fn same_expressions(a: models::DetectionView, b: models::DetectionView) -> bool {
    a.license_expression == b.license_expression && a.license_expression_spdx
        == b.license_expression_spdx
}

/// The place of the first detection with the expressions of another one.
pub open spec fn first_same(ds: Seq<models::DetectionView>, d: models::DetectionView) -> Option<int>
    decreases ds.len(),
{
    if ds.len() == 0 {
        None
    } else {
        match first_same(ds.drop_last(), d) {
            Some(i) => Some(i),
            None => if same_expressions(ds.last(), d) {
                Some(ds.len() - 1)
            } else {
                None
            },
        }
    }
}

/// Detections, those with the same expressions merged into the first of them.
pub open spec fn deduplicated(ds: Seq<models::DetectionView>) -> Seq<models::DetectionView>
    decreases ds.len(),
{
    if ds.len() == 0 {
        seq![]
    } else {
        let before = deduplicated(ds.drop_last());
        match first_same(before, ds.last()) {
            Some(i) => before.update(i, merged_detection(before[i], ds.last())),
            None => before.push(ds.last()),
        }
    }
}

/// A detection that names licenses.
pub open spec fn concrete(d: models::DetectionView) -> bool {
    !readme::unknown_detection(d) && (d.license_expression.len() > 0
        || d.license_expression_spdx.len() > 0)
}

/// All detections merged into the first.
pub open spec fn merged_all(ds: Seq<models::DetectionView>) -> models::DetectionView
    decreases ds.len(),
{
    if ds.len() <= 1 {
        ds[0]
    } else {
        merged_detection(merged_all(ds.drop_last()), ds.last())
    }
}

pub open spec fn keys_listed(ds: Seq<models::DetectionView>) -> Seq<Seq<char>> {
    ds.map_values(|d: models::DetectionView| d.license_expression)
}

/// The SPDX expressions of the detections that have one.
pub open spec fn spdx_listed(ds: Seq<models::DetectionView>) -> Seq<Seq<char>> {
    ds.map_values(|d: models::DetectionView| d.license_expression_spdx).filter(
        |s: Seq<char>| s.len() > 0,
    )
}

/// The one detection that stands for all.
pub open spec fn combined_detection(ds: Seq<models::DetectionView>) -> models::DetectionView {
    let all = merged_all(ds);
    models::DetectionView {
        license_expression: match spdx::combined(keys_listed(ds)) {
            Some(s) => s,
            None => all.license_expression,
        },
        license_expression_spdx: match spdx::combined(spdx_listed(ds)) {
            Some(s) => s,
            None => all.license_expression_spdx,
        },
        matches: all.matches,
        detection_log: all.detection_log,
        identifier: all.identifier,
    }
}

/// Detections with one in place of all that name licenses, where the first of
/// them stood.
pub open spec fn one_for_all(
    ds: Seq<models::DetectionView>,
    one: models::DetectionView,
) -> Seq<models::DetectionView>
    decreases ds.len(),
{
    if ds.len() == 0 {
        seq![]
    } else {
        let before = one_for_all(ds.drop_last(), one);
        if !concrete(ds.last()) {
            before.push(ds.last())
        } else if has_concrete(ds.drop_last()) {
            before
        } else {
            before.push(one)
        }
    }
}

pub open spec fn has_concrete(ds: Seq<models::DetectionView>) -> bool {
    exists|i: int| 0 <= i < ds.len() && concrete(#[trigger] ds[i])
}

/// The detections that name licenses.
pub open spec fn concrete_ones(ds: Seq<models::DetectionView>) -> Seq<models::DetectionView> {
    ds.filter(|d: models::DetectionView| concrete(d))
}

/// The detections of a file; those of a source map collapsed.
pub open spec fn collapsed(
    path: paths::PathView,
    ds: Seq<models::DetectionView>,
) -> Seq<models::DetectionView> {
    if !paths::sourcemap_like(path) || ds.len() <= 1 {
        ds
    } else {
        let once = deduplicated(ds);
        if concrete_ones(once).len() <= 1 {
            once
        } else {
            one_for_all(once, combined_detection(concrete_ones(once)))
        }
    }
}

fn merge_strings(list: &mut Vec<String>, more: &Vec<String>)
    ensures
        text::texts(final(list)@) == merged(text::texts(old(list)@), text::texts(more@)),
{
    let ghost start = text::texts(list@);
    let ghost all = text::texts(more@);
    let mut i: usize = 0;
    assert(all.take(0) == Seq::<Seq<char>>::empty());
    while i < more.len()
        invariant
            all == text::texts(more@),
            i <= more@.len(),
            text::texts(list@) == merged(start, all.take(i as int)),
        decreases more@.len() - i,
    {
        let ghost before = text::texts(list@);
        proof {
            assert(all[i as int] == more@[i as int]@);
            assert(all.take(i + 1).drop_last() == all.take(i as int));
            assert(all.take(i + 1).last() == all[i as int]);
        }
        if !context::has_entry(list, more[i].as_str()) {
            list.push(more[i].clone());
            assert(text::texts(list@) == before.push(all[i as int]));
        }
        i = i + 1;
    }
    assert(all.take(i as int) == all);
}

fn has_match(list: &Vec<Match>, wanted: &Match) -> (r: bool)
    ensures
        r == models::match_views(list@).contains(wanted@),
{
    let ghost all = models::match_views(list@);
    let mut i: usize = 0;
    while i < list.len()
        invariant
            all == models::match_views(list@),
            i <= list@.len(),
            forall|j: int| 0 <= j < i ==> #[trigger] all[j] != wanted@,
        decreases list@.len() - i,
    {
        assert(all[i as int] == list@[i as int]@);
        if models::same_match(&list[i], wanted) {
            return true;
        }
        i = i + 1;
    }
    false
}

fn merge_matches(list: &mut Vec<Match>, more: &Vec<Match>)
    ensures
        models::match_views(final(list)@) == merged(
            models::match_views(old(list)@),
            models::match_views(more@),
        ),
{
    let ghost start = models::match_views(list@);
    let ghost all = models::match_views(more@);
    let mut i: usize = 0;
    assert(all.take(0) == Seq::<models::MatchView>::empty());
    while i < more.len()
        invariant
            all == models::match_views(more@),
            i <= more@.len(),
            models::match_views(list@) == merged(start, all.take(i as int)),
        decreases more@.len() - i,
    {
        let ghost before = models::match_views(list@);
        proof {
            assert(all[i as int] == more@[i as int]@);
            assert(all.take(i + 1).drop_last() == all.take(i as int));
            assert(all.take(i + 1).last() == all[i as int]);
        }
        if !has_match(list, &more[i]) {
            list.push(more[i].clone());
            assert(models::match_views(list@) == before.push(all[i as int]));
        }
        i = i + 1;
    }
    assert(all.take(i as int) == all);
}

/// Adds to a detection what another one holds beyond it.
pub fn merge_public_detection(
    existing: &mut PublicLicenseDetection,
    detection: PublicLicenseDetection,
)
    ensures
        final(existing)@ == merged_detection(old(existing)@, detection@),
{
    merge_strings(&mut existing.detection_log, &detection.detection_log);
    merge_matches(&mut existing.matches, &detection.matches);
    if existing.identifier.as_str().is_empty() {
        existing.identifier = detection.identifier;
    }
}

/// Whether a detection names licenses.
pub fn is_concrete_sourcemap_detection(detection: &PublicLicenseDetection) -> (r: bool)
    ensures
        r == concrete(detection@),
{
    !readme::detection_is_unknown_reference(detection)
        && (!detection.license_expression.as_str().is_empty()
        || !detection.license_expression_spdx.as_str().is_empty())
}

/// The one detection that stands for all of them.
pub fn combine_sourcemap_detections(detections: Vec<PublicLicenseDetection>) -> (r:
    PublicLicenseDetection)
    requires
        detections@.len() > 0,
    ensures
        r@ == combined_detection(models::detection_views(detections@)),
{
    let ghost all = models::detection_views(detections@);
    let ghost spdx_all = all.map_values(|d: models::DetectionView| d.license_expression_spdx);
    let ghost filled = |s: Seq<char>| s.len() > 0;
    let mut combined = detections[0].clone();
    let mut expressions: Vec<String> = Vec::new();
    let mut spdx_expressions: Vec<String> = Vec::new();
    expressions.push(combined.license_expression.clone());
    if !combined.license_expression_spdx.as_str().is_empty() {
        spdx_expressions.push(combined.license_expression_spdx.clone());
    }
    let mut i: usize = 1;
    proof {
        assert(all[0] == detections@[0]@);
        assert(all.take(1)[0] == all[0]);
        assert(text::texts(expressions@) == keys_listed(all).take(1));
        lists::lemma_filter_take(spdx_all, filled, 0);
        assert(spdx_all.take(0) == Seq::<Seq<char>>::empty());
        lists::lemma_filter_empty(filled);
        assert(text::texts(spdx_expressions@) == spdx_all.take(1).filter(filled));
    }
    while i < detections.len()
        invariant
            all == models::detection_views(detections@),
            spdx_all == all.map_values(|d: models::DetectionView| d.license_expression_spdx),
            filled == (|s: Seq<char>| s.len() > 0),
            1 <= i <= detections@.len(),
            combined@ == merged_all(all.take(i as int)),
            text::texts(expressions@) == keys_listed(all).take(i as int),
            text::texts(spdx_expressions@) == spdx_all.take(i as int).filter(filled),
        decreases detections@.len() - i,
    {
        let ghost listed = text::texts(expressions@);
        let ghost spdx_before = text::texts(spdx_expressions@);
        proof {
            assert(all[i as int] == detections@[i as int]@);
            assert(all.take(i + 1).drop_last() == all.take(i as int));
            assert(all.take(i + 1).last() == all[i as int]);
            lists::lemma_filter_take(spdx_all, filled, i as int);
        }
        expressions.push(detections[i].license_expression.clone());
        assert(text::texts(expressions@) == listed.push(all[i as int].license_expression));
        assert(keys_listed(all).take(i + 1) == listed.push(all[i as int].license_expression));
        if !detections[i].license_expression_spdx.as_str().is_empty() {
            spdx_expressions.push(detections[i].license_expression_spdx.clone());
            assert(text::texts(spdx_expressions@) == spdx_before.push(
                all[i as int].license_expression_spdx,
            ));
        }
        merge_public_detection(&mut combined, detections[i].clone());
        i = i + 1;
    }
    proof {
        assert(all.take(i as int) == all);
        assert(keys_listed(all).take(i as int) == keys_listed(all));
        assert(spdx_all.take(i as int) == spdx_all);
    }
    if let Some(expression) = spdx::combine_license_expressions_preserving_structure(&expressions) {
        combined.license_expression = expression;
    }
    if let Some(expression) = spdx::combine_license_expressions_preserving_structure(
        &spdx_expressions,
    ) {
        combined.license_expression_spdx = expression;
    }
    combined
}

/// The place of the first detection with the expressions of another one.
fn find_same(detections: &Vec<PublicLicenseDetection>, detection: &PublicLicenseDetection) -> (r:
    Option<usize>)
    ensures
        r is Some == first_same(models::detection_views(detections@), detection@) is Some,
        r is Some ==> first_same(models::detection_views(detections@), detection@)->0 == r->0
            && r->0 < detections@.len(),
{
    let ghost all = models::detection_views(detections@);
    let mut i: usize = 0;
    assert(all.take(0) == Seq::<models::DetectionView>::empty());
    while i < detections.len()
        invariant
            all == models::detection_views(detections@),
            i <= detections@.len(),
            first_same(all.take(i as int), detection@) is None,
        decreases detections@.len() - i,
    {
        proof {
            assert(all[i as int] == detections@[i as int]@);
            assert(all.take(i + 1).drop_last() == all.take(i as int));
            assert(all.take(i + 1).last() == all[i as int]);
        }
        if detections[i].license_expression == detection.license_expression
            && detections[i].license_expression_spdx == detection.license_expression_spdx {
            proof {
                lemma_first_same_take(all, detection@, i + 1);
            }
            return Some(i);
        }
        i = i + 1;
    }
    assert(all.take(i as int) == all);
    None
}

proof fn lemma_first_same_take(ds: Seq<models::DetectionView>, d: models::DetectionView, n: int)
    requires
        0 <= n <= ds.len(),
        first_same(ds.take(n), d) is Some,
    ensures
        first_same(ds, d) == first_same(ds.take(n), d),
    decreases ds.len(),
{
    if n == ds.len() {
        assert(ds.take(n) == ds);
    } else {
        assert(ds.drop_last().take(n) == ds.take(n));
        lemma_first_same_take(ds.drop_last(), d, n);
    }
}

/// The place of the first detection with the expressions of another one is one,
/// and there is no place where there is none.
pub proof fn lemma_first_same_bounds(ds: Seq<models::DetectionView>, d: models::DetectionView)
    ensures
        match first_same(ds, d) {
            Some(i) => 0 <= i < ds.len() && same_expressions(ds[i], d),
            None => forall|i: int| 0 <= i < ds.len() ==> !same_expressions(#[trigger] ds[i], d),
        },
    decreases ds.len(),
{
    if ds.len() > 0 {
        lemma_first_same_bounds(ds.drop_last(), d);
        match first_same(ds, d) {
            Some(i) => {
                if i < ds.len() - 1 {
                    assert(ds.drop_last()[i] == ds[i]);
                }
            },
            None => {
                assert forall|i: int| 0 <= i < ds.len() implies !same_expressions(
                    #[trigger] ds[i],
                    d,
                ) by {
                    if i < ds.len() - 1 {
                        assert(ds.drop_last()[i] == ds[i]);
                    }
                }
            },
        }
    }
}

fn deduplicate(detections: Vec<PublicLicenseDetection>) -> (r: Vec<PublicLicenseDetection>)
    ensures
        models::detection_views(r@) == deduplicated(models::detection_views(detections@)),
{
    let ghost all = models::detection_views(detections@);
    let mut r: Vec<PublicLicenseDetection> = Vec::new();
    let mut i: usize = 0;
    assert(models::detection_views(r@) == deduplicated(all.take(0)));
    while i < detections.len()
        invariant
            all == models::detection_views(detections@),
            i <= detections@.len(),
            models::detection_views(r@) == deduplicated(all.take(i as int)),
        decreases detections@.len() - i,
    {
        let ghost before = models::detection_views(r@);
        proof {
            assert(all[i as int] == detections@[i as int]@);
            assert(all.take(i + 1).drop_last() == all.take(i as int));
            assert(all.take(i + 1).last() == all[i as int]);
        }
        match find_same(&r, &detections[i]) {
            Some(place) => {
                let mut existing = r[place].clone();
                assert(before[place as int] == r@[place as int]@);
                merge_public_detection(&mut existing, detections[i].clone());
                let ghost replaced = existing@;
                r.set(place, existing);
                assert(models::detection_views(r@) == before.update(place as int, replaced));
            },
            None => {
                r.push(detections[i].clone());
                assert(models::detection_views(r@) == before.push(all[i as int]));
            },
        }
        i = i + 1;
    }
    assert(all.take(i as int) == all);
    r
}

fn keep_concrete(detections: &Vec<PublicLicenseDetection>) -> (r: Vec<PublicLicenseDetection>)
    ensures
        models::detection_views(r@) == concrete_ones(models::detection_views(detections@)),
{
    let ghost all = models::detection_views(detections@);
    let ghost keep = |d: models::DetectionView| concrete(d);
    let mut r: Vec<PublicLicenseDetection> = Vec::new();
    let mut i: usize = 0;
    proof {
        lists::lemma_filter_empty(keep);
        assert(all.take(0) == Seq::<models::DetectionView>::empty());
        assert(models::detection_views(r@) == all.take(0).filter(keep));
    }
    while i < detections.len()
        invariant
            all == models::detection_views(detections@),
            keep == (|d: models::DetectionView| concrete(d)),
            i <= detections@.len(),
            models::detection_views(r@) == all.take(i as int).filter(keep),
        decreases detections@.len() - i,
    {
        let ghost before = models::detection_views(r@);
        proof {
            assert(all[i as int] == detections@[i as int]@);
            lists::lemma_filter_take(all, keep, i as int);
        }
        if is_concrete_sourcemap_detection(&detections[i]) {
            r.push(detections[i].clone());
            assert(models::detection_views(r@) == before.push(all[i as int]));
        }
        i = i + 1;
    }
    assert(all.take(i as int) == all);
    r
}

/// Collapses the detections of a source map that name licenses into one.
pub fn collapse_repeated_sourcemap_license_detections(
    path: &ScanPath,
    detections: Vec<PublicLicenseDetection>,
) -> (r: Vec<PublicLicenseDetection>)
    ensures
        models::detection_views(r@) == collapsed(path@, models::detection_views(detections@)),
{
    if !paths::is_sourcemap(path) || detections.len() <= 1 {
        assert(models::detection_views(detections@).len() == detections@.len());
        return detections;
    }
    assert(models::detection_views(detections@).len() == detections@.len());
    let once = deduplicate(detections);
    let concrete_detections = keep_concrete(&once);
    assert(models::detection_views(concrete_detections@).len() == concrete_detections@.len());
    if concrete_detections.len() <= 1 {
        return once;
    }
    let combined = combine_sourcemap_detections(concrete_detections);
    let ghost all = models::detection_views(once@);
    let mut placed = false;
    let mut r: Vec<PublicLicenseDetection> = Vec::new();
    let mut i: usize = 0;
    assert(models::detection_views(r@) == one_for_all(all.take(0), combined@));
    while i < once.len()
        invariant
            all == models::detection_views(once@),
            i <= once@.len(),
            placed == has_concrete(all.take(i as int)),
            models::detection_views(r@) == one_for_all(all.take(i as int), combined@),
        decreases once@.len() - i,
    {
        let ghost before = models::detection_views(r@);
        proof {
            assert(all[i as int] == once@[i as int]@);
            assert(all.take(i + 1).drop_last() == all.take(i as int));
            assert(all.take(i + 1).last() == all[i as int]);
            lemma_has_concrete_take(all, i as int);
        }
        if is_concrete_sourcemap_detection(&once[i]) {
            if !placed {
                r.push(combined.clone());
                assert(models::detection_views(r@) == before.push(combined@));
                placed = true;
            }
        } else {
            r.push(once[i].clone());
            assert(models::detection_views(r@) == before.push(all[i as int]));
        }
        i = i + 1;
    }
    assert(all.take(i as int) == all);
    r
}

proof fn lemma_has_concrete_take(ds: Seq<models::DetectionView>, i: int)
    requires
        0 <= i < ds.len(),
    ensures
        has_concrete(ds.take(i + 1)) == (has_concrete(ds.take(i)) || concrete(ds[i])),
{
    let longer = ds.take(i + 1);
    let shorter = ds.take(i);
    if has_concrete(shorter) {
        let j = choose|j: int| 0 <= j < shorter.len() && concrete(#[trigger] shorter[j]);
        assert(concrete(longer[j]));
    }
    if concrete(ds[i]) {
        assert(concrete(longer[i]));
    }
    if has_concrete(longer) {
        let j = choose|j: int| 0 <= j < longer.len() && concrete(#[trigger] longer[j]);
        if j < i {
            assert(concrete(shorter[j]));
        }
    }
}

/// A merged list begins with the first list, holds all of both, and repeats
/// nothing that the first list did not repeat.
pub proof fn law_merged_holds_both<A>(first: Seq<A>, more: Seq<A>)
    ensures
        first.len() <= merged(first, more).len(),
        merged(first, more).take(first.len() as int) == first,
        forall|i: int| 0 <= i < more.len() ==> merged(first, more).contains(#[trigger] more[i]),
        forall|x: A|
            merged(first, more).contains(x) ==> first.contains(x) || #[trigger] more.contains(x),
        first.no_duplicates() ==> merged(first, more).no_duplicates(),
    decreases more.len(),
{
    if more.len() == 0 {
        assert(first.take(first.len() as int) == first);
    } else {
        law_merged_holds_both(first, more.drop_last());
        let before = merged(first, more.drop_last());
        let after = merged(first, more);
        assert(after.take(first.len() as int) == before.take(first.len() as int));
        assert forall|i: int| 0 <= i < more.len() implies after.contains(#[trigger] more[i]) by {
            if i < more.len() - 1 {
                assert(more.drop_last()[i] == more[i]);
                let j = choose|j: int| 0 <= j < before.len() && before[j] == more[i];
                assert(after[j] == more[i]);
            } else if !before.contains(more.last()) {
                assert(after[before.len() as int] == more[i]);
            }
        }
        assert forall|x: A| after.contains(x) implies first.contains(x) || #[trigger] more.contains(
            x,
        ) by {
            if before.contains(x) {
                if !first.contains(x) {
                    assert(more.drop_last().contains(x));
                    let j = choose|j: int|
                        0 <= j < more.drop_last().len() && more.drop_last()[j] == x;
                    assert(more[j] == x);
                }
            } else {
                assert(more[more.len() - 1] == x);
            }
        }
    }
}

/// No two detections have the same expressions.
pub open spec fn distinct_expressions(ds: Seq<models::DetectionView>) -> bool {
    forall|i: int, j: int|
        0 <= i < j < ds.len() ==> !same_expressions(#[trigger] ds[i], #[trigger] ds[j])
}

/// Deduplicated detections have distinct expressions.
pub proof fn law_deduplicated_distinct(ds: Seq<models::DetectionView>)
    ensures
        distinct_expressions(deduplicated(ds)),
    decreases ds.len(),
{
    if ds.len() > 0 {
        law_deduplicated_distinct(ds.drop_last());
        let before = deduplicated(ds.drop_last());
        lemma_first_same_bounds(before, ds.last());
        match first_same(before, ds.last()) {
            Some(k) => {
                let after = deduplicated(ds);
                assert forall|i: int, j: int| 0 <= i < j < after.len() implies !same_expressions(
                    #[trigger] after[i],
                    #[trigger] after[j],
                ) by {
                    assert(!same_expressions(before[i], before[j]));
                }
            },
            None => {},
        }
    }
}

proof fn lemma_one_for_all_concrete(ds: Seq<models::DetectionView>, one: models::DetectionView)
    ensures
        concrete_ones(one_for_all(ds, one)).len() <= 1,
        !has_concrete(ds) ==> concrete_ones(one_for_all(ds, one)).len() == 0,
    decreases ds.len(),
{
    let keep = |d: models::DetectionView| concrete(d);
    reveal(Seq::filter);
    if ds.len() > 0 {
        lemma_one_for_all_concrete(ds.drop_last(), one);
        lemma_has_concrete_take(ds, ds.len() - 1);
        assert(ds.take(ds.len() as int) == ds);
        assert(ds.take(ds.len() - 1) == ds.drop_last());
        let before = one_for_all(ds.drop_last(), one);
        let after = one_for_all(ds, one);
        if after.len() > before.len() {
            assert(after.drop_last() == before);
        }
    }
}

/// At most one detection of a source map names licenses.
pub proof fn law_collapsed_has_one_concrete(
    path: paths::PathView,
    ds: Seq<models::DetectionView>,
)
    requires
        paths::sourcemap_like(path),
    ensures
        concrete_ones(collapsed(path, ds)).len() <= 1,
{
    let keep = |d: models::DetectionView| concrete(d);
    lists::lemma_filter_holds(ds, keep);
    let once = deduplicated(ds);
    lemma_one_for_all_concrete(once, combined_detection(concrete_ones(once)));
}

/// One of the detections lists an item.
pub open spec fn lists_item<A>(
    ds: Seq<models::DetectionView>,
    list_of: spec_fn(models::DetectionView) -> Seq<A>,
    item: A,
) -> bool {
    exists|i: int| 0 <= i < ds.len() && list_of(#[trigger] ds[i]).contains(item)
}

/// One of the detections has a match.
pub open spec fn any_has_match(ds: Seq<models::DetectionView>, m: models::MatchView) -> bool {
    lists_item(ds, |d: models::DetectionView| d.matches, m)
}

/// One of the detections has a line in its log.
pub open spec fn any_logs(ds: Seq<models::DetectionView>, line: Seq<char>) -> bool {
    lists_item(ds, |d: models::DetectionView| d.detection_log, line)
}

/// A list of a detection that merging merges and that combining leaves alone.
spec fn merges<A>(list_of: spec_fn(models::DetectionView) -> Seq<A>) -> bool {
    &&& forall|a: models::DetectionView, b: models::DetectionView| #[trigger]
        list_of(merged_detection(a, b)) == merged(list_of(a), list_of(b))
    &&& forall|ds: Seq<models::DetectionView>| #[trigger]
        list_of(combined_detection(ds)) == list_of(merged_all(ds))
}

proof fn lemma_merged_contains<A>(first: Seq<A>, more: Seq<A>, item: A)
    ensures
        merged(first, more).contains(item) == (first.contains(item) || more.contains(item)),
{
    law_merged_holds_both(first, more);
    let all = merged(first, more);
    if first.contains(item) {
        let i = choose|i: int| 0 <= i < first.len() && first[i] == item;
        assert(all.take(first.len() as int)[i] == all[i]);
    }
    if more.contains(item) {
        let i = choose|i: int| 0 <= i < more.len() && more[i] == item;
        assert(all.contains(more[i]));
    }
    if all.contains(item) && !first.contains(item) {
        assert(first.contains(item) || more.contains(item));
    }
}

proof fn lemma_lists_item_push<A>(
    ds: Seq<models::DetectionView>,
    d: models::DetectionView,
    list_of: spec_fn(models::DetectionView) -> Seq<A>,
    item: A,
)
    ensures
        lists_item(ds.push(d), list_of, item) == (lists_item(ds, list_of, item) || list_of(
            d,
        ).contains(item)),
{
    let longer = ds.push(d);
    if lists_item(ds, list_of, item) {
        let i = choose|i: int| 0 <= i < ds.len() && list_of(#[trigger] ds[i]).contains(item);
        assert(list_of(longer[i]).contains(item));
    }
    if list_of(d).contains(item) {
        assert(list_of(longer[ds.len() as int]).contains(item));
    }
    if lists_item(longer, list_of, item) && !list_of(d).contains(item) {
        let i = choose|i: int|
            0 <= i < longer.len() && list_of(#[trigger] longer[i]).contains(item);
        assert(list_of(ds[i]).contains(item));
    }
}

proof fn lemma_lists_item_merge<A>(
    ds: Seq<models::DetectionView>,
    place: int,
    d: models::DetectionView,
    list_of: spec_fn(models::DetectionView) -> Seq<A>,
    item: A,
)
    requires
        0 <= place < ds.len(),
        merges(list_of),
    ensures
        lists_item(ds.update(place, merged_detection(ds[place], d)), list_of, item) == (lists_item(
            ds,
            list_of,
            item,
        ) || list_of(d).contains(item)),
{
    let one = merged_detection(ds[place], d);
    let after = ds.update(place, one);
    assert(list_of(one) == merged(list_of(ds[place]), list_of(d)));
    lemma_merged_contains(list_of(ds[place]), list_of(d), item);
    assert(after[place] == one);
    if lists_item(ds, list_of, item) {
        let i = choose|i: int| 0 <= i < ds.len() && list_of(#[trigger] ds[i]).contains(item);
        assert(list_of(after[i]).contains(item));
    }
    if lists_item(after, list_of, item) && !list_of(d).contains(item) {
        let i = choose|i: int| 0 <= i < after.len() && list_of(#[trigger] after[i]).contains(item);
        assert(list_of(ds[i]).contains(item));
    }
}

proof fn lemma_deduplicated_lists<A>(
    ds: Seq<models::DetectionView>,
    list_of: spec_fn(models::DetectionView) -> Seq<A>,
    item: A,
)
    requires
        merges(list_of),
    ensures
        lists_item(deduplicated(ds), list_of, item) == lists_item(ds, list_of, item),
    decreases ds.len(),
{
    if ds.len() > 0 {
        lemma_deduplicated_lists(ds.drop_last(), list_of, item);
        assert(ds == ds.drop_last().push(ds.last()));
        lemma_lists_item_push(ds.drop_last(), ds.last(), list_of, item);
        let before = deduplicated(ds.drop_last());
        lemma_first_same_bounds(before, ds.last());
        match first_same(before, ds.last()) {
            Some(i) => lemma_lists_item_merge(before, i, ds.last(), list_of, item),
            None => lemma_lists_item_push(before, ds.last(), list_of, item),
        }
    }
}

proof fn lemma_merged_all_lists<A>(
    ds: Seq<models::DetectionView>,
    list_of: spec_fn(models::DetectionView) -> Seq<A>,
    item: A,
)
    requires
        ds.len() > 0,
        merges(list_of),
    ensures
        list_of(merged_all(ds)).contains(item) == lists_item(ds, list_of, item),
    decreases ds.len(),
{
    if ds.len() == 1 {
        assert(list_of(ds[0]).contains(item) ==> lists_item(ds, list_of, item));
    } else {
        let before = merged_all(ds.drop_last());
        lemma_merged_all_lists(ds.drop_last(), list_of, item);
        assert(ds == ds.drop_last().push(ds.last()));
        lemma_lists_item_push(ds.drop_last(), ds.last(), list_of, item);
        assert(list_of(merged_detection(before, ds.last())) == merged(
            list_of(before),
            list_of(ds.last()),
        ));
        lemma_merged_contains(list_of(before), list_of(ds.last()), item);
    }
}

proof fn lemma_one_for_all_lists<A>(
    ds: Seq<models::DetectionView>,
    one: models::DetectionView,
    list_of: spec_fn(models::DetectionView) -> Seq<A>,
    item: A,
)
    ensures
        lists_item(one_for_all(ds, one), list_of, item) == (lists_item(
            ds.filter(|d: models::DetectionView| !concrete(d)),
            list_of,
            item,
        ) || (has_concrete(ds) && list_of(one).contains(item))),
    decreases ds.len(),
{
    let plain = |d: models::DetectionView| !concrete(d);
    reveal(Seq::filter);
    if ds.len() > 0 {
        let last = ds.last();
        let before = one_for_all(ds.drop_last(), one);
        lemma_one_for_all_lists(ds.drop_last(), one, list_of, item);
        lemma_has_concrete_take(ds, ds.len() - 1);
        assert(ds.take(ds.len() as int) == ds);
        assert(ds.take(ds.len() - 1) == ds.drop_last());
        lemma_lists_item_push(before, last, list_of, item);
        lemma_lists_item_push(before, one, list_of, item);
        lemma_lists_item_push(ds.drop_last().filter(plain), last, list_of, item);
    }
}

/// Detections list what those of them list that name licenses, and the others.
proof fn lemma_concrete_and_plain_list<A>(
    ds: Seq<models::DetectionView>,
    list_of: spec_fn(models::DetectionView) -> Seq<A>,
    item: A,
)
    ensures
        lists_item(ds, list_of, item) == (lists_item(concrete_ones(ds), list_of, item)
            || lists_item(ds.filter(|d: models::DetectionView| !concrete(d)), list_of, item)),
    decreases ds.len(),
{
    let named = |d: models::DetectionView| concrete(d);
    let plain = |d: models::DetectionView| !concrete(d);
    reveal(Seq::filter);
    if ds.len() > 0 {
        lemma_concrete_and_plain_list(ds.drop_last(), list_of, item);
        assert(ds == ds.drop_last().push(ds.last()));
        lemma_lists_item_push(ds.drop_last(), ds.last(), list_of, item);
        lemma_lists_item_push(ds.drop_last().filter(named), ds.last(), list_of, item);
        lemma_lists_item_push(ds.drop_last().filter(plain), ds.last(), list_of, item);
    }
}

proof fn lemma_collapsed_lists<A>(
    path: paths::PathView,
    ds: Seq<models::DetectionView>,
    list_of: spec_fn(models::DetectionView) -> Seq<A>,
    item: A,
)
    requires
        merges(list_of),
    ensures
        lists_item(collapsed(path, ds), list_of, item) == lists_item(ds, list_of, item),
{
    if paths::sourcemap_like(path) && ds.len() > 1 {
        let once = deduplicated(ds);
        let named = concrete_ones(once);
        lemma_deduplicated_lists(ds, list_of, item);
        if named.len() > 1 {
            let one = combined_detection(named);
            assert(list_of(one) == list_of(merged_all(named)));
            lemma_merged_all_lists(named, list_of, item);
            lemma_one_for_all_lists(once, one, list_of, item);
            lemma_concrete_and_plain_list(once, list_of, item);
            lists::lemma_filter_holds(once, |d: models::DetectionView| concrete(d));
            assert(concrete(named[0]) && once.contains(named[0]));
            assert(has_concrete(once));
        }
    }
}

/// Collapsing loses no match and no line of a log, and makes none up.
pub proof fn law_collapsed_keeps_evidence(path: paths::PathView, ds: Seq<models::DetectionView>)
    ensures
        forall|m: models::MatchView| #[trigger]
            any_has_match(collapsed(path, ds), m) == any_has_match(ds, m),
        forall|line: Seq<char>| #[trigger]
            any_logs(collapsed(path, ds), line) == any_logs(ds, line),
{
    let matches_of = |d: models::DetectionView| d.matches;
    let log_of = |d: models::DetectionView| d.detection_log;
    assert(merges(matches_of));
    assert(merges(log_of));
    assert forall|m: models::MatchView| #[trigger]
        any_has_match(collapsed(path, ds), m) == any_has_match(ds, m) by {
        lemma_collapsed_lists(path, ds, matches_of, m);
    }
    assert forall|line: Seq<char>| #[trigger]
        any_logs(collapsed(path, ds), line) == any_logs(ds, line) by {
        lemma_collapsed_lists(path, ds, log_of, line);
    }
}

/// One of the detections names a license in the text that is taken of each.
pub open spec fn any_names(
    ds: Seq<models::DetectionView>,
    text_of: spec_fn(models::DetectionView) -> Seq<char>,
    key: Seq<char>,
) -> bool {
    exists|i: int|
        0 <= i < ds.len() && expression::expression_keys(text_of(#[trigger] ds[i])).contains(key)
}

/// What is taken of each detection can be read, where it is not empty.
pub open spec fn all_readable(
    ds: Seq<models::DetectionView>,
    text_of: spec_fn(models::DetectionView) -> Seq<char>,
) -> bool {
    forall|i: int|
        0 <= i < ds.len() ==> text_of(#[trigger] ds[i]).len() == 0 || expression::parsed(
            text_of(ds[i]),
        ) is Some
}

/// The license expression of a detection.
pub open spec fn own_expression() -> spec_fn(models::DetectionView) -> Seq<char> {
    |d: models::DetectionView| d.license_expression
}

/// The SPDX expression of a detection.
pub open spec fn own_spdx() -> spec_fn(models::DetectionView) -> Seq<char> {
    |d: models::DetectionView| d.license_expression_spdx
}

spec fn is_own(text_of: spec_fn(models::DetectionView) -> Seq<char>) -> bool {
    text_of == own_expression() || text_of == own_spdx()
}

proof fn lemma_any_names_push(
    ds: Seq<models::DetectionView>,
    d: models::DetectionView,
    text_of: spec_fn(models::DetectionView) -> Seq<char>,
    key: Seq<char>,
)
    ensures
        any_names(ds.push(d), text_of, key) == (any_names(ds, text_of, key)
            || expression::expression_keys(text_of(d)).contains(key)),
{
    let longer = ds.push(d);
    if any_names(ds, text_of, key) {
        let i = choose|i: int|
            0 <= i < ds.len() && expression::expression_keys(text_of(#[trigger] ds[i])).contains(
                key,
            );
        assert(longer[i] == ds[i]);
    }
    if expression::expression_keys(text_of(d)).contains(key) {
        assert(longer[ds.len() as int] == d);
    }
    if any_names(longer, text_of, key) {
        let i = choose|i: int|
            0 <= i < longer.len() && expression::expression_keys(
                text_of(#[trigger] longer[i]),
            ).contains(key);
        if i < ds.len() {
            assert(ds[i] == longer[i]);
        }
    }
}

proof fn lemma_readable_push(
    ds: Seq<models::DetectionView>,
    d: models::DetectionView,
    text_of: spec_fn(models::DetectionView) -> Seq<char>,
)
    ensures
        all_readable(ds.push(d), text_of) == (all_readable(ds, text_of) && (text_of(d).len() == 0
            || expression::parsed(text_of(d)) is Some)),
{
    let longer = ds.push(d);
    if all_readable(longer, text_of) {
        assert forall|i: int| 0 <= i < ds.len() implies text_of(#[trigger] ds[i]).len() == 0
            || expression::parsed(text_of(ds[i])) is Some by {
            assert(longer[i] == ds[i]);
        }
        assert(longer[ds.len() as int] == d);
    }
}

proof fn lemma_deduplicated_names(
    ds: Seq<models::DetectionView>,
    text_of: spec_fn(models::DetectionView) -> Seq<char>,
    key: Seq<char>,
)
    requires
        is_own(text_of),
        all_readable(ds, text_of),
    ensures
        any_names(deduplicated(ds), text_of, key) == any_names(ds, text_of, key),
        all_readable(deduplicated(ds), text_of),
    decreases ds.len(),
{
    if ds.len() > 0 {
        let fewer = ds.drop_last();
        let last = ds.last();
        assert(ds == fewer.push(last));
        lemma_readable_push(fewer, last, text_of);
        lemma_deduplicated_names(fewer, text_of, key);
        lemma_any_names_push(fewer, last, text_of, key);
        let before = deduplicated(fewer);
        lemma_first_same_bounds(before, last);
        match first_same(before, last) {
            Some(place) => {
                let after = deduplicated(ds);
                assert forall|i: int| 0 <= i < after.len() implies text_of(#[trigger] after[i])
                    == text_of(before[i]) by {}
                assert forall|i: int| 0 <= i < after.len() implies text_of(
                    #[trigger] after[i],
                ).len() == 0 || expression::parsed(text_of(after[i])) is Some by {
                    assert(text_of(after[i]) == text_of(before[i]));
                }
                if any_names(before, text_of, key) {
                    let i = choose|i: int|
                        0 <= i < before.len() && expression::expression_keys(
                            text_of(#[trigger] before[i]),
                        ).contains(key);
                    assert(expression::expression_keys(text_of(after[i])).contains(key));
                }
                if any_names(after, text_of, key) {
                    let i = choose|i: int|
                        0 <= i < after.len() && expression::expression_keys(
                            text_of(#[trigger] after[i]),
                        ).contains(key);
                    assert(expression::expression_keys(text_of(before[i])).contains(key));
                }
                assert(text_of(before[place]) == text_of(last));
            },
            None => {
                lemma_any_names_push(before, last, text_of, key);
                lemma_readable_push(before, last, text_of);
            },
        }
    }
}

proof fn lemma_one_for_all_names(
    ds: Seq<models::DetectionView>,
    one: models::DetectionView,
    text_of: spec_fn(models::DetectionView) -> Seq<char>,
    key: Seq<char>,
)
    ensures
        any_names(one_for_all(ds, one), text_of, key) == (any_names(
            ds.filter(|d: models::DetectionView| !concrete(d)),
            text_of,
            key,
        ) || (has_concrete(ds) && expression::expression_keys(text_of(one)).contains(key))),
        any_names(ds, text_of, key) == (any_names(concrete_ones(ds), text_of, key) || any_names(
            ds.filter(|d: models::DetectionView| !concrete(d)),
            text_of,
            key,
        )),
    decreases ds.len(),
{
    let named = |d: models::DetectionView| concrete(d);
    let plain = |d: models::DetectionView| !concrete(d);
    reveal(Seq::filter);
    if ds.len() > 0 {
        let last = ds.last();
        let fewer = ds.drop_last();
        let before = one_for_all(fewer, one);
        lemma_one_for_all_names(fewer, one, text_of, key);
        lemma_has_concrete_take(ds, ds.len() - 1);
        assert(ds.take(ds.len() as int) == ds);
        assert(ds.take(ds.len() - 1) == fewer);
        assert(ds == fewer.push(last));
        lemma_any_names_push(fewer, last, text_of, key);
        lemma_any_names_push(before, last, text_of, key);
        lemma_any_names_push(before, one, text_of, key);
        lemma_any_names_push(fewer.filter(plain), last, text_of, key);
        lemma_any_names_push(fewer.filter(named), last, text_of, key);
    }
}

/// What several texts combine into, or the first one where all are blank, names what
/// the texts of the detections name that they were taken of.
proof fn lemma_combination_names(
    listed: Seq<Seq<char>>,
    ds: Seq<models::DetectionView>,
    text_of: spec_fn(models::DetectionView) -> Seq<char>,
    joined: Seq<char>,
    key: Seq<char>,
)
    requires
        ds.len() > 0,
        all_readable(ds, text_of),
        forall|i: int|
            0 <= i < listed.len() ==> exists|j: int|
                0 <= j < ds.len() && text_of(#[trigger] ds[j]) == #[trigger] listed[i],
        forall|j: int|
            0 <= j < ds.len() && text_of(#[trigger] ds[j]).len() > 0 ==> listed.contains(
                text_of(ds[j]),
            ),
        joined == (match spdx::combined(listed) {
            Some(s) => s,
            None => text_of(ds[0]),
        }),
    ensures
        expression::expression_keys(joined).contains(key) == any_names(ds, text_of, key),
{
    reading::lemma_nothing_has_no_keys();
    assert forall|i: int|
        0 <= i < listed.len() && text::trim_of(#[trigger] listed[i]).len() > 0 implies expression::parsed(
        text::trim_of(listed[i]),
    ) is Some by {
        let j = choose|j: int| 0 <= j < ds.len() && text_of(#[trigger] ds[j]) == listed[i];
        reading::law_white_space_around_does_not_matter(listed[i]);
        if text_of(ds[j]).len() == 0 {
            assert(listed[i] =~= Seq::<char>::empty());
            assert(text::trim_of(listed[i]).len() == 0);
        }
    }
    reading::law_combined_where_there_is_one(listed);
    assert forall|j: int| 0 <= j < ds.len() && expression::expression_keys(
        text_of(#[trigger] ds[j]),
    ).contains(key) implies spdx::combined(listed) is Some && exists|i: int|
        0 <= i < listed.len() && expression::expression_keys(#[trigger] listed[i]).contains(key) by {
        if text_of(ds[j]).len() == 0 {
            assert(text_of(ds[j]) =~= Seq::<char>::empty());
        }
        assert(listed.contains(text_of(ds[j])));
        let i = choose|i: int| 0 <= i < listed.len() && listed[i] == text_of(ds[j]);
        reading::law_white_space_around_does_not_matter(listed[i]);
        assert(text::trim_of(listed[i]).len() > 0);
        assert(expression::expression_keys(listed[i]).contains(key));
    }
    if spdx::combined(listed) is Some {
        reading::law_combined_names_every_license(listed, key);
        if expression::expression_keys(joined).contains(key) {
            let i = choose|i: int|
                0 <= i < listed.len() && expression::expression_keys(#[trigger] listed[i]).contains(
                    key,
                );
            let j = choose|j: int| 0 <= j < ds.len() && text_of(#[trigger] ds[j]) == listed[i];
            assert(expression::expression_keys(text_of(ds[j])).contains(key));
        }
    } else {
        assert(expression::expression_keys(text_of(ds[0])).contains(key) ==> any_names(
            ds,
            text_of,
            key,
        ));
    }
}

proof fn lemma_merged_all_first(ds: Seq<models::DetectionView>)
    requires
        ds.len() > 0,
    ensures
        merged_all(ds).license_expression == ds[0].license_expression,
        merged_all(ds).license_expression_spdx == ds[0].license_expression_spdx,
    decreases ds.len(),
{
    if ds.len() > 1 {
        lemma_merged_all_first(ds.drop_last());
    }
}

proof fn lemma_combined_detection_names(
    ds: Seq<models::DetectionView>,
    text_of: spec_fn(models::DetectionView) -> Seq<char>,
    key: Seq<char>,
)
    requires
        ds.len() > 0,
        is_own(text_of),
        all_readable(ds, text_of),
    ensures
        expression::expression_keys(text_of(combined_detection(ds))).contains(key) == any_names(
            ds,
            text_of,
            key,
        ),
{
    lemma_merged_all_first(ds);
    if text_of == own_expression() {
        let listed = keys_listed(ds);
        assert forall|i: int| 0 <= i < listed.len() implies exists|j: int|
            0 <= j < ds.len() && text_of(#[trigger] ds[j]) == #[trigger] listed[i] by {
            assert(text_of(ds[i]) == listed[i]);
        }
        assert forall|j: int| 0 <= j < ds.len() implies listed.contains(
            text_of(#[trigger] ds[j]),
        ) by {
            assert(listed[j] == text_of(ds[j]));
        }
        lemma_combination_names(listed, ds, text_of, text_of(combined_detection(ds)), key);
    } else {
        let every = ds.map_values(|d: models::DetectionView| d.license_expression_spdx);
        let keep = |s: Seq<char>| s.len() > 0;
        let listed = spdx_listed(ds);
        lists::lemma_filter_holds(every, keep);
        assert forall|i: int| 0 <= i < listed.len() implies exists|j: int|
            0 <= j < ds.len() && text_of(#[trigger] ds[j]) == #[trigger] listed[i] by {
            assert(every.contains(listed[i]));
            let j = choose|j: int| 0 <= j < every.len() && every[j] == listed[i];
            assert(text_of(ds[j]) == listed[i]);
        }
        assert forall|j: int|
            0 <= j < ds.len() && text_of(#[trigger] ds[j]).len() > 0 implies listed.contains(
            text_of(ds[j]),
        ) by {
            assert(every[j] == text_of(ds[j]));
            assert(keep(every[j]));
            lists::lemma_filter_keeps(every, keep, j);
        }
        lemma_combination_names(listed, ds, text_of, text_of(combined_detection(ds)), key);
    }
}

proof fn lemma_collapsed_names(
    path: paths::PathView,
    ds: Seq<models::DetectionView>,
    text_of: spec_fn(models::DetectionView) -> Seq<char>,
    key: Seq<char>,
)
    requires
        is_own(text_of),
        all_readable(ds, text_of),
    ensures
        any_names(collapsed(path, ds), text_of, key) == any_names(ds, text_of, key),
{
    if paths::sourcemap_like(path) && ds.len() > 1 {
        let once = deduplicated(ds);
        let named = concrete_ones(once);
        lemma_deduplicated_names(ds, text_of, key);
        if named.len() > 1 {
            lists::lemma_filter_holds(once, |d: models::DetectionView| concrete(d));
            assert forall|i: int| 0 <= i < named.len() implies text_of(
                #[trigger] named[i],
            ).len() == 0 || expression::parsed(text_of(named[i])) is Some by {
                assert(once.contains(named[i]));
                let k = choose|k: int| 0 <= k < once.len() && once[k] == named[i];
                assert(text_of(once[k]).len() == 0 || expression::parsed(text_of(once[k])) is Some);
            }
            lemma_combined_detection_names(named, text_of, key);
            lemma_one_for_all_names(once, combined_detection(named), text_of, key);
            assert(concrete(named[0]) && once.contains(named[0]));
            assert(has_concrete(once));
        }
    }
}

/// Collapsing the detections of a source map loses no license and makes none up,
/// where their expressions can be read.
pub proof fn law_collapsed_names_every_license(
    path: paths::PathView,
    ds: Seq<models::DetectionView>,
    key: Seq<char>,
)
    ensures
        all_readable(ds, own_expression()) ==> any_names(
            collapsed(path, ds),
            own_expression(),
            key,
        ) == any_names(ds, own_expression(), key),
        all_readable(ds, own_spdx()) ==> any_names(collapsed(path, ds), own_spdx(), key)
            == any_names(ds, own_spdx(), key),
{
    if all_readable(ds, own_expression()) {
        lemma_collapsed_names(path, ds, own_expression(), key);
    }
    if all_readable(ds, own_spdx()) {
        lemma_collapsed_names(path, ds, own_spdx(), key);
    }
}

/// A detection of an unknown license is not taken together with others: where no two
/// detections of a file name the same, it stays as it is.
pub proof fn law_unknown_references_stay(
    path: paths::PathView,
    ds: Seq<models::DetectionView>,
    i: int,
)
    requires
        distinct_expressions(ds),
        0 <= i < ds.len(),
        ds[i].license_expression == "unknown-license-reference"@ || ds[i].license_expression_spdx
            == "LicenseRef-scancode-unknown-license-reference"@,
    ensures
        collapsed(path, ds).contains(ds[i]),
{
    lemma_distinct_stay(ds);
    lemma_plain_one_stays(ds, combined_detection(concrete_ones(ds)), i);
}

proof fn lemma_plain_one_stays(
    ds: Seq<models::DetectionView>,
    one: models::DetectionView,
    i: int,
)
    requires
        0 <= i < ds.len(),
        !concrete(ds[i]),
    ensures
        one_for_all(ds, one).contains(ds[i]),
    decreases ds.len(),
{
    let before = one_for_all(ds.drop_last(), one);
    let after = one_for_all(ds, one);
    if i < ds.len() - 1 {
        lemma_plain_one_stays(ds.drop_last(), one, i);
        let k = choose|k: int| 0 <= k < before.len() && before[k] == ds[i];
        assert(after[k] == ds[i]);
    } else {
        assert(after[before.len() as int] == ds[i]);
    }
}

/// A file that is no source map, or has at most one detection, is left as it is.
pub proof fn law_only_source_maps_collapse(path: paths::PathView, ds: Seq<models::DetectionView>)
    requires
        ds.len() <= 1 || path.file_name is None || (!text::finishes_with(
            text::lower(path.file_name->0),
            ".js.map"@,
        ) && !text::finishes_with(text::lower(path.file_name->0), ".css.map"@)),
    ensures
        collapsed(path, ds) == ds,
{
}

/// The detections of a source map that name no license stay, each in its place
/// before or behind the one that stands for the others.
pub proof fn law_collapsed_keeps_other_detections(
    path: paths::PathView,
    ds: Seq<models::DetectionView>,
)
    requires
        distinct_expressions(ds),
        concrete_ones(ds).len() > 1 ==> concrete(combined_detection(concrete_ones(ds))),
    ensures
        collapsed(path, ds).filter(|d: models::DetectionView| !concrete(d)) == ds.filter(
            |d: models::DetectionView| !concrete(d),
        ),
{
    lemma_distinct_stay(ds);
    let one = combined_detection(concrete_ones(ds));
    if concrete(one) {
        lemma_one_for_all_plain(ds, one);
    }
}

proof fn lemma_distinct_stay(ds: Seq<models::DetectionView>)
    requires
        distinct_expressions(ds),
    ensures
        deduplicated(ds) == ds,
    decreases ds.len(),
{
    if ds.len() > 0 {
        let fewer = ds.drop_last();
        assert forall|i: int, j: int| 0 <= i < j < fewer.len() implies !same_expressions(
            #[trigger] fewer[i],
            #[trigger] fewer[j],
        ) by {
            assert(fewer[i] == ds[i] && fewer[j] == ds[j]);
        }
        lemma_distinct_stay(fewer);
        lemma_first_same_bounds(fewer, ds.last());
        if first_same(fewer, ds.last()) is Some {
            let i = first_same(fewer, ds.last())->0;
            assert(!same_expressions(ds[i], ds[ds.len() - 1]));
        }
        assert(fewer.push(ds.last()) == ds);
    }
}

proof fn lemma_one_for_all_plain(ds: Seq<models::DetectionView>, one: models::DetectionView)
    requires
        concrete(one),
    ensures
        one_for_all(ds, one).filter(|d: models::DetectionView| !concrete(d)) == ds.filter(
            |d: models::DetectionView| !concrete(d),
        ),
    decreases ds.len(),
{
    reveal(Seq::filter);
    let plain = |d: models::DetectionView| !concrete(d);
    if ds.len() > 0 {
        lemma_one_for_all_plain(ds.drop_last(), one);
        let before = one_for_all(ds.drop_last(), one);
        let after = one_for_all(ds, one);
        if after.len() > before.len() {
            assert(after.drop_last() == before);
        }
    }
}

/// A merged detection keeps the expressions of the first one, holds the matches and
/// the log of both, and has an identifier where one of them has.
pub proof fn law_merging_keeps_the_first(
    a: models::DetectionView,
    b: models::DetectionView,
    m: models::MatchView,
    line: Seq<char>,
)
    ensures
        ({
            let both = merged_detection(a, b);
            &&& both.license_expression == a.license_expression
            &&& both.license_expression_spdx == a.license_expression_spdx
            &&& both.matches.contains(m) == (a.matches.contains(m) || b.matches.contains(m))
            &&& both.detection_log.contains(line) == (a.detection_log.contains(line)
                || b.detection_log.contains(line))
            &&& a.identifier.len() > 0 ==> both.identifier == a.identifier
            &&& a.identifier.len() == 0 ==> both.identifier == b.identifier
        }),
{
    lemma_merged_contains(a.matches, b.matches, m);
    lemma_merged_contains(a.detection_log, b.detection_log, line);
}

} // verus!
