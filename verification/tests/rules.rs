use std::time::Instant;

use provenant::context::{
    enrich_license_detection_provenance, is_markdown_license_table_row, is_markdown_table_line,
    is_markdown_table_separator_line, is_negative_or_comparative_license_mention_line,
    line_has_negated_license_shorthand_list, line_has_possessive_without_license_phrase,
    line_has_standalone_no, prune_contextual_short_reference_matches,
    refresh_public_detection_after_context_prune, should_prune_contextual_short_reference_match,
    strip_markdown_table_comment_prefix,
};
use provenant::convert::{
    convert_detection_to_model, match_has_exact_reference_url, normalize_optional_spdx_expression,
    normalize_reference_url_candidate, round_coverage,
};
use provenant::declared::normalize_spdx_expression;
use provenant::expression::{
    collect_expression_keys, expression_contains_and, expression_contains_or, parse_expression,
};
use provenant::extract::{
    attach_source_path_to_detections, engine_call, extract_license_information,
    process_successful_detections, DiagnosticSeverity, EngineCall, FileLicenseInfo, LicenseEngine,
    LicenseExtractionInput, QueryCall, ScanDiagnostic,
};
use provenant::index::{License, LicenseIndex};
use provenant::matched_text::{
    bounded_matched_text_from_text, cap_output_matched_text, line_range_has_oversized_line,
    matched_text_from_text, matched_text_from_text_with_line_cap, split_line_ending,
    truncate_at_char_boundary, truncate_with_marker, MATCHED_TEXT_TRUNCATION_MARKER,
    MAX_OUTPUT_MATCHED_TEXT_BYTES, MAX_OUTPUT_MATCHED_TEXT_LINE_LENGTH,
};
use provenant::models::{
    Coverage, InternalLicenseDetection, LicenseMatch, LicenseScanOptions, LineNumber, Match,
    MatchScore, MatcherKind, PublicLicenseDetection, RuleKind,
};
use provenant::nix::{
    collect_detected_license_keys, extract_nix_manifest_license_declarations,
    nix_license_symbol_to_spdx, parse_nix_license_symbol,
    supplement_nix_manifest_license_detections, tokenize_nix_license_symbols,
};
use provenant::notice::promote_legal_notice_low_quality_detections;
use provenant::paths::{is_legal_notice_like_path, is_readme_like_path, is_sourcemap, ScanPath};
use provenant::query::{
    compact_matched_text_from_query, deadline_outcome, extract_output_matched_text,
    matched_text_diagnostics_from_match, LicenseDetectionError, Query, QueryPiece,
};
use provenant::readme::{
    detection_expression_ast, detection_is_unknown_reference, detection_line_range,
    expand_dual_licensed_under_readme_choice_detections, has_dual_licensed_under_notice_text,
    prune_redundant_readme_conjunctive_detections, ranges_overlap,
};
use provenant::sourcemap::{
    collapse_repeated_sourcemap_license_detections, combine_sourcemap_detections,
    is_concrete_sourcemap_detection, merge_public_detection,
};
use provenant::spdx::{
    combine_license_expressions_preserving_structure,
    combine_license_expressions_preserving_structure_strict, render,
    select_primary_license_expression,
};

fn path_of(path: &str) -> ScanPath {
    let parsed = std::path::Path::new(path);
    match parsed.file_name().and_then(|name| name.to_str()) {
        Some(name) => ScanPath::named(name.to_string(), path.to_string()),
        None => ScanPath::unnamed(None, None, path.to_string()),
    }
}

fn strings(list: &[&str]) -> Vec<String> {
    list.iter().map(|s| s.to_string()).collect()
}

fn at(number: usize) -> LineNumber {
    LineNumber::new(number).unwrap()
}

fn public_match(expr: &str, spdx: &str, start: usize, end: usize) -> Match {
    Match {
        license_expression: expr.to_string(),
        license_expression_spdx: spdx.to_string(),
        from_file: None,
        start_line: at(start),
        end_line: at(end),
        matcher: MatcherKind::Aho,
        score: MatchScore { hundredths: 10_000 },
        matched_length: Some(10),
        match_coverage: Some(10_000),
        rule_relevance: Some(100),
        rule_identifier: "rule.RULE".to_string(),
        rule_url: None,
        matched_text: None,
        referenced_filenames: None,
        matched_text_diagnostics: None,
    }
}

fn detection(expr: &str, spdx: &str, matches: Vec<Match>) -> PublicLicenseDetection {
    PublicLicenseDetection {
        license_expression: expr.to_string(),
        license_expression_spdx: spdx.to_string(),
        matches,
        detection_log: Vec::new(),
        identifier: String::new(),
    }
}

fn simple(expr: &str, spdx: &str, start: usize, end: usize) -> PublicLicenseDetection {
    detection(expr, spdx, vec![public_match(expr, spdx, start, end)])
}

fn engine_match(expr: &str, spdx: &str) -> LicenseMatch {
    LicenseMatch {
        license_expression: expr.to_string(),
        license_expression_spdx: Some(spdx.to_string()),
        from_file: None,
        start_line: at(1),
        end_line: at(1),
        matcher: MatcherKind::Hash,
        score: MatchScore { hundredths: 9_900 },
        matched_length: 20,
        coverage: Coverage { picos: 88_000_000_000_000 },
        rule_relevance: 90,
        rule_identifier: "x.RULE".to_string(),
        rule_url: "https://example.org/x".to_string(),
        matched_text: None,
        referenced_filenames: Some(strings(&["COPYING"])),
        rule_kind: RuleKind::Notice,
        query_positions: Vec::new(),
    }
}

fn engine_detection(expression: Option<&str>, spdx: Option<&str>, matches: Vec<LicenseMatch>) -> InternalLicenseDetection {
    InternalLicenseDetection {
        license_expression: expression.map(str::to_string),
        license_expression_spdx: spdx.map(str::to_string),
        matches,
        detection_log: Vec::new(),
        identifier: None,
    }
}

fn piece(value: &str, line: usize, position: Option<usize>, is_text: bool) -> QueryPiece {
    QueryPiece { value: value.to_string(), line, position, is_text }
}

/// The query of `Licensed under the MIT License.` with three known words.
fn sample_query() -> Query {
    Query {
        text: "Licensed under the MIT License.\n".to_string(),
        pieces: vec![
            piece("Licensed", 1, Some(0), true),
            piece(" ", 1, None, false),
            piece("under", 1, None, true),
            piece(" ", 1, None, false),
            piece("the", 1, None, true),
            piece(" ", 1, None, false),
            piece("MIT", 1, Some(1), true),
            piece(" ", 1, None, false),
            piece("License", 1, Some(2), true),
            piece(".\n", 1, None, false),
        ],
        tokens: vec![5, 6, 7],
        unknown_tokens: 2,
        output_deadline: None,
    }
}

#[test]
fn file_names_have_their_parts() {
    for name in [
        "README", "README.md", ".nix", "a.nix", "a.tar.gz", "a.", ".a.b", "..b", "...", "a..b",
        "n\u{e9}.txt",
    ] {
        let parsed = std::path::Path::new(name);
        let path = ScanPath::named(name.to_string(), format!("dir/{name}"));
        assert_eq!(path.file_name.as_deref(), Some(name));
        assert_eq!(path.file_stem.as_deref(), parsed.file_stem().and_then(|part| part.to_str()));
        assert_eq!(path.extension.as_deref(), parsed.extension().and_then(|part| part.to_str()));
        assert_eq!(path.posix, format!("dir/{name}"));
    }
    let path = ScanPath::named("a.tar.gz".to_string(), String::new());
    assert_eq!(path.file_stem.as_deref(), Some("a.tar"));
    assert_eq!(path.extension.as_deref(), Some("gz"));
    let path = ScanPath::unnamed(Some("readme".to_string()), None, "x".to_string());
    assert!(path.file_name.is_none() && path.extension.is_none());
    assert!(is_readme_like_path(&path));
}

#[test]
fn lines_count_from_one() {
    assert!(LineNumber::new(0).is_none());
    assert_eq!(LineNumber::new(7).unwrap().get(), 7);
    assert_eq!(LineNumber::one().get(), 1);
}

#[test]
fn texts_are_cut_at_characters() {
    assert_eq!(truncate_at_char_boundary("héllo", 2), "h");
    assert_eq!(truncate_at_char_boundary("héllo", 3), "hé");
    assert_eq!(truncate_at_char_boundary("héllo", 99), "héllo");
    assert_eq!(truncate_at_char_boundary("☃", 2), "");
    assert_eq!(truncate_with_marker("short", 5), "short");
    assert_eq!(truncate_with_marker("longer", 5), "… [");
    assert_eq!(
        truncate_with_marker("0123456789abcdefghij", 18),
        "012… [truncated]"
    );
    assert_eq!(truncate_with_marker("☃☃☃☃☃☃☃", 20), "☃… [truncated]");
    assert_eq!(MATCHED_TEXT_TRUNCATION_MARKER.len(), 15);
}

#[test]
fn cut_texts_fit_and_stay() {
    let text = "ß".repeat(MAX_OUTPUT_MATCHED_TEXT_BYTES);
    let capped = cap_output_matched_text(text);
    assert!(capped.len() <= MAX_OUTPUT_MATCHED_TEXT_BYTES);
    assert!(capped.ends_with(MATCHED_TEXT_TRUNCATION_MARKER));
    assert_eq!(cap_output_matched_text(capped.clone()), capped);
    assert_eq!(cap_output_matched_text("as it is".to_string()), "as it is");
    assert_eq!(MAX_OUTPUT_MATCHED_TEXT_BYTES, 128 * 1024);
}

#[test]
fn line_endings_are_split_off() {
    for (line, body, ending) in [
        ("a\r\n", "a", "\r\n"),
        ("a\n", "a", "\n"),
        ("a", "a", ""),
        ("\r", "\r", ""),
        ("\n", "", "\n"),
        ("", "", ""),
    ] {
        assert_eq!(
            split_line_ending(line),
            (body.to_string(), ending.to_string())
        );
    }
}

#[test]
fn ranges_of_lines_are_selected() {
    let text = "one\r\ntwo\nthree";
    assert_eq!(matched_text_from_text(text, 1, 2), "one\r\ntwo");
    assert_eq!(matched_text_from_text(text, 2, 9), "two\nthree");
    assert_eq!(matched_text_from_text(text, 4, 9), "");
    assert_eq!(matched_text_from_text(text, 0, 1), "");
    assert_eq!(matched_text_from_text(text, 2, 1), "");
    assert_eq!(
        matched_text_from_text_with_line_cap("0123456789abcdefgh\nx\n", 1, 2, 16),
        "0… [truncated]\nx"
    );
    let long = "y".repeat(MAX_OUTPUT_MATCHED_TEXT_LINE_LENGTH + 1);
    let bounded = bounded_matched_text_from_text(&long, 1, 1);
    assert_eq!(bounded.len(), MAX_OUTPUT_MATCHED_TEXT_LINE_LENGTH);
    assert!(!line_range_has_oversized_line(&bounded, 1, 1, MAX_OUTPUT_MATCHED_TEXT_LINE_LENGTH));
}

#[test]
fn long_lines_are_found_in_their_range() {
    let text = "short\nlonger line\nx";
    assert!(line_range_has_oversized_line(text, 1, 3, 6));
    assert!(line_range_has_oversized_line(text, 2, 2, 10));
    assert!(!line_range_has_oversized_line(text, 2, 2, 11));
    assert!(!line_range_has_oversized_line(text, 3, 9, 6));
    assert!(!line_range_has_oversized_line(text, 0, 3, 0));
    assert!(!line_range_has_oversized_line(text, 3, 2, 0));
}

#[test]
fn expressions_read_back_as_rendered() {
    for (text, rendered) in [
        ("mit", "mit"),
        ("((mit))", "mit"),
        ("mit and gpl-2.0", "mit AND gpl-2.0"),
        ("a or b or c", "a OR b OR c"),
        ("a or (b or c)", "a OR (b OR c)"),
        ("(a OR b) AND c", "(a OR b) AND c"),
        ("a AND b OR c", "a AND b OR c"),
        ("a AND (b AND c)", "a AND (b AND c)"),
        ("gpl-2.0 WITH classpath AND mit", "gpl-2.0 WITH classpath AND mit"),
        ("(MIT OR CC0-1.0)", "MIT OR CC0-1.0"),
    ] {
        let parsed = parse_expression(text).expect("readable");
        let shown = render(&parsed);
        assert_eq!(shown, rendered);
        assert_eq!(render(&parse_expression(&shown).expect("readable")), rendered);
    }
    for bad in ["", "a b", "a AND", "(a", "a)", "OR", "MIT\" or malformed", "()"] {
        assert!(parse_expression(bad).is_err(), "{bad}");
    }
    let choice = parse_expression("a AND (b OR c)").expect("readable");
    assert!(expression_contains_or(&choice) && expression_contains_and(&choice));
    let plain = parse_expression("a WITH b").expect("readable");
    assert!(!expression_contains_or(&plain) && !expression_contains_and(&plain));
}

#[test]
fn keys_are_collected_in_small_letters() {
    let mut keys = collect_expression_keys("MIT AND (Apache-2.0 OR mit)");
    keys.sort();
    assert_eq!(keys, strings(&["apache-2.0", "mit"]));
    assert!(collect_expression_keys("not an expression").is_empty());
}

#[test]
fn expressions_combine_with_their_keys() {
    let combine = |list: &[&str]| combine_license_expressions_preserving_structure(&strings(list));
    assert_eq!(combine(&[]), None);
    assert_eq!(combine(&["", "  "]), None);
    assert_eq!(combine(&["mit"]).as_deref(), Some("mit"));
    assert_eq!(combine(&["mit", " mit "]).as_deref(), Some("mit"));
    assert_eq!(
        combine(&["mit OR bsd", "gpl-2.0"]).as_deref(),
        Some("(mit OR bsd) AND gpl-2.0")
    );
    let strict =
        |list: &[&str]| combine_license_expressions_preserving_structure_strict(&strings(list));
    assert_eq!(strict(&["MIT", "bad bad"]), None);
    let both = strict(&["MIT OR X", "Y AND Z"]).expect("readable");
    let mut keys = collect_expression_keys(&both);
    keys.sort();
    assert_eq!(keys, strings(&["mit", "x", "y", "z"]));
    assert_eq!(select_primary_license_expression(&strings(&["mit", "mit"])).as_deref(), Some("mit"));
}

#[test]
fn spdx_expressions_have_a_normal_form() {
    for (text, expected) in [
        (Some("  (MIT OR X) "), "MIT OR X"),
        (Some("   "), ""),
        (None, ""),
        (Some("a b"), ""),
    ] {
        let once = normalize_optional_spdx_expression(text);
        assert_eq!(once, expected);
        assert_eq!(normalize_optional_spdx_expression(Some(&once)), expected);
    }
}

#[test]
fn table_lines_are_recognised() {
    assert_eq!(strip_markdown_table_comment_prefix("  //! | a |"), "| a |");
    assert_eq!(strip_markdown_table_comment_prefix(" * | a |"), "| a |");
    assert_eq!(strip_markdown_table_comment_prefix("| a |"), "| a |");
    assert!(is_markdown_table_line("| a |"));
    assert!(!is_markdown_table_line("| a"));
    assert!(!is_markdown_table_line("|"));
    assert!(is_markdown_table_separator_line("|:--|--:|"));
    assert!(!is_markdown_table_separator_line("| a |"));
    let lines = strings(&["| Name | License |", "|--|--|", "| x | MIT |", "text"]);
    assert!(!is_markdown_license_table_row(1, &lines));
    assert!(!is_markdown_license_table_row(2, &lines));
    assert!(is_markdown_license_table_row(3, &lines));
    assert!(!is_markdown_license_table_row(4, &lines));
    assert!(!is_markdown_license_table_row(9, &lines));
    assert!(!is_markdown_license_table_row(0, &strings(&["text", "| x | MIT |"])));
    assert!(!is_markdown_license_table_row(0, &Vec::new()));
}

#[test]
fn prose_about_other_licenses_is_recognised() {
    assert!(line_has_standalone_no("say no!"));
    assert!(!line_has_standalone_no("the deno authors"));
    assert!(line_has_negated_license_shorthand_list("no GPL/AGPL"));
    assert!(!line_has_negated_license_shorthand_list("no gpl/agpl"));
    assert!(line_has_possessive_without_license_phrase("without its gpl license"));
    assert!(line_has_possessive_without_license_phrase("without their old license"));
    assert!(!line_has_possessive_without_license_phrase("without warranty"));
    assert!(is_negative_or_comparative_license_mention_line("No usage restriction"));
    assert!(is_negative_or_comparative_license_mention_line("Unlike X (GPL)"));
    assert!(is_negative_or_comparative_license_mention_line("a GPL-licensed alternative"));
    assert!(!is_negative_or_comparative_license_mention_line("MIT licensed"));
}

#[test]
fn pruning_a_second_time_changes_nothing() {
    let text = "Unlike X (GPL)\nLicensed under MIT\n";
    let mut gpl = public_match("gpl", "GPL-2.0-only", 1, 1);
    gpl.matched_length = Some(1);
    let mit = public_match("mit", "MIT", 2, 2);
    let mut detections = vec![detection("gpl AND mit", "GPL-2.0-only AND MIT", vec![gpl, mit])];
    detections[0].identifier = "id".to_string();
    let mut clues = Vec::new();
    let path = path_of("docs/notes.txt");
    prune_contextual_short_reference_matches(&path, text, true, &mut detections, &mut clues);
    assert_eq!(detections.len(), 1);
    assert_eq!(detections[0].license_expression, "mit");
    assert_eq!(detections[0].license_expression_spdx, "MIT");
    assert_eq!(detections[0].identifier, "");
    assert_eq!(
        detections[0].detection_log,
        strings(&["contextual-short-license-mention-pruned"])
    );
    assert_eq!(detections[0].matches[0].from_file.as_deref(), Some("docs/notes.txt"));
    let once = format!("{detections:?}");
    prune_contextual_short_reference_matches(&path, text, true, &mut detections, &mut clues);
    assert_eq!(format!("{detections:?}"), once);
}

#[test]
fn long_matches_are_never_pruned_by_context() {
    let lines = strings(&["Unlike X (GPL)"]);
    let mut long = public_match("gpl", "GPL", 1, 1);
    assert!(!should_prune_contextual_short_reference_match(&long, &lines));
    long.matched_length = Some(3);
    assert!(should_prune_contextual_short_reference_match(&long, &lines));
    long.matched_length = None;
    assert!(!should_prune_contextual_short_reference_match(&long, &lines));
    long.rule_identifier = "UNKNOWN_1.RULE".to_string();
    assert!(should_prune_contextual_short_reference_match(&long, &lines));
    long.start_line = at(2);
    long.end_line = at(5);
    assert!(!should_prune_contextual_short_reference_match(&long, &lines));
}

#[test]
fn refreshing_keeps_given_sources() {
    let mut first = public_match("mit", "MIT", 1, 1);
    first.from_file = Some("other.txt".to_string());
    let mut d = detection("old", "OLD", vec![first, public_match("bad expression", "", 2, 2)]);
    refresh_public_detection_after_context_prune(&mut d, &path_of("a/b.txt"), false);
    assert_eq!(d.license_expression, "mit AND bad expression");
    assert_eq!(d.license_expression_spdx, "MIT");
    assert!(d.detection_log.is_empty());
    assert_eq!(d.matches[0].from_file.as_deref(), Some("other.txt"));
    assert_eq!(d.matches[1].from_file.as_deref(), Some("a/b.txt"));
    enrich_license_detection_provenance(&mut d, "c.txt");
    assert_eq!(d.matches[1].from_file.as_deref(), Some("a/b.txt"));
}

#[test]
fn nix_symbols_are_read() {
    assert_eq!(parse_nix_license_symbol("mit;").as_deref(), Some("mit"));
    assert_eq!(parse_nix_license_symbol("gpl2+-_x y").as_deref(), Some("gpl2+-_x"));
    assert_eq!(parse_nix_license_symbol(";mit"), None);
    assert_eq!(
        tokenize_nix_license_symbols(" mit ; bsd3] (x)"),
        strings(&["mit", "bsd3"])
    );
    for (symbol, spdx) in [
        ("asl20", "Apache-2.0"),
        ("bsd2", "BSD-2-Clause"),
        ("bsd3", "BSD-3-Clause"),
        ("gpl1Only", "GPL-1.0-only"),
        ("gpl1Plus", "GPL-1.0-or-later"),
        ("gpl2", "GPL-2.0-only"),
        ("gpl2Only", "GPL-2.0-only"),
        ("gpl2Plus", "GPL-2.0-or-later"),
        ("gpl3", "GPL-3.0-only"),
        ("gpl3Only", "GPL-3.0-only"),
        ("gpl3Plus", "GPL-3.0-or-later"),
        ("lgpl21", "LGPL-2.1-only"),
        ("lgpl21Plus", "LGPL-2.1-or-later"),
        ("lgpl3", "LGPL-3.0-only"),
        ("lgpl3Plus", "LGPL-3.0-or-later"),
        ("mit", "MIT"),
        ("mpl11", "MPL-1.1"),
        ("mpl20", "MPL-2.0"),
    ] {
        assert_eq!(nix_license_symbol_to_spdx(symbol), Some(spdx));
        assert!(normalize_spdx_expression(spdx).is_some());
    }
    assert_eq!(nix_license_symbol_to_spdx("free"), None);
    assert!(normalize_spdx_expression("Zlib").is_none());
    assert_eq!(
        normalize_spdx_expression("BSD-3-Clause").unwrap().declared_license_expression,
        "bsd-new"
    );
}

#[test]
fn nix_declarations_are_found() {
    let text = "{\n  license = licenses.mit; # license = licenses.bsd3;\n\
                license = with lib.licenses; [ asl20 ];\n\
                # license = lib.licenses.gpl3;\n\
                license = with lib.licenses; [\n  bsd2\n  mpl20 # mit\n  ];\n\
                license = lib.licenses.lgpl3;\n}\n";
    let found: Vec<(String, String, usize)> = extract_nix_manifest_license_declarations(text)
        .into_iter()
        .map(|d| (d.symbol, d.matched_text, d.start_line.get()))
        .collect();
    let expected: Vec<(String, String, usize)> = [
        ("mit", "licenses.mit", 2),
        ("asl20", "asl20", 3),
        ("bsd2", "bsd2", 6),
        ("mpl20", "mpl20", 7),
        ("lgpl3", "lgpl3", 9),
    ]
    .iter()
    .map(|(symbol, text, line)| (symbol.to_string(), text.to_string(), *line))
    .collect();
    assert_eq!(found, expected);
}

#[test]
fn nix_supplements_are_complete() {
    let text = "license = with lib.licenses; [ mit mit asl20 free ];\n";
    let path = path_of("pkgs/default.nix");
    let mut detections = supplement_nix_manifest_license_detections(&path, text, &Vec::new());
    assert_eq!(detections.len(), 2);
    assert_eq!(detections[0].license_expression, "mit");
    assert_eq!(detections[0].matches[0].matched_text.as_deref(), Some("mit"));
    assert_eq!(detections[0].matches[0].matcher, MatcherKind::ParserDeclared);
    assert_eq!(detections[1].license_expression, "apache-2.0");
    assert!(supplement_nix_manifest_license_detections(&path, text, &detections).is_empty());
    detections.pop();
    assert_eq!(
        supplement_nix_manifest_license_detections(&path, text, &detections).len(),
        1
    );
    assert!(
        supplement_nix_manifest_license_detections(&path_of("a.txt"), text, &Vec::new())
            .is_empty()
    );
    let mut keys = collect_detected_license_keys(&vec![simple("mit AND bsd-new", "MIT", 1, 1)]);
    keys.sort();
    assert_eq!(keys, strings(&["bsd-new", "mit"]));
}

#[test]
fn paths_are_told_apart() {
    for name in ["NOTICE", "docs/License.md", "COPYING.LESSER", "my-licence", "third-copyright.txt"] {
        assert!(is_legal_notice_like_path(&path_of(name)), "{name}");
    }
    assert!(!is_legal_notice_like_path(&path_of("README.md")));
    assert!(is_readme_like_path(&path_of("docs/ReadMe.rst")));
    assert!(!is_readme_like_path(&path_of("README-dev.md")));
    assert!(is_sourcemap(&path_of("dist/bundle.js.map")));
    assert!(!is_sourcemap(&path_of("bundle.js")));
}

#[test]
fn ranges_overlap_both_ways() {
    for (a, b, expected) in [
        ((1, 3), (3, 5), true),
        ((1, 3), (4, 5), false),
        ((2, 9), (4, 5), true),
    ] {
        assert_eq!(ranges_overlap(a.0, a.1, b.0, b.1), expected);
        assert_eq!(ranges_overlap(b.0, b.1, a.0, a.1), expected);
    }
    let d = detection(
        "mit",
        "MIT",
        vec![public_match("mit", "MIT", 5, 6), public_match("mit", "MIT", 2, 3)],
    );
    assert_eq!(detection_line_range(&d), Some((2, 6)));
    assert_eq!(detection_line_range(&detection("mit", "MIT", Vec::new())), None);
    assert!(detection_is_unknown_reference(&simple("unknown-license-reference", "", 1, 1)));
    assert!(!detection_is_unknown_reference(&d));
    assert!(detection_expression_ast(&detection("", "", Vec::new())).is_none());
    assert_eq!(
        render(&detection_expression_ast(&detection("mit", "", Vec::new())).unwrap()),
        "mit"
    );
}

#[test]
fn choices_make_their_conjunctions_redundant() {
    let mut detections = vec![
        simple("apache-2.0 OR mit", "Apache-2.0 OR MIT", 1, 4),
        simple("mit AND apache-2.0", "MIT AND Apache-2.0", 4, 6),
        simple("mit AND bsd-new", "MIT AND BSD-3-Clause", 4, 6),
        simple("unknown-license-reference", "", 2, 2),
        simple("unknown-license-reference", "", 20, 20),
        simple("mit", "MIT", 2, 3),
    ];
    prune_redundant_readme_conjunctive_detections(&path_of("README.md"), &mut detections);
    let left: Vec<&str> = detections.iter().map(|d| d.license_expression.as_str()).collect();
    assert_eq!(
        left,
        vec!["apache-2.0 OR mit", "mit AND bsd-new", "unknown-license-reference", "mit"]
    );
    let once = format!("{detections:?}");
    prune_redundant_readme_conjunctive_detections(&path_of("README.md"), &mut detections);
    assert_eq!(format!("{detections:?}"), once);
    let mut elsewhere = vec![
        simple("a OR b", "A OR B", 1, 1),
        simple("a AND b", "A AND B", 1, 1),
    ];
    prune_redundant_readme_conjunctive_detections(&path_of("main.c"), &mut elsewhere);
    assert_eq!(elsewhere.len(), 2);
}

#[test]
fn announced_choices_show_their_licenses() {
    assert!(has_dual_licensed_under_notice_text("DUAL-LICENSED under x"));
    assert!(has_dual_licensed_under_notice_text("dual licensed under x"));
    assert!(!has_dual_licensed_under_notice_text("dual-license under x"));
    let choice = detection(
        "apache-2.0 OR mit",
        "Apache-2.0 OR MIT",
        vec![
            public_match("apache-2.0", "Apache-2.0", 1, 2),
            public_match("mit", " MIT ", 3, 3),
            public_match("a OR b", "A OR B", 1, 1),
        ],
    );
    let mut detections = vec![choice, simple("mit", "MIT", 1, 3)];
    let path = path_of("README");
    expand_dual_licensed_under_readme_choice_detections(
        &path,
        "Dual-licensed under A or B",
        &mut detections,
    );
    assert_eq!(detections.len(), 3);
    assert_eq!(detections[2].license_expression_spdx, "Apache-2.0");
    assert_eq!(detections[2].matches.len(), 1);
    let before = detections.len();
    expand_dual_licensed_under_readme_choice_detections(&path, "nothing", &mut detections);
    assert_eq!(detections.len(), before);
}

#[test]
fn merged_detections_hold_both_once() {
    let mut first = simple("mit", "MIT", 1, 1);
    first.detection_log = strings(&["a", "b"]);
    let mut second = simple("mit", "MIT", 1, 1);
    second.matches.push(public_match("mit", "MIT", 4, 4));
    second.detection_log = strings(&["b", "c"]);
    second.identifier = "second".to_string();
    merge_public_detection(&mut first, second.clone());
    assert_eq!(first.detection_log, strings(&["a", "b", "c"]));
    assert_eq!(first.matches.len(), 2);
    assert_eq!(first.identifier, "second");
    let once = format!("{first:?}");
    merge_public_detection(&mut first, second);
    assert_eq!(format!("{first:?}"), once);
}

#[test]
fn source_maps_keep_all_matches_and_logs() {
    let mut detections = vec![
        simple("mit", "MIT", 1, 1),
        simple("mit", "MIT", 2, 2),
        simple("unknown-license-reference", "", 3, 3),
        simple("bsd-new", "BSD-3-Clause", 4, 4),
    ];
    for (i, d) in detections.iter_mut().enumerate() {
        d.detection_log = vec![format!("log {i}"), "shared".to_string()];
    }
    let evidence = |list: &Vec<PublicLicenseDetection>| {
        let mut lines: Vec<usize> =
            list.iter().flat_map(|d| d.matches.iter().map(|m| m.start_line.get())).collect();
        let mut logs: Vec<String> = list.iter().flat_map(|d| d.detection_log.clone()).collect();
        lines.sort();
        lines.dedup();
        logs.sort();
        logs.dedup();
        (lines, logs)
    };
    let before = evidence(&detections);
    let after = collapse_repeated_sourcemap_license_detections(&path_of("a.css.map"), detections);
    assert_eq!(after.len(), 2);
    assert_eq!(evidence(&after), before);
    assert_eq!(before.0, vec![1, 2, 3, 4]);
    assert_eq!(before.1.len(), 5);
}

#[test]
fn source_maps_keep_one_license() {
    assert!(is_concrete_sourcemap_detection(&simple("mit", "", 1, 1)));
    assert!(!is_concrete_sourcemap_detection(&simple("", "", 1, 1)));
    assert!(!is_concrete_sourcemap_detection(&simple("unknown-license-reference", "X", 1, 1)));
    let path = path_of("app.js.map");
    let detections = vec![
        simple("unknown-license-reference", "", 1, 1),
        simple("mit OR x", "MIT OR X", 2, 2),
        simple("unknown-license-reference", "", 3, 3),
        simple("bsd-new", "", 4, 4),
    ];
    let once = collapse_repeated_sourcemap_license_detections(&path, detections);
    assert_eq!(once.len(), 2);
    assert_eq!(once[0].matches.len(), 2);
    assert_eq!(once[1].license_expression, "(mit OR x) AND bsd-new");
    assert_eq!(once[1].license_expression_spdx, "MIT OR X");
    let again = collapse_repeated_sourcemap_license_detections(&path, once.clone());
    assert_eq!(format!("{again:?}"), format!("{once:?}"));
    let one = combine_sourcemap_detections(vec![simple("mit", "MIT", 1, 1)]);
    assert_eq!(one.license_expression, "mit");
}

#[test]
fn notice_fragments_are_promoted_at_the_threshold() {
    let low = |picos: u64| {
        let mut m = engine_match("apache-2.0", "Apache-2.0");
        m.coverage = Coverage { picos };
        let mut d = engine_detection(None, None, vec![m]);
        d.detection_log = strings(&["low-quality-match-fragments"]);
        d
    };
    let concrete = engine_detection(Some("mit"), Some("MIT"), vec![engine_match("mit", "MIT")]);
    let mut detections = vec![
        concrete.clone(),
        low(60_000_000_000_000),
        low(59_999_999_999_999),
    ];
    let path = path_of("NOTICE");
    promote_legal_notice_low_quality_detections(&mut detections, &path);
    assert_eq!(detections[1].license_expression.as_deref(), Some("apache-2.0"));
    assert!(detections[2].license_expression.is_none());
    let once = format!("{detections:?}");
    promote_legal_notice_low_quality_detections(&mut detections, &path);
    assert_eq!(format!("{detections:?}"), once);

    let mut without_concrete = vec![low(90_000_000_000_000)];
    promote_legal_notice_low_quality_detections(&mut without_concrete, &path);
    assert!(without_concrete[0].license_expression.is_none());
    let mut unknown = low(90_000_000_000_000);
    unknown.matches[0].license_expression = "unknown-x".to_string();
    let mut detections = vec![concrete, unknown];
    promote_legal_notice_low_quality_detections(&mut detections, &path);
    assert!(detections[1].license_expression.is_none());
}

#[test]
fn coverage_rounds_halves_up() {
    for (picos, hundredths) in [
        (0, 0),
        (4_999_999_999, 0),
        (5_000_000_000, 1),
        (33_334_000_000_000, 3333),
        (100_000_000_000_000, 10_000),
        (u64::MAX, 1_844_674_407),
    ] {
        assert_eq!(round_coverage(Coverage { picos }), hundredths);
    }
}

#[test]
fn reference_addresses_are_compared_in_their_normal_form() {
    assert_eq!(
        normalize_reference_url_candidate("  HTTP://X.org/a// "),
        "http://x.org/a"
    );
    let mut index = LicenseIndex::new();
    index.insert(License {
        key: "x".to_string(),
        reference_urls: strings(&["", "http://x.org/A/"]),
    });
    let mut m = engine_match("x", "X");
    let query = sample_query();
    m.matched_text = Some("see http://X.ORG/a for more".to_string());
    assert!(match_has_exact_reference_url(&query, &m, &index));
    m.matched_text = Some("see http://y.org".to_string());
    assert!(!match_has_exact_reference_url(&query, &m, &index));
    m.matched_text = None;
    assert!(!match_has_exact_reference_url(&query, &m, &index));
    index.insert(License {
        key: "x".to_string(),
        reference_urls: strings(&["the mit license"]),
    });
    assert!(match_has_exact_reference_url(&query, &m, &index));
    m.license_expression = "y".to_string();
    assert!(!match_has_exact_reference_url(&query, &m, &index));
    assert!(index.get("y").is_none());
    assert_eq!(index.get("x").unwrap().len(), 1);
}

#[test]
fn unmatched_words_are_marked() {
    let query = sample_query();
    let mut m = engine_match("mit", "MIT");
    m.query_positions = vec![2, 0];
    assert_eq!(
        matched_text_diagnostics_from_match(&query, &m).unwrap(),
        "Licensed [under] [the] [MIT] License"
    );
    assert_eq!(
        compact_matched_text_from_query(Some(&query), &m).unwrap().as_deref(),
        Some("Licensed under the MIT License")
    );
    m.query_positions = vec![1];
    assert_eq!(
        compact_matched_text_from_query(Some(&query), &m).unwrap().as_deref(),
        Some("MIT")
    );
    assert!(compact_matched_text_from_query(None, &m).unwrap().is_none());
    m.query_positions = Vec::new();
    assert_eq!(
        matched_text_diagnostics_from_match(&query, &m).unwrap(),
        "Licensed under the MIT License."
    );
    m.start_line = at(2);
    m.end_line = at(2);
    m.query_positions = vec![1];
    assert_eq!(matched_text_diagnostics_from_match(&query, &m).unwrap(), "");
}

#[test]
fn matched_text_comes_from_the_match_or_its_lines() {
    let query = sample_query();
    let mut m = engine_match("mit", "MIT");
    assert_eq!(
        extract_output_matched_text(&m, "ignored", Some(&query)).unwrap(),
        "Licensed under the MIT License."
    );
    assert_eq!(extract_output_matched_text(&m, "first\nsecond", None).unwrap(), "first");
    m.matched_text = Some("held".to_string());
    assert_eq!(extract_output_matched_text(&m, "ignored", Some(&query)).unwrap(), "held");
}

#[test]
fn deadlines_stop_work_only_where_they_are_set() {
    assert_eq!(deadline_outcome(Some(true)), Err(LicenseDetectionError::Timeout));
    assert_eq!(deadline_outcome(Some(false)), Ok(()));
    assert_eq!(deadline_outcome(None), Ok(()));
    let mut query = sample_query();
    assert!(query.ensure_output_deadline().is_ok());
    query.output_deadline = Some(Instant::now());
    assert_eq!(query.ensure_output_deadline(), Err(LicenseDetectionError::Timeout));
}

#[test]
fn deadlines_are_looked_at_only_where_there_is_work() {
    let mut query = sample_query();
    query.output_deadline = Some(Instant::now());
    let late = LicenseDetectionError::Timeout;
    let options = LicenseScanOptions::default();
    let index = LicenseIndex::new();

    let mut m = engine_match("mit", "MIT");
    m.query_positions = Vec::new();
    assert!(compact_matched_text_from_query(Some(&query), &m).unwrap().is_none());
    assert_eq!(
        matched_text_diagnostics_from_match(&query, &m).unwrap(),
        "Licensed under the MIT License."
    );
    m.query_positions = vec![1];
    assert_eq!(compact_matched_text_from_query(Some(&query), &m), Err(late.clone()));
    assert_eq!(matched_text_diagnostics_from_match(&query, &m), Err(late.clone()));

    assert_eq!(
        extract_output_matched_text(&m, "", Some(&query)).unwrap(),
        "Licensed under the MIT License."
    );
    query.text = "x".repeat(200_000);
    assert_eq!(extract_output_matched_text(&m, "", Some(&query)), Err(late.clone()));
    m.matched_text = Some("held".to_string());
    assert_eq!(extract_output_matched_text(&m, "", Some(&query)).unwrap(), "held");

    let found = |matches| engine_detection(Some("mit"), Some("MIT"), matches);
    let convert =
        |d: &_| convert_detection_to_model(d, options, "", Some(&query), Some(&index));
    assert!(convert(&found(Vec::new())).is_ok());
    assert_eq!(convert(&found(vec![m])).err(), Some(late));
}

#[test]
fn clues_stay_clues_without_an_address() {
    let d = engine_detection(None, None, vec![engine_match("mit", "MIT")]);
    let index = LicenseIndex::new();
    let query = sample_query();
    let (shown, clues) = convert_detection_to_model(
        &d,
        LicenseScanOptions::default(),
        "",
        Some(&query),
        Some(&index),
    )
    .unwrap();
    assert!(shown.is_none());
    assert_eq!(clues.len(), 1);
    assert_eq!(clues[0].rule_url.as_deref(), Some("https://example.org/x"));
    assert_eq!(clues[0].match_coverage, Some(8_800));
    assert_eq!(clues[0].referenced_filenames, Some(strings(&["COPYING"])));
    assert!(clues[0].matched_text.is_none() && clues[0].matched_text_diagnostics.is_none());
}

#[test]
fn records_are_filled_from_detections() {
    let index = LicenseIndex::new();
    let mut query = sample_query();
    let mut m = engine_match("mit", "MIT");
    m.query_positions = vec![0, 1, 1];
    let detections = vec![
        engine_detection(Some("mit"), Some("MIT"), vec![m.clone()]),
        engine_detection(None, None, vec![m]),
    ];
    let mut info = FileLicenseInfo::new();
    let options = LicenseScanOptions::default();
    let text = query.text.clone();
    process_successful_detections(
        &mut info,
        &detections,
        Some(&query),
        &text,
        &path_of("main.c"),
        options,
        &index,
    )
    .unwrap();
    assert_eq!(info.detected_license_expression.as_deref(), Some("mit"));
    assert_eq!(info.license_detections.len(), 1);
    assert_eq!(info.license_clues.len(), 1);
    let counts = info.license_text.unwrap();
    assert_eq!((counts.matched, counts.known, counts.unknown), (2, 3, 2));

    query.output_deadline = Some(Instant::now());
    let before = format!("{info:?}");
    let late = process_successful_detections(
        &mut info,
        &Vec::new(),
        Some(&query),
        &text,
        &path_of("main.c"),
        options,
        &index,
    );
    assert_eq!(late, Err(LicenseDetectionError::Timeout));
    assert_eq!(format!("{info:?}"), before);
    process_successful_detections(
        &mut info,
        &Vec::new(),
        None,
        "",
        &path_of("main.c"),
        options,
        &index,
    )
    .unwrap();
    assert_eq!(info.detected_license_expression.as_deref(), Some("mit"));
    assert!(info.license_detections.is_empty() && info.license_text.is_none());
}

fn input<'a>(path: &'a ScanPath, min_score: u8, deadline: Option<Instant>) -> LicenseExtractionInput<'a> {
    LicenseExtractionInput {
        path,
        text_content: "Licensed under MIT".to_string(),
        license_options: LicenseScanOptions { min_score, ..LicenseScanOptions::default() },
        from_binary_strings: true,
        timeout_seconds: "9.00".to_string(),
        deadline,
    }
}

fn far() -> Option<Instant> {
    Some(Instant::now() + std::time::Duration::from_secs(3600))
}

#[test]
fn engines_are_asked_for_what_the_input_says() {
    let path = path_of("src/a.c");
    let plain = input(&path, 0, far());
    let call = engine_call(&plain);
    assert_eq!(call.text, "Licensed under MIT");
    assert_eq!(call.source_path, Some("src/a.c"));
    assert_eq!(call.min_score, None);
    assert!(call.from_binary_strings && call.enable_sequence_matching && !call.unknown_licenses);
    let scored = input(&path, 40, far());
    let call = engine_call(&scored);
    assert_eq!(call.source_path, None);
    assert_eq!(call.min_score, Some(40));
    assert_eq!(call.deadline, scored.deadline);
    let patient = input(&path, 40, None);
    assert_eq!(engine_call(&patient).source_path, Some("src/a.c"));

    let mut named = engine_match("mit", "MIT");
    named.from_file = Some("else.c".to_string());
    let mut detections = vec![engine_detection(
        Some("mit"),
        None,
        vec![engine_match("mit", "MIT"), named],
    )];
    attach_source_path_to_detections(&mut detections, "src/a.c");
    assert_eq!(detections[0].matches[0].from_file.as_deref(), Some("src/a.c"));
    assert_eq!(detections[0].matches[1].from_file.as_deref(), Some("else.c"));
}

fn run(
    input: &LicenseExtractionInput<'_>,
    detected: Result<Vec<InternalLicenseDetection>, LicenseDetectionError>,
    built: Result<Query, LicenseDetectionError>,
) -> (Result<(), String>, FileLicenseInfo, Vec<ScanDiagnostic>) {
    let index = LicenseIndex::new();
    let mut info = FileLicenseInfo::new();
    let mut diagnostics = Vec::new();
    let result = extract_license_information(
        &mut info,
        &mut diagnostics,
        input,
        Some(LicenseEngine {
            index: &index,
            detect: |_: EngineCall<'_>| detected,
            build_query: |_: QueryCall<'_>| built,
        }),
    );
    (result.map_err(|e| e.message()), info, diagnostics)
}

#[test]
fn no_query_is_built_where_the_engine_failed() {
    let path = path_of("src/a.c");
    let index = LicenseIndex::new();
    for (deadline, ends) in [(None, false), (far(), true)] {
        let result = extract_license_information(
            &mut FileLicenseInfo::new(),
            &mut Vec::new(),
            &input(&path, 0, deadline),
            Some(LicenseEngine {
                index: &index,
                detect: |_: EngineCall<'_>| Err(LicenseDetectionError::Timeout),
                build_query: |_: QueryCall<'_>| panic!("no query is built"),
            }),
        );
        assert_eq!(result.is_err(), ends);
    }
}

#[test]
fn license_scans_record_fail_or_note() {
    let path = path_of("src/a.c");
    let found = || vec![engine_detection(Some("mit"), Some("MIT"), vec![engine_match("mit", "MIT")])];
    let late = "Timeout during license scan (> 9.00s)".to_string();

    let (result, info, diagnostics) = run(&input(&path, 40, far()), Ok(found()), Ok(sample_query()));
    assert_eq!(result, Ok(()));
    assert!(diagnostics.is_empty());
    assert_eq!(info.detected_license_expression.as_deref(), Some("mit"));
    assert_eq!(
        info.license_detections[0].matches[0].from_file.as_deref(),
        Some("src/a.c")
    );

    let timeout = || Err(LicenseDetectionError::Timeout);
    let (result, info, _) = run(&input(&path, 0, far()), Ok(found()), Err(LicenseDetectionError::Timeout));
    assert_eq!(result, Err(late.clone()));
    assert!(info.license_detections.is_empty());
    let (result, _, diagnostics) = run(&input(&path, 0, far()), timeout(), Ok(sample_query()));
    assert_eq!(result, Err(late.clone()));
    assert!(diagnostics.is_empty());

    let (result, _, diagnostics) = run(&input(&path, 0, None), timeout(), Ok(sample_query()));
    assert_eq!(result, Ok(()));
    assert_eq!(diagnostics.len(), 1);
    assert_eq!(diagnostics[0].severity, DiagnosticSeverity::Error);
    assert!(diagnostics[0].message.starts_with("License detection failed: "));
    let (result, info, _) = run(&input(&path, 0, None), Ok(found()), Err(LicenseDetectionError::Timeout));
    assert_eq!(result, Ok(()));
    assert_eq!(info.license_detections.len(), 1);
    assert!(info.license_text.is_none());

    let mut expired = sample_query();
    expired.output_deadline = Some(Instant::now());
    let (result, info, _) = run(&input(&path, 0, far()), Ok(found()), Ok(expired));
    assert_eq!(result, Err(late));
    assert!(info.license_detections.is_empty());
}

#[test]
fn fully_matched_words_have_no_marks() {
    let mut query = sample_query();
    for (position, index) in [0, 2, 4, 6, 8].into_iter().enumerate() {
        query.pieces[index].position = Some(position);
    }
    let mut m = engine_match("mit", "MIT");
    m.query_positions = vec![0, 1, 2, 3, 4];
    let marked = matched_text_diagnostics_from_match(&query, &m).unwrap();
    assert!(!marked.contains('['));
    assert_eq!(
        compact_matched_text_from_query(Some(&query), &m).unwrap().as_deref(),
        Some(marked.as_str())
    );
}

#[test]
fn a_query_reads_the_lines_of_its_text() {
    let query = sample_query();
    let m = engine_match("mit", "MIT");
    assert_eq!(
        extract_output_matched_text(&m, &query.text, Some(&query)).unwrap(),
        extract_output_matched_text(&m, &query.text, None).unwrap()
    );
}

#[test]
fn text_is_shown_where_it_is_asked_for() {
    let d = engine_detection(Some("mit"), Some("MIT"), vec![engine_match("mit", "MIT")]);
    let query = sample_query();
    for (include_text, include_text_diagnostics) in [(false, false), (true, false), (true, true)] {
        let options = LicenseScanOptions {
            include_text,
            include_text_diagnostics,
            ..LicenseScanOptions::default()
        };
        let (shown, clues) =
            convert_detection_to_model(&d, options, "", Some(&query), None).unwrap();
        let shown = shown.unwrap();
        assert!(clues.is_empty());
        assert_eq!(shown.matches[0].matched_text.is_some(), include_text);
        assert_eq!(
            shown.matches[0].matched_text_diagnostics.is_some(),
            include_text_diagnostics
        );
        let (unread, _) = convert_detection_to_model(&d, options, "", None, None).unwrap();
        assert!(unread.unwrap().matches[0].matched_text_diagnostics.is_none());
    }
}

#[test]
fn manifests_and_readmes_are_recorded_with_matches() {
    let index = LicenseIndex::new();
    for (path, text, expected) in [
        ("default.nix", "license = lib.licenses.mit;\n", "mit"),
        ("main.c", "license = lib.licenses.mit;\n", ""),
    ] {
        let mut info = FileLicenseInfo::new();
        process_successful_detections(
            &mut info,
            &vec![engine_detection(Some("gone"), None, Vec::new())],
            None,
            text,
            &path_of(path),
            LicenseScanOptions::default(),
            &index,
        )
        .unwrap();
        assert_eq!(
            info.detected_license_expression.as_deref().unwrap_or(""),
            expected
        );
        assert!(info.license_detections.iter().all(|d| !d.matches.is_empty()));
    }
}
