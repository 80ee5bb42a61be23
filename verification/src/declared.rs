//! Licenses that a manifest declares by an SPDX identifier.
use vstd::prelude::*;

use crate::models;
use crate::models::{LineNumber, Match, MatchScore, MatcherKind, PublicLicenseDetection};
use crate::text;

verus! {

/// A declared license as a license key and as an SPDX identifier.
#[derive(Debug)]
pub struct NormalizedDeclaredLicense {
    pub declared_license_expression: String,
    pub declared_license_expression_spdx: String,
}

/// The license key of an SPDX identifier that a manifest may declare.
pub open spec fn key_of_spdx(spdx: Seq<char>) -> Option<Seq<char>> {
    if spdx == "Apache-2.0"@ {
        Some("apache-2.0"@)
    } else if spdx == "BSD-2-Clause"@ {
        Some("bsd-simplified"@)
    } else if spdx == "BSD-3-Clause"@ {
        Some("bsd-new"@)
    } else if spdx == "GPL-1.0-only"@ {
        Some("gpl-1.0"@)
    } else if spdx == "GPL-1.0-or-later"@ {
        Some("gpl-1.0-plus"@)
    } else if spdx == "GPL-2.0-only"@ {
        Some("gpl-2.0"@)
    } else if spdx == "GPL-2.0-or-later"@ {
        Some("gpl-2.0-plus"@)
    } else if spdx == "GPL-3.0-only"@ {
        Some("gpl-3.0"@)
    } else if spdx == "GPL-3.0-or-later"@ {
        Some("gpl-3.0-plus"@)
    } else if spdx == "LGPL-2.1-only"@ {
        Some("lgpl-2.1"@)
    } else if spdx == "LGPL-2.1-or-later"@ {
        Some("lgpl-2.1-plus"@)
    } else if spdx == "LGPL-3.0-only"@ {
        Some("lgpl-3.0"@)
    } else if spdx == "LGPL-3.0-or-later"@ {
        Some("lgpl-3.0-plus"@)
    } else if spdx == "MIT"@ {
        Some("mit"@)
    } else if spdx == "MPL-1.1"@ {
        Some("mpl-1.1"@)
    } else if spdx == "MPL-2.0"@ {
        Some("mpl-2.0"@)
    } else {
        None
    }
}

/// The detection of a declared license: one match, which covers the text of the
/// declaration in full.
pub open spec fn declared_detection(
    key: Seq<char>,
    spdx: Seq<char>,
    matched_text: Seq<char>,
    start_line: LineNumber,
    end_line: LineNumber,
) -> models::DetectionView {
    models::DetectionView {
        license_expression: key,
        license_expression_spdx: spdx,
        matches: seq![
            models::MatchView {
                license_expression: key,
                license_expression_spdx: spdx,
                from_file: None,
                start_line,
                end_line,
                matcher: MatcherKind::ParserDeclared,
                score: MatchScore { hundredths: 10_000 },
                matched_length: Some(text::words_of(matched_text).len() as usize),
                match_coverage: Some(10_000),
                rule_relevance: Some(100),
                rule_identifier: seq![],
                rule_url: None,
                matched_text: Some(matched_text),
                referenced_filenames: None,
                matched_text_diagnostics: None,
            },
        ],
        detection_log: seq![],
        identifier: seq![],
    }
}

/// The license key of an SPDX identifier that a manifest may declare.
fn spdx_to_key(spdx: &str) -> (r: Option<&'static str>)
    ensures
        r is Some == key_of_spdx(spdx@) is Some,
        r is Some ==> r->0@ == key_of_spdx(spdx@)->0,
{
    if text::same_str(spdx, "Apache-2.0") {
        Some("apache-2.0")
    } else if text::same_str(spdx, "BSD-2-Clause") {
        Some("bsd-simplified")
    } else if text::same_str(spdx, "BSD-3-Clause") {
        Some("bsd-new")
    } else if text::same_str(spdx, "GPL-1.0-only") {
        Some("gpl-1.0")
    } else if text::same_str(spdx, "GPL-1.0-or-later") {
        Some("gpl-1.0-plus")
    } else if text::same_str(spdx, "GPL-2.0-only") {
        Some("gpl-2.0")
    } else if text::same_str(spdx, "GPL-2.0-or-later") {
        Some("gpl-2.0-plus")
    } else if text::same_str(spdx, "GPL-3.0-only") {
        Some("gpl-3.0")
    } else if text::same_str(spdx, "GPL-3.0-or-later") {
        Some("gpl-3.0-plus")
    } else if text::same_str(spdx, "LGPL-2.1-only") {
        Some("lgpl-2.1")
    } else if text::same_str(spdx, "LGPL-2.1-or-later") {
        Some("lgpl-2.1-plus")
    } else if text::same_str(spdx, "LGPL-3.0-only") {
        Some("lgpl-3.0")
    } else if text::same_str(spdx, "LGPL-3.0-or-later") {
        Some("lgpl-3.0-plus")
    } else if text::same_str(spdx, "MIT") {
        Some("mit")
    } else if text::same_str(spdx, "MPL-1.1") {
        Some("mpl-1.1")
    } else if text::same_str(spdx, "MPL-2.0") {
        Some("mpl-2.0")
    } else {
        None
    }
}

/// A declared SPDX identifier with its license key. Only the identifiers that Nix
/// symbols lead to are known here.
pub fn normalize_spdx_expression(spdx: &str) -> (r: Option<NormalizedDeclaredLicense>)
    ensures
        r is Some == key_of_spdx(spdx@) is Some,
        r is Some ==> r->0.declared_license_expression@ == key_of_spdx(spdx@)->0
            && r->0.declared_license_expression_spdx@ == spdx@,
{
    match spdx_to_key(spdx) {
        Some(key) => Some(
            NormalizedDeclaredLicense {
                declared_license_expression: key.to_owned(),
                declared_license_expression_spdx: spdx.to_owned(),
            },
        ),
        None => None,
    }
}

/// The detection of a declared license.
pub fn build_declared_license_detection(
    normalized: NormalizedDeclaredLicense,
    matched_text: &str,
    start_line: LineNumber,
    end_line: LineNumber,
) -> (r: PublicLicenseDetection)
    ensures
        r@ == declared_detection(
            normalized.declared_license_expression@,
            normalized.declared_license_expression_spdx@,
            matched_text@,
            start_line,
            end_line,
        ),
{
    let chars = text::to_chars(matched_text);
    let words = text::split_words(&chars);
    let matched_length: usize = words.len();
    assert(text::char_rows(words@).len() == words@.len());
    let mut matches: Vec<Match> = Vec::new();
    matches.push(
        Match {
            license_expression: normalized.declared_license_expression.clone(),
            license_expression_spdx: normalized.declared_license_expression_spdx.clone(),
            from_file: None,
            start_line,
            end_line,
            matcher: MatcherKind::ParserDeclared,
            score: MatchScore { hundredths: 10_000 },
            matched_length: Some(matched_length),
            match_coverage: Some(10_000),
            rule_relevance: Some(100),
            rule_identifier: String::new(),
            rule_url: None,
            matched_text: Some(matched_text.to_owned()),
            referenced_filenames: None,
            matched_text_diagnostics: None,
        },
    );
    let r = PublicLicenseDetection {
        license_expression: normalized.declared_license_expression,
        license_expression_spdx: normalized.declared_license_expression_spdx,
        matches,
        detection_log: Vec::new(),
        identifier: String::new(),
    };
    proof {
        let expected = declared_detection(
            normalized.declared_license_expression@,
            normalized.declared_license_expression_spdx@,
            matched_text@,
            start_line,
            end_line,
        );
        assert(r@.matches =~= expected.matches);
        assert(r@.detection_log =~= expected.detection_log);
        assert(r@.identifier =~= expected.identifier);
    }
    r
}

/// The SPDX identifiers that can be declared, with their license keys. No other
/// identifier is known.
pub proof fn law_license_keys(spdx: Seq<char>)
    ensures
        spdx == "Apache-2.0"@ ==> key_of_spdx(spdx) == Some("apache-2.0"@),
        spdx == "BSD-2-Clause"@ ==> key_of_spdx(spdx) == Some("bsd-simplified"@),
        spdx == "BSD-3-Clause"@ ==> key_of_spdx(spdx) == Some("bsd-new"@),
        spdx == "GPL-1.0-only"@ ==> key_of_spdx(spdx) == Some("gpl-1.0"@),
        spdx == "GPL-1.0-or-later"@ ==> key_of_spdx(spdx) == Some("gpl-1.0-plus"@),
        spdx == "GPL-2.0-only"@ ==> key_of_spdx(spdx) == Some("gpl-2.0"@),
        spdx == "GPL-2.0-or-later"@ ==> key_of_spdx(spdx) == Some("gpl-2.0-plus"@),
        spdx == "GPL-3.0-only"@ ==> key_of_spdx(spdx) == Some("gpl-3.0"@),
        spdx == "GPL-3.0-or-later"@ ==> key_of_spdx(spdx) == Some("gpl-3.0-plus"@),
        spdx == "LGPL-2.1-only"@ ==> key_of_spdx(spdx) == Some("lgpl-2.1"@),
        spdx == "LGPL-2.1-or-later"@ ==> key_of_spdx(spdx) == Some("lgpl-2.1-plus"@),
        spdx == "LGPL-3.0-only"@ ==> key_of_spdx(spdx) == Some("lgpl-3.0"@),
        spdx == "LGPL-3.0-or-later"@ ==> key_of_spdx(spdx) == Some("lgpl-3.0-plus"@),
        spdx == "MIT"@ ==> key_of_spdx(spdx) == Some("mit"@),
        spdx == "MPL-1.1"@ ==> key_of_spdx(spdx) == Some("mpl-1.1"@),
        spdx == "MPL-2.0"@ ==> key_of_spdx(spdx) == Some("mpl-2.0"@),
        key_of_spdx(spdx) is Some ==> spdx == "Apache-2.0"@
            || spdx == "BSD-2-Clause"@
            || spdx == "BSD-3-Clause"@
            || spdx == "GPL-1.0-only"@
            || spdx == "GPL-1.0-or-later"@
            || spdx == "GPL-2.0-only"@
            || spdx == "GPL-2.0-or-later"@
            || spdx == "GPL-3.0-only"@
            || spdx == "GPL-3.0-or-later"@
            || spdx == "LGPL-2.1-only"@
            || spdx == "LGPL-2.1-or-later"@
            || spdx == "LGPL-3.0-only"@
            || spdx == "LGPL-3.0-or-later"@
            || spdx == "MIT"@
            || spdx == "MPL-1.1"@
            || spdx == "MPL-2.0"@,
{
    reveal_strlit("Apache-2.0");
    reveal_strlit("BSD-2-Clause");
    reveal_strlit("BSD-3-Clause");
    reveal_strlit("GPL-1.0-only");
    reveal_strlit("GPL-1.0-or-later");
    reveal_strlit("GPL-2.0-only");
    reveal_strlit("GPL-2.0-or-later");
    reveal_strlit("GPL-3.0-only");
    reveal_strlit("GPL-3.0-or-later");
    reveal_strlit("LGPL-2.1-only");
    reveal_strlit("LGPL-2.1-or-later");
    reveal_strlit("LGPL-3.0-only");
    reveal_strlit("LGPL-3.0-or-later");
    reveal_strlit("MIT");
    reveal_strlit("MPL-1.1");
    reveal_strlit("MPL-2.0");
    assert("Apache-2.0"@.len() == 10 && "Apache-2.0"@[4] == 'h' && "Apache-2.0"@[5] == 'e');
    assert("BSD-2-Clause"@.len() == 12 && "BSD-2-Clause"@[4] == '2' && "BSD-2-Clause"@[5] == '-');
    assert("BSD-3-Clause"@.len() == 12 && "BSD-3-Clause"@[4] == '3' && "BSD-3-Clause"@[5] == '-');
    assert("GPL-1.0-only"@.len() == 12 && "GPL-1.0-only"@[4] == '1' && "GPL-1.0-only"@[5] == '.');
    assert("GPL-1.0-or-later"@.len() == 16 && "GPL-1.0-or-later"@[4] == '1' && "GPL-1.0-or-later"@[5] == '.');
    assert("GPL-2.0-only"@.len() == 12 && "GPL-2.0-only"@[4] == '2' && "GPL-2.0-only"@[5] == '.');
    assert("GPL-2.0-or-later"@.len() == 16 && "GPL-2.0-or-later"@[4] == '2' && "GPL-2.0-or-later"@[5] == '.');
    assert("GPL-3.0-only"@.len() == 12 && "GPL-3.0-only"@[4] == '3' && "GPL-3.0-only"@[5] == '.');
    assert("GPL-3.0-or-later"@.len() == 16 && "GPL-3.0-or-later"@[4] == '3' && "GPL-3.0-or-later"@[5] == '.');
    assert("LGPL-2.1-only"@.len() == 13 && "LGPL-2.1-only"@[4] == '-' && "LGPL-2.1-only"@[5] == '2');
    assert("LGPL-2.1-or-later"@.len() == 17 && "LGPL-2.1-or-later"@[4] == '-' && "LGPL-2.1-or-later"@[5] == '2');
    assert("LGPL-3.0-only"@.len() == 13 && "LGPL-3.0-only"@[4] == '-' && "LGPL-3.0-only"@[5] == '3');
    assert("LGPL-3.0-or-later"@.len() == 17 && "LGPL-3.0-or-later"@[4] == '-' && "LGPL-3.0-or-later"@[5] == '3');
    assert("MIT"@.len() == 3);
    assert("MPL-1.1"@.len() == 7 && "MPL-1.1"@[4] == '1' && "MPL-1.1"@[5] == '.');
    assert("MPL-2.0"@.len() == 7 && "MPL-2.0"@[4] == '2' && "MPL-2.0"@[5] == '.');
}

} // verus!
