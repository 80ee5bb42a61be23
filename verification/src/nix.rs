//! License declarations of Nix package expressions, and the detections that
//! they add to a scan.
use vstd::prelude::*;

use crate::declared;
use crate::expression;
use crate::lists;
use crate::models;
use crate::models::{LineNumber, PublicLicenseDetection};
use crate::paths;
use crate::paths::ScanPath;
use crate::reading;
use crate::spdx;
use crate::text;

verus! {

/// A license symbol that a Nix expression declares.
#[derive(Debug)]
pub struct NixLicenseDeclaration {
    pub symbol: String,
    pub matched_text: String,
    pub start_line: LineNumber,
    pub end_line: LineNumber,
}

/// What a [`NixLicenseDeclaration`] holds.
#[verifier::ext_equal]
pub struct NixDeclarationView {
    pub symbol: Seq<char>,
    pub matched_text: Seq<char>,
    pub start_line: LineNumber,
    pub end_line: LineNumber,
}

impl View for NixLicenseDeclaration {
    type V = NixDeclarationView;

    open spec fn view(&self) -> NixDeclarationView {
        NixDeclarationView {
            symbol: self.symbol@,
            matched_text: self.matched_text@,
            start_line: self.start_line,
            end_line: self.end_line,
        }
    }
}

pub open spec fn declaration_views(declarations: Seq<NixLicenseDeclaration>) -> Seq<
    NixDeclarationView,
> {
    declarations.map_values(|d: NixLicenseDeclaration| d@)
}

pub open spec fn is_symbol_char(c: char) -> bool {
    text::is_ascii_alnum(c) || c == '_' || c == '+' || c == '-'
}

/// The longest beginning of a text that is a symbol.
pub open spec fn symbol_of(s: Seq<char>) -> Seq<char>
    decreases s.len(),
{
    if s.len() > 0 && is_symbol_char(s[0]) {
        seq![s[0]] + symbol_of(s.skip(1))
    } else {
        seq![]
    }
}

/// The symbols that the words of a text begin with.
pub open spec fn symbols_of(s: Seq<char>) -> Seq<Seq<char>> {
    text::words_of(s).map_values(|word: Seq<char>| symbol_of(word)).filter(
        |symbol: Seq<char>| symbol.len() > 0,
    )
}

/// A line before its first `#`.
pub open spec fn before_comment(line: Seq<char>) -> Seq<char>
    decreases line.len(),
{
    if line.len() == 0 || line[0] == '#' {
        seq![]
    } else {
        seq![line[0]] + before_comment(line.skip(1))
    }
}

/// The declarations of several symbols on one line.
pub open spec fn declarations_at(symbols: Seq<Seq<char>>, line: LineNumber) -> Seq<
    NixDeclarationView,
> {
    symbols.map_values(
        |symbol: Seq<char>|
            NixDeclarationView { symbol, matched_text: symbol, start_line: line, end_line: line },
    )
}

/// What the lines of a Nix expression declare up to some point.
pub struct NixState {
    pub declarations: Seq<NixDeclarationView>,
    /// A list of licenses has begun and not ended.
    pub in_list: bool,
}

/// The state behind one more line.
pub open spec fn after_line(state: NixState, line: Seq<char>, number: LineNumber) -> NixState {
    let trimmed = text::trim_of(before_comment(line));
    let closes = text::has_text(trimmed, "];"@);
    if state.in_list {
        NixState {
            declarations: state.declarations + declarations_at(symbols_of(trimmed), number),
            in_list: !closes,
        }
    } else if text::begins_with(trimmed, "license = lib.licenses."@) {
        let symbol = symbol_of(trimmed.skip("license = lib.licenses."@.len() as int));
        if symbol.len() == 0 {
            state
        } else {
            NixState {
                declarations: state.declarations.push(
                    NixDeclarationView {
                        symbol,
                        matched_text: symbol,
                        start_line: number,
                        end_line: number,
                    },
                ),
                in_list: false,
            }
        }
    } else if text::begins_with(trimmed, "license = with lib.licenses; ["@) {
        let rest = trimmed.skip("license = with lib.licenses; ["@.len() as int);
        NixState {
            declarations: state.declarations + declarations_at(symbols_of(rest), number),
            in_list: !closes,
        }
    } else if text::begins_with(trimmed, "license = licenses."@) {
        let symbol = symbol_of(trimmed.skip("license = licenses."@.len() as int));
        if symbol.len() == 0 {
            state
        } else {
            NixState {
                declarations: state.declarations.push(
                    NixDeclarationView {
                        symbol,
                        matched_text: "licenses."@ + symbol,
                        start_line: number,
                        end_line: number,
                    },
                ),
                in_list: false,
            }
        }
    } else {
        state
    }
}

/// What the lines of a Nix expression declare.
pub open spec fn after_lines(lines: Seq<Seq<char>>) -> NixState
    decreases lines.len(),
{
    if lines.len() == 0 {
        NixState { declarations: seq![], in_list: false }
    } else {
        after_line(
            after_lines(lines.drop_last()),
            lines.last(),
            LineNumber::at(lines.len()),
        )
    }
}

/// The declarations of a Nix expression.
pub open spec fn nix_declarations(s: Seq<char>) -> Seq<NixDeclarationView> {
    after_lines(text::lines_of(s)).declarations
}

/// The SPDX identifier that a license symbol of Nix stands for.
pub open spec fn spdx_of_symbol(symbol: Seq<char>) -> Option<Seq<char>> {
    if symbol == "asl20"@ {
        Some("Apache-2.0"@)
    } else if symbol == "bsd2"@ {
        Some("BSD-2-Clause"@)
    } else if symbol == "bsd3"@ {
        Some("BSD-3-Clause"@)
    } else if symbol == "gpl1Only"@ {
        Some("GPL-1.0-only"@)
    } else if symbol == "gpl1Plus"@ {
        Some("GPL-1.0-or-later"@)
    } else if symbol == "gpl2"@ || symbol == "gpl2Only"@ {
        Some("GPL-2.0-only"@)
    } else if symbol == "gpl2Plus"@ {
        Some("GPL-2.0-or-later"@)
    } else if symbol == "gpl3"@ || symbol == "gpl3Only"@ {
        Some("GPL-3.0-only"@)
    } else if symbol == "gpl3Plus"@ {
        Some("GPL-3.0-or-later"@)
    } else if symbol == "lgpl21"@ {
        Some("LGPL-2.1-only"@)
    } else if symbol == "lgpl21Plus"@ {
        Some("LGPL-2.1-or-later"@)
    } else if symbol == "lgpl3"@ {
        Some("LGPL-3.0-only"@)
    } else if symbol == "lgpl3Plus"@ {
        Some("LGPL-3.0-or-later"@)
    } else if symbol == "mit"@ {
        Some("MIT"@)
    } else if symbol == "mpl11"@ {
        Some("MPL-1.1"@)
    } else if symbol == "mpl20"@ {
        Some("MPL-2.0"@)
    } else {
        None
    }
}

/// The keys of all the expressions of several detections.
pub open spec fn detected_keys(ds: Seq<models::DetectionView>) -> Set<Seq<char>>
    decreases ds.len(),
{
    if ds.len() == 0 {
        Set::empty()
    } else {
        detected_keys(ds.drop_last()).union(
            expression::expression_keys(ds.last().license_expression),
        ).union(expression::expression_keys(ds.last().license_expression_spdx))
    }
}

/// The detections that declarations add, and the keys that are known behind them.
pub struct Supplement {
    pub detections: Seq<models::DetectionView>,
    pub keys: Set<Seq<char>>,
}

/// The keys of a declared license, by its license key and by its SPDX identifier.
pub open spec fn declared_keys(key: Seq<char>, spdx: Seq<char>) -> Set<Seq<char>> {
    expression::expression_keys(key).union(expression::expression_keys(spdx))
}

/// One more declaration adds a detection, unless its symbol is unknown or all
/// its keys are known.
pub open spec fn supplemented_by(before: Supplement, d: NixDeclarationView) -> Supplement {
    match spdx_of_symbol(d.symbol) {
        Some(spdx) => match declared::key_of_spdx(spdx) {
            Some(key) => {
                let keys = declared_keys(key, spdx);
                if keys != Set::<Seq<char>>::empty() && keys.subset_of(before.keys) {
                    before
                } else {
                    Supplement {
                        detections: before.detections.push(
                            declared::declared_detection(
                                key,
                                spdx,
                                d.matched_text,
                                d.start_line,
                                d.end_line,
                            ),
                        ),
                        keys: before.keys.union(keys),
                    }
                }
            },
            None => before,
        },
        None => before,
    }
}

/// What several declarations add to detections with the given keys.
pub open spec fn supplemented(declarations: Seq<NixDeclarationView>, known: Set<Seq<char>>) -> Supplement
    decreases declarations.len(),
{
    if declarations.len() == 0 {
        Supplement { detections: seq![], keys: known }
    } else {
        supplemented_by(supplemented(declarations.drop_last(), known), declarations.last())
    }
}

/// The detections that a Nix expression adds to those that are there.
pub open spec fn nix_supplement(
    path: paths::PathView,
    content: Seq<char>,
    existing: Seq<models::DetectionView>,
) -> Seq<models::DetectionView> {
    if paths::nix_file(path) && text::has_text(content, "license ="@) {
        supplemented(nix_declarations(content), detected_keys(existing)).detections
    } else {
        seq![]
    }
}

/// The length of the symbol that a text begins with.
fn symbol_chars<'a>(s: &'a [char]) -> (r: &'a [char])
    ensures
        r@ == symbol_of(s@),
{
    let mut n: usize = 0;
    assert(s@.skip(0) == s@);
    assert(s@.take(0) + symbol_of(s@) == symbol_of(s@));
    while n < s.len() && (text::ascii_alnum(s[n]) || s[n] == '_' || s[n] == '+' || s[n] == '-')
        invariant
            n <= s@.len(),
            symbol_of(s@) == s@.take(n as int) + symbol_of(s@.skip(n as int)),
        decreases s@.len() - n,
    {
        assert(s@.skip(n as int).skip(1) == s@.skip(n + 1));
        assert(s@.skip(n as int)[0] == s@[n as int]);
        assert(s@.take(n + 1) == s@.take(n as int) + seq![s@[n as int]]);
        assert(s@.take(n as int) + (seq![s@[n as int]] + symbol_of(s@.skip(n + 1))) == s@.take(
            n + 1,
        ) + symbol_of(s@.skip(n + 1)));
        n = n + 1;
    }
    assert(symbol_of(s@.skip(n as int)) == Seq::<char>::empty());
    assert(s@.take(n as int) + Seq::<char>::empty() == s@.take(n as int));
    assert(s@.subrange(0, n as int) == s@.take(n as int));
    &s[0..n]
}

/// The license symbol that a text begins with.
pub fn parse_nix_license_symbol(input: &str) -> (r: Option<String>)
    ensures
        r is Some == (symbol_of(input@).len() > 0),
        r is Some ==> r->0@ == symbol_of(input@),
{
    let chars = text::to_chars(input);
    let symbol = symbol_chars(&chars);
    if symbol.len() > 0 {
        Some(text::to_text(symbol))
    } else {
        None
    }
}

fn tokenize_symbols(s: &[char]) -> (r: Vec<String>)
    ensures
        text::texts(r@) == symbols_of(s@),
{
    let words = text::split_words(s);
    let ghost keep = |symbol: Seq<char>| symbol.len() > 0;
    let ghost all = text::words_of(s@).map_values(|word: Seq<char>| symbol_of(word));
    let mut r: Vec<String> = Vec::new();
    let mut i: usize = 0;
    proof {
        lists::lemma_filter_empty(keep);
        assert(all.take(0) == Seq::<Seq<char>>::empty());
        assert(text::texts(r@) == all.take(0).filter(keep));
        assert(text::char_rows(words@).len() == words@.len());
    }
    while i < words.len()
        invariant
            keep == (|symbol: Seq<char>| symbol.len() > 0),
            text::char_rows(words@) == text::words_of(s@),
            all == text::words_of(s@).map_values(|word: Seq<char>| symbol_of(word)),
            all.len() == words@.len(),
            i <= words@.len(),
            text::texts(r@) == all.take(i as int).filter(keep),
        decreases words@.len() - i,
    {
        let ghost before = text::texts(r@);
        let symbol = symbol_chars(&words[i]);
        proof {
            assert(text::char_rows(words@)[i as int] == words@[i as int]@);
            assert(all[i as int] == symbol_of(words@[i as int]@));
            lists::lemma_filter_take(all, keep, i as int);
        }
        if symbol.len() > 0 {
            r.push(text::to_text(symbol));
            assert(text::texts(r@) == before.push(all[i as int]));
        }
        i = i + 1;
    }
    assert(all.take(i as int) == all);
    r
}

/// The license symbols that the words of a text begin with.
pub fn tokenize_nix_license_symbols(input: &str) -> (r: Vec<String>)
    ensures
        text::texts(r@) == symbols_of(input@),
{
    let chars = text::to_chars(input);
    tokenize_symbols(&chars)
}

/// A line before its first `#`.
fn cut_comment<'a>(s: &'a [char]) -> (r: &'a [char])
    ensures
        r@ == before_comment(s@),
{
    let mut n: usize = 0;
    assert(s@.skip(0) == s@);
    assert(s@.take(0) + before_comment(s@) == before_comment(s@));
    while n < s.len() && s[n] != '#'
        invariant
            n <= s@.len(),
            before_comment(s@) == s@.take(n as int) + before_comment(s@.skip(n as int)),
        decreases s@.len() - n,
    {
        assert(s@.skip(n as int).skip(1) == s@.skip(n + 1));
        assert(s@.skip(n as int)[0] == s@[n as int]);
        assert(s@.take(n + 1) == s@.take(n as int) + seq![s@[n as int]]);
        assert(s@.take(n as int) + (seq![s@[n as int]] + before_comment(s@.skip(n + 1)))
            == s@.take(n + 1) + before_comment(s@.skip(n + 1)));
        n = n + 1;
    }
    assert(before_comment(s@.skip(n as int)) == Seq::<char>::empty());
    assert(s@.take(n as int) + Seq::<char>::empty() == s@.take(n as int));
    assert(s@.subrange(0, n as int) == s@.take(n as int));
    &s[0..n]
}

/// Adds the declarations of several symbols on one line.
fn push_declarations(
    declarations: &mut Vec<NixLicenseDeclaration>,
    symbols: &Vec<String>,
    line: LineNumber,
)
    ensures
        declaration_views(final(declarations)@) == declaration_views(old(declarations)@)
            + declarations_at(text::texts(symbols@), line),
{
    let ghost start = declaration_views(declarations@);
    let ghost added = declarations_at(text::texts(symbols@), line);
    let mut i: usize = 0;
    assert(start + added.take(0) == start);
    while i < symbols.len()
        invariant
            added == declarations_at(text::texts(symbols@), line),
            i <= symbols@.len(),
            declaration_views(declarations@) == start + added.take(i as int),
        decreases symbols@.len() - i,
    {
        let ghost before = declaration_views(declarations@);
        declarations.push(
            NixLicenseDeclaration {
                matched_text: symbols[i].clone(),
                symbol: symbols[i].clone(),
                start_line: line,
                end_line: line,
            },
        );
        proof {
            assert(text::texts(symbols@)[i as int] == symbols@[i as int]@);
            assert(declaration_views(declarations@) == before.push(added[i as int]));
            assert(added.take(i + 1) == added.take(i as int).push(added[i as int]));
            assert((start + added.take(i as int)).push(added[i as int]) == start + added.take(
                i + 1,
            ));
        }
        i = i + 1;
    }
    assert(added.take(i as int) == added);
}

/// Adds the declaration of one symbol.
fn push_declaration(
    declarations: &mut Vec<NixLicenseDeclaration>,
    symbol: String,
    matched_text: String,
    line: LineNumber,
)
    ensures
        declaration_views(final(declarations)@) == declaration_views(old(declarations)@).push(
            NixDeclarationView {
                symbol: symbol@,
                matched_text: matched_text@,
                start_line: line,
                end_line: line,
            },
        ),
{
    let ghost before = declaration_views(declarations@);
    let declaration = NixLicenseDeclaration {
        matched_text,
        symbol,
        start_line: line,
        end_line: line,
    };
    let ghost view = declaration@;
    declarations.push(declaration);
    assert(declaration_views(declarations@) == before.push(view));
}

/// The license declarations of a Nix expression.
pub fn extract_nix_manifest_license_declarations(content: &str) -> (r: Vec<NixLicenseDeclaration>)
    ensures
        declaration_views(r@) == nix_declarations(content@),
{
    let source_lines = text::text_lines(content);
    let ghost lines = text::texts(source_lines@);
    let mut declarations: Vec<NixLicenseDeclaration> = Vec::new();
    let mut in_license_list = false;
    let mut i: usize = 0;
    assert(declaration_views(declarations@) == after_lines(lines.take(0)).declarations);
    while i < source_lines.len()
        invariant
            lines == text::texts(source_lines@),
            i <= source_lines@.len(),
            declaration_views(declarations@) == after_lines(lines.take(i as int)).declarations,
            in_license_list == after_lines(lines.take(i as int)).in_list,
        decreases source_lines@.len() - i,
    {
        let ghost state = after_lines(lines.take(i as int));
        let line_number = match LineNumber::new(i + 1) {
            Some(number) => number,
            None => LineNumber::one(),
        };
        let chars = text::to_chars(source_lines[i].as_str());
        let trimmed = text::trim(cut_comment(&chars));
        proof {
            assert(lines[i as int] == source_lines@[i as int]@);
            assert(lines.take(i + 1).drop_last() == lines.take(i as int));
            assert(lines.take(i + 1).last() == lines[i as int]);
        }
        if in_license_list {
            let closes_list = text::contains_str(trimmed, "];");
            push_declarations(&mut declarations, &tokenize_symbols(trimmed), line_number);
            in_license_list = !closes_list;
        } else if let Some(rest) = text::strip_prefix(trimmed, "license = lib.licenses.") {
            let symbol = symbol_chars(rest);
            if symbol.len() > 0 {
                push_declaration(
                    &mut declarations,
                    text::to_text(symbol),
                    text::to_text(symbol),
                    line_number,
                );
            }
        } else if let Some(rest) = text::strip_prefix(trimmed, "license = with lib.licenses; [") {
            push_declarations(&mut declarations, &tokenize_symbols(rest), line_number);
            in_license_list = !text::contains_str(trimmed, "];");
        } else if let Some(rest) = text::strip_prefix(trimmed, "license = licenses.") {
            let symbol = symbol_chars(rest);
            if symbol.len() > 0 {
                let mut matched_text = "licenses.".to_owned();
                matched_text.append(text::to_text(symbol).as_str());
                push_declaration(
                    &mut declarations,
                    text::to_text(symbol),
                    matched_text,
                    line_number,
                );
            }
        }
        i = i + 1;
    }
    assert(lines.take(i as int) == lines);
    declarations
}

/// The SPDX identifier that a license symbol of Nix stands for.
pub fn nix_license_symbol_to_spdx(symbol: &str) -> (r: Option<&'static str>)
    ensures
        r is Some == spdx_of_symbol(symbol@) is Some,
        r is Some ==> r->0@ == spdx_of_symbol(symbol@)->0,
{
    if text::same_str(symbol, "asl20") {
        Some("Apache-2.0")
    } else if text::same_str(symbol, "bsd2") {
        Some("BSD-2-Clause")
    } else if text::same_str(symbol, "bsd3") {
        Some("BSD-3-Clause")
    } else if text::same_str(symbol, "gpl1Only") {
        Some("GPL-1.0-only")
    } else if text::same_str(symbol, "gpl1Plus") {
        Some("GPL-1.0-or-later")
    } else if text::same_str(symbol, "gpl2") || text::same_str(symbol, "gpl2Only") {
        Some("GPL-2.0-only")
    } else if text::same_str(symbol, "gpl2Plus") {
        Some("GPL-2.0-or-later")
    } else if text::same_str(symbol, "gpl3") || text::same_str(symbol, "gpl3Only") {
        Some("GPL-3.0-only")
    } else if text::same_str(symbol, "gpl3Plus") {
        Some("GPL-3.0-or-later")
    } else if text::same_str(symbol, "lgpl21") {
        Some("LGPL-2.1-only")
    } else if text::same_str(symbol, "lgpl21Plus") {
        Some("LGPL-2.1-or-later")
    } else if text::same_str(symbol, "lgpl3") {
        Some("LGPL-3.0-only")
    } else if text::same_str(symbol, "lgpl3Plus") {
        Some("LGPL-3.0-or-later")
    } else if text::same_str(symbol, "mit") {
        Some("MIT")
    } else if text::same_str(symbol, "mpl11") {
        Some("MPL-1.1")
    } else if text::same_str(symbol, "mpl20") {
        Some("MPL-2.0")
    } else {
        None
    }
}

/// The keys of all the expressions of the detections, each once.
pub fn collect_detected_license_keys(detections: &Vec<PublicLicenseDetection>) -> (keys: Vec<
    String,
>)
    ensures
        text::texts(keys@).no_duplicates(),
        text::texts(keys@).to_set() == detected_keys(models::detection_views(detections@)),
{
    let ghost all = models::detection_views(detections@);
    let mut keys: Vec<String> = Vec::new();
    let mut i: usize = 0;
    assert(text::texts(keys@).to_set() == detected_keys(all.take(0)));
    while i < detections.len()
        invariant
            all == models::detection_views(detections@),
            i <= detections@.len(),
            text::texts(keys@).no_duplicates(),
            text::texts(keys@).to_set() == detected_keys(all.take(i as int)),
        decreases detections@.len() - i,
    {
        proof {
            assert(all[i as int] == detections@[i as int]@);
            assert(all.take(i + 1).drop_last() == all.take(i as int));
            assert(all.take(i + 1).last() == all[i as int]);
        }
        expression::insert_keys(
            &mut keys,
            &expression::collect_expression_keys(detections[i].license_expression.as_str()),
        );
        expression::insert_keys(
            &mut keys,
            &expression::collect_expression_keys(detections[i].license_expression_spdx.as_str()),
        );
        i = i + 1;
    }
    assert(all.take(i as int) == all);
    keys
}

/// The detections that the license declarations of a Nix expression add to
/// those that are there.
pub fn supplement_nix_manifest_license_detections(
    path: &ScanPath,
    text_content: &str,
    existing_detections: &Vec<PublicLicenseDetection>,
) -> (r: Vec<PublicLicenseDetection>)
    ensures
        models::detection_views(r@) == nix_supplement(
            path@,
            text_content@,
            models::detection_views(existing_detections@),
        ),
{
    let mut synthesized: Vec<PublicLicenseDetection> = Vec::new();
    let content = text::to_chars(text_content);
    if !paths::is_nix_file(path) || !text::contains_str(&content, "license =") {
        assert(models::detection_views(synthesized@) == Seq::<models::DetectionView>::empty());
        return synthesized;
    }
    let mut known = collect_detected_license_keys(existing_detections);
    let ghost start = text::texts(known@).to_set();
    let declarations = extract_nix_manifest_license_declarations(text_content);
    let ghost all = declaration_views(declarations@);
    let mut i: usize = 0;
    assert(models::detection_views(synthesized@) == supplemented(all.take(0), start).detections);
    while i < declarations.len()
        invariant
            all == declaration_views(declarations@),
            i <= declarations@.len(),
            text::texts(known@).no_duplicates(),
            models::detection_views(synthesized@) == supplemented(
                all.take(i as int),
                start,
            ).detections,
            text::texts(known@).to_set() == supplemented(all.take(i as int), start).keys,
        decreases declarations@.len() - i,
    {
        let ghost before = supplemented(all.take(i as int), start);
        let declaration = &declarations[i];
        proof {
            assert(all[i as int] == declaration@);
            assert(all.take(i + 1).drop_last() == all.take(i as int));
            assert(all.take(i + 1).last() == all[i as int]);
        }
        i = i + 1;
        let spdx = match nix_license_symbol_to_spdx(declaration.symbol.as_str()) {
            Some(spdx) => spdx,
            None => continue ,
        };
        let normalized = match declared::normalize_spdx_expression(spdx) {
            Some(normalized) => normalized,
            None => continue ,
        };
        let mut keys = expression::collect_expression_keys(
            normalized.declared_license_expression.as_str(),
        );
        expression::insert_keys(
            &mut keys,
            &expression::collect_expression_keys(
                normalized.declared_license_expression_spdx.as_str(),
            ),
        );
        let ghost key_view = normalized.declared_license_expression@;
        proof {
            if keys@.len() == 0 {
                assert(text::texts(keys@).to_set() == Set::<Seq<char>>::empty());
            } else {
                assert(text::texts(keys@).to_set().contains(text::texts(keys@)[0]));
            }
            assert(text::texts(keys@).to_set() == declared_keys(key_view, spdx@));
        }
        if keys.len() > 0 && expression::has_all_keys(&known, &keys) {
            continue ;
        }
        let detection = declared::build_declared_license_detection(
            normalized,
            declaration.matched_text.as_str(),
            declaration.start_line,
            declaration.end_line,
        );
        expression::insert_keys(&mut known, &keys);
        let ghost added = detection@;
        synthesized.push(detection);
        assert(models::detection_views(synthesized@) == before.detections.push(added));
    }
    assert(all.take(i as int) == all);
    synthesized
}

/// The keys of a single license are its key in small letters.
proof fn lemma_single_key(key: Seq<char>)
    requires
        reading::proper_key(key),
    ensures
        expression::expression_keys(key).contains(text::lower(key)),
{
    let e = expression::Expr::License(key);
    reading::law_rendered_reads_back(e);
    assert(spdx::rendered(e) == key);
    let keys = expression::keys_of(e).map_values(|k: Seq<char>| text::lower(k));
    assert(keys[0] == text::lower(key));
    assert(keys.contains(text::lower(key)));
}

/// The first characters of a text may stand in a key.
spec fn readable_to(s: Seq<char>, n: nat) -> bool
    decreases n,
{
    n == 0 || (expression::is_key_char(s[n - 1]) && readable_to(s, (n - 1) as nat))
}

proof fn lemma_readable_to(s: Seq<char>, n: nat)
    requires
        readable_to(s, n),
    ensures
        forall|i: int| 0 <= i < n ==> expression::is_key_char(#[trigger] s[i]),
    decreases n,
{
    if n > 0 {
        lemma_readable_to(s, (n - 1) as nat);
    }
}

/// Every declared license has a key that can be read.
proof fn lemma_declared_key(spdx_id: Seq<char>)
    requires
        declared::key_of_spdx(spdx_id) is Some,
    ensures
        reading::proper_key(declared::key_of_spdx(spdx_id)->0),
{
    reveal_strlit("and");
    reveal_strlit("or");
    reveal_strlit("with");
    reveal_strlit("apache-2.0");
    reveal_strlit("bsd-simplified");
    reveal_strlit("bsd-new");
    reveal_strlit("gpl-1.0");
    reveal_strlit("gpl-1.0-plus");
    reveal_strlit("gpl-2.0");
    reveal_strlit("gpl-2.0-plus");
    reveal_strlit("gpl-3.0");
    reveal_strlit("gpl-3.0-plus");
    reveal_strlit("lgpl-2.1");
    reveal_strlit("lgpl-2.1-plus");
    reveal_strlit("lgpl-3.0");
    reveal_strlit("lgpl-3.0-plus");
    reveal_strlit("mit");
    reveal_strlit("mpl-1.1");
    reveal_strlit("mpl-2.0");
    let key = declared::key_of_spdx(spdx_id)->0;
    assert(readable_to(key, key.len())) by {
        reveal_with_fuel(readable_to, 15);
    }
    lemma_readable_to(key, key.len());
    assert(text::lower(key).len() == key.len());
    if key == "mit"@ {
        assert(text::lower(key)[0] == 'm');
    }
}

proof fn lemma_detected_keys_concat(
    a: Seq<models::DetectionView>,
    b: Seq<models::DetectionView>,
)
    ensures
        detected_keys(a + b) == detected_keys(a).union(detected_keys(b)),
    decreases b.len(),
{
    if b.len() == 0 {
        assert(a + b == a);
        assert(detected_keys(b) == Set::<Seq<char>>::empty());
        assert(detected_keys(a).union(detected_keys(b)) =~= detected_keys(a));
    } else {
        assert((a + b).drop_last() == a + b.drop_last());
        assert((a + b).last() == b.last());
        lemma_detected_keys_concat(a, b.drop_last());
        assert(detected_keys(a + b) =~= detected_keys(a).union(detected_keys(b)));
    }
}

/// The keys behind declarations are those that were known and those of the
/// detections that were added.
proof fn lemma_supplement_keys(declarations: Seq<NixDeclarationView>, known: Set<Seq<char>>)
    ensures
        ({
            let after = supplemented(declarations, known);
            after.keys == known.union(detected_keys(after.detections))
        }),
    decreases declarations.len(),
{
    let after = supplemented(declarations, known);
    if declarations.len() == 0 {
        assert(detected_keys(after.detections) == Set::<Seq<char>>::empty());
        assert(after.keys =~= known.union(detected_keys(after.detections)));
    } else {
        lemma_supplement_keys(declarations.drop_last(), known);
        let before = supplemented(declarations.drop_last(), known);
        if after.detections != before.detections {
            assert(after.detections.drop_last() == before.detections);
            let added = after.detections.last();
            assert(detected_keys(after.detections) == detected_keys(before.detections).union(
                expression::expression_keys(added.license_expression),
            ).union(expression::expression_keys(added.license_expression_spdx)));
            assert(after.keys =~= known.union(detected_keys(after.detections)));
        } else {
            lemma_same_supplement(before, declarations.last());
        }
    }
}

proof fn lemma_same_supplement(before: Supplement, d: NixDeclarationView)
    requires
        supplemented_by(before, d).detections == before.detections,
    ensures
        supplemented_by(before, d) == before,
{
    let after = supplemented_by(before, d);
    if after != before {
        assert(after.detections.len() == before.detections.len() + 1);
    }
}

/// The keys of a declaration are known, or it declares no known license.
pub open spec fn settled(d: NixDeclarationView, keys: Set<Seq<char>>) -> bool {
    match spdx_of_symbol(d.symbol) {
        Some(spdx_id) => match declared::key_of_spdx(spdx_id) {
            Some(key) => declared_keys(key, spdx_id).subset_of(keys),
            None => true,
        },
        None => true,
    }
}

proof fn lemma_all_settled(declarations: Seq<NixDeclarationView>, known: Set<Seq<char>>)
    ensures
        known.subset_of(supplemented(declarations, known).keys),
        forall|i: int|
            0 <= i < declarations.len() ==> settled(
                #[trigger] declarations[i],
                supplemented(declarations, known).keys,
            ),
    decreases declarations.len(),
{
    if declarations.len() > 0 {
        let fewer = declarations.drop_last();
        lemma_all_settled(fewer, known);
        let before = supplemented(fewer, known);
        let after = supplemented(declarations, known);
        assert(before.keys.subset_of(after.keys));
        assert forall|i: int| 0 <= i < declarations.len() implies settled(
            #[trigger] declarations[i],
            after.keys,
        ) by {
            if i < fewer.len() {
                assert(fewer[i] == declarations[i]);
                assert(settled(fewer[i], before.keys));
            }
        }
    }
}

proof fn lemma_settled_adds_nothing(declarations: Seq<NixDeclarationView>, known: Set<Seq<char>>)
    requires
        forall|i: int| 0 <= i < declarations.len() ==> settled(#[trigger] declarations[i], known),
    ensures
        supplemented(declarations, known).detections.len() == 0,
        supplemented(declarations, known).keys == known,
    decreases declarations.len(),
{
    if declarations.len() > 0 {
        let fewer = declarations.drop_last();
        assert forall|i: int| 0 <= i < fewer.len() implies settled(#[trigger] fewer[i], known) by {
            assert(fewer[i] == declarations[i]);
        }
        lemma_settled_adds_nothing(fewer, known);
        let d = declarations.last();
        assert(settled(declarations[declarations.len() - 1], known));
        if spdx_of_symbol(d.symbol) is Some && declared::key_of_spdx(
            spdx_of_symbol(d.symbol)->0,
        ) is Some {
            let spdx_id = spdx_of_symbol(d.symbol)->0;
            let key = declared::key_of_spdx(spdx_id)->0;
            lemma_declared_key(spdx_id);
            lemma_single_key(key);
            assert(declared_keys(key, spdx_id).contains(text::lower(key)));
        }
    }
}

/// Once the declarations of a Nix expression have been supplemented, nothing is
/// missing: a second supplement is empty.
pub proof fn law_supplement_is_complete(
    path: paths::PathView,
    content: Seq<char>,
    existing: Seq<models::DetectionView>,
)
    ensures
        nix_supplement(path, content, existing + nix_supplement(path, content, existing)).len()
            == 0,
{
    let added = nix_supplement(path, content, existing);
    if paths::nix_file(path) && text::has_text(content, "license ="@) {
        let declarations = nix_declarations(content);
        let known = detected_keys(existing);
        lemma_supplement_keys(declarations, known);
        lemma_detected_keys_concat(existing, added);
        lemma_all_settled(declarations, known);
        lemma_settled_adds_nothing(declarations, detected_keys(existing + added));
    }
}

/// Detections that name every declared license are not supplemented.
pub proof fn law_known_licenses_add_nothing(
    path: paths::PathView,
    content: Seq<char>,
    existing: Seq<models::DetectionView>,
)
    requires
        forall|i: int|
            0 <= i < nix_declarations(content).len() ==> settled(
                #[trigger] nix_declarations(content)[i],
                detected_keys(existing),
            ),
    ensures
        nix_supplement(path, content, existing).len() == 0,
{
    lemma_settled_adds_nothing(nix_declarations(content), detected_keys(existing));
}

/// A symbol is the longest beginning of a text that has nothing but letters,
/// digits, underlines, plus signs and dashes.
pub proof fn law_symbol_is_the_longest(s: Seq<char>)
    ensures
        symbol_of(s).len() <= s.len(),
        symbol_of(s) == s.take(symbol_of(s).len() as int),
        forall|i: int|
            0 <= i < symbol_of(s).len() ==> text::is_ascii_alnum(#[trigger] s[i]) || s[i] == '_'
                || s[i] == '+' || s[i] == '-',
        symbol_of(s).len() < s.len() ==> {
            let next = s[symbol_of(s).len() as int];
            !text::is_ascii_alnum(next) && next != '_' && next != '+' && next != '-'
        },
    decreases s.len(),
{
    if s.len() > 0 && is_symbol_char(s[0]) {
        let rest = s.skip(1);
        law_symbol_is_the_longest(rest);
        let n = symbol_of(s).len() as int;
        assert(symbol_of(s) == s.take(n));
        assert forall|i: int| 0 <= i < n implies text::is_ascii_alnum(#[trigger] s[i]) || s[i]
            == '_' || s[i] == '+' || s[i] == '-' by {
            if i > 0 {
                assert(rest[i - 1] == s[i]);
            }
        }
        if n < s.len() {
            assert(rest[n - 1] == s[n]);
        }
    } else {
        assert(s.take(0) == Seq::<char>::empty());
    }
}

/// What stands before a comment is what stands before the first number sign.
pub proof fn law_comment_begins_at_the_first_sign(line: Seq<char>)
    ensures
        before_comment(line).len() <= line.len(),
        before_comment(line) == line.take(before_comment(line).len() as int),
        forall|i: int| 0 <= i < before_comment(line).len() ==> #[trigger] line[i] != '#',
        before_comment(line).len() < line.len() ==> line[before_comment(line).len() as int] == '#',
    decreases line.len(),
{
    if line.len() > 0 && line[0] != '#' {
        let rest = line.skip(1);
        law_comment_begins_at_the_first_sign(rest);
        let n = before_comment(line).len() as int;
        assert(before_comment(line) == line.take(n));
        assert forall|i: int| 0 <= i < n implies #[trigger] line[i] != '#' by {
            if i > 0 {
                assert(rest[i - 1] == line[i]);
            }
        }
        if n < line.len() {
            assert(rest[n - 1] == line[n]);
        }
    } else {
        assert(line.take(0) == Seq::<char>::empty());
    }
}

/// A symbol with what cannot belong to it behind it is read as it is.
proof fn lemma_symbol_read(symbol: Seq<char>, tail: Seq<char>)
    requires
        forall|i: int| 0 <= i < symbol.len() ==> is_symbol_char(#[trigger] symbol[i]),
        tail.len() == 0 || !is_symbol_char(tail[0]),
    ensures
        symbol_of(symbol + tail) == symbol,
{
    let s = symbol + tail;
    law_symbol_is_the_longest(s);
    let n = symbol_of(s).len() as int;
    if n < symbol.len() {
        assert(s[n] == symbol[n]);
        assert(is_symbol_char(symbol[n]));
    } else if n > symbol.len() {
        assert(s[symbol.len() as int] == tail[0]);
    }
    assert(s.take(symbol.len() as int) == symbol);
}

/// The declaration of a symbol on a line.
pub open spec fn declares(d: NixDeclarationView, symbol: Seq<char>, number: nat) -> bool {
    d.symbol == symbol && d.start_line == LineNumber::at(number) && d.end_line == LineNumber::at(
        number,
    )
}

/// A license that a line outside a list assigns is declared on that line, and
/// nothing else is. The text that it is read from is the symbol, or the symbol with
/// its qualifier.
pub proof fn law_assigned_license_is_declared(
    lines: Seq<Seq<char>>,
    line: Seq<char>,
    symbol: Seq<char>,
    tail: Seq<char>,
)
    requires
        !after_lines(lines).in_list,
        symbol.len() > 0,
        forall|i: int| 0 <= i < symbol.len() ==> is_symbol_char(#[trigger] symbol[i]),
        tail.len() == 0 || !is_symbol_char(tail[0]),
        text::trim_of(before_comment(line)) == "license = lib.licenses."@ + symbol + tail
            || text::trim_of(before_comment(line)) == "license = licenses."@ + symbol + tail,
    ensures
        ({
            let before = after_lines(lines);
            let after = after_lines(lines.push(line));
            &&& !after.in_list
            &&& after.declarations.drop_last() == before.declarations
            &&& after.declarations.len() == before.declarations.len() + 1
            &&& declares(after.declarations.last(), symbol, lines.len() + 1)
            &&& after.declarations.last().matched_text == (if text::begins_with(
                text::trim_of(before_comment(line)),
                "license = lib"@,
            ) {
                symbol
            } else {
                "licenses."@ + symbol
            })
        }),
{
    reveal_strlit("license = lib.licenses.");
    reveal_strlit("license = licenses.");
    reveal_strlit("license = with lib.licenses; [");
    reveal_strlit("license = lib");
    let more = lines.push(line);
    assert(more.drop_last() == lines);
    assert(more.last() == line);
    let code = text::trim_of(before_comment(line));
    let own = "license = lib.licenses."@;
    let bare = "license = licenses."@;
    let list = "license = with lib.licenses; ["@;
    lemma_symbol_read(symbol, tail);
    if code == own + symbol + tail {
        assert(code.take(own.len() as int) == own);
        assert(code.skip(own.len() as int) == symbol + tail);
        assert("license = lib"@ =~= own.take(13));
        assert(code.take(13) == own.take(13));
        assert(text::begins_with(code, "license = lib"@));
    } else {
        assert(code[11] == bare[11] && bare[11] == 'i');
        assert(code[12] == bare[12] && bare[12] == 'c');
        assert(!text::begins_with(code, own)) by {
            if text::begins_with(code, own) {
                assert(code.take(own.len() as int)[12] == own[12]);
            }
        }
        assert(!text::begins_with(code, list)) by {
            if text::begins_with(code, list) {
                assert(code.take(list.len() as int)[10] == list[10]);
                assert(code[10] == bare[10]);
            }
        }
        assert(!text::begins_with(code, "license = lib"@)) by {
            if text::begins_with(code, "license = lib"@) {
                assert(code.take(13)[12] == "license = lib"@[12]);
            }
        }
        assert(code.take(bare.len() as int) == bare);
        assert(code.skip(bare.len() as int) == symbol + tail);
    }
}

/// The lines of a list of licenses declare a symbol for each word that begins with
/// one, on their lines and in order; the list ends with the line that closes it.
pub proof fn law_listed_licenses_are_declared(lines: Seq<Seq<char>>, line: Seq<char>)
    requires
        after_lines(lines).in_list,
    ensures
        ({
            let before = after_lines(lines);
            let after = after_lines(lines.push(line));
            let code = text::trim_of(before_comment(line));
            let n = before.declarations.len() as int;
            &&& after.in_list == !text::has_text(code, "];"@)
            &&& after.declarations.take(n) == before.declarations
            &&& after.declarations.len() == n + symbols_of(code).len()
            &&& forall|i: int|
                0 <= i < symbols_of(code).len() ==> declares(
                    #[trigger] after.declarations[n + i],
                    symbols_of(code)[i],
                    lines.len() + 1,
                ) && after.declarations[n + i].matched_text == symbols_of(code)[i]
        }),
{
    let more = lines.push(line);
    assert(more.drop_last() == lines);
    assert(more.last() == line);
    let before = after_lines(lines);
    assert(after_lines(more).declarations.take(before.declarations.len() as int)
        == before.declarations);
}

/// A line that opens a list declares the symbols behind the bracket, and the list
/// goes on unless the line closes it.
pub proof fn law_opened_list_is_read(lines: Seq<Seq<char>>, line: Seq<char>, rest: Seq<char>)
    requires
        !after_lines(lines).in_list,
        text::trim_of(before_comment(line)) == "license = with lib.licenses; ["@ + rest,
    ensures
        ({
            let before = after_lines(lines);
            let after = after_lines(lines.push(line));
            let n = before.declarations.len() as int;
            &&& after.in_list == !text::has_text(text::trim_of(before_comment(line)), "];"@)
            &&& after.declarations.take(n) == before.declarations
            &&& after.declarations.len() == n + symbols_of(rest).len()
            &&& forall|i: int|
                0 <= i < symbols_of(rest).len() ==> declares(
                    #[trigger] after.declarations[n + i],
                    symbols_of(rest)[i],
                    lines.len() + 1,
                ) && after.declarations[n + i].matched_text == symbols_of(rest)[i]
        }),
{
    reveal_strlit("license = lib.licenses.");
    reveal_strlit("license = with lib.licenses; [");
    let more = lines.push(line);
    assert(more.drop_last() == lines);
    assert(more.last() == line);
    let code = text::trim_of(before_comment(line));
    let own = "license = lib.licenses."@;
    let list = "license = with lib.licenses; ["@;
    assert(code.take(list.len() as int) == list);
    assert(code.skip(list.len() as int) == rest);
    assert(!text::begins_with(code, own)) by {
        if text::begins_with(code, own) {
            assert(code.take(own.len() as int)[10] == own[10]);
            assert(code[10] == list[10]);
        }
    }
    let before = after_lines(lines);
    assert(after_lines(more).declarations.take(before.declarations.len() as int)
        == before.declarations);
}

/// A line outside a list that assigns no license changes nothing.
pub proof fn law_other_lines_declare_nothing(lines: Seq<Seq<char>>, line: Seq<char>)
    requires
        !after_lines(lines).in_list,
        !text::begins_with(text::trim_of(before_comment(line)), "license ="@),
    ensures
        after_lines(lines.push(line)) == after_lines(lines),
{
    reveal_strlit("license =");
    reveal_strlit("license = lib.licenses.");
    reveal_strlit("license = licenses.");
    reveal_strlit("license = with lib.licenses; [");
    let more = lines.push(line);
    assert(more.drop_last() == lines);
    assert(more.last() == line);
    let code = text::trim_of(before_comment(line));
    let start = "license ="@;
    assert forall|prefix: Seq<char>|
        prefix.len() >= 9 && prefix.take(9) == start && text::begins_with(
            code,
            prefix,
        ) implies false by {
        assert(code.take(9) == code.take(prefix.len() as int).take(9));
    }
    assert("license = lib.licenses."@.take(9) =~= start);
    assert("license = licenses."@.take(9) =~= start);
    assert("license = with lib.licenses; ["@.take(9) =~= start);
    assert(!text::begins_with(code, "license = lib.licenses."@));
    assert(!text::begins_with(code, "license = licenses."@));
    assert(!text::begins_with(code, "license = with lib.licenses; ["@));
}

/// The symbols of a text are those that its words begin with: for one word, its
/// symbol, and none where it begins with something else.
pub proof fn law_symbols_of_words(a: Seq<char>, space: char, word: Seq<char>)
    requires
        text::is_white_space(space),
        word.len() > 0,
        forall|i: int| 0 <= i < word.len() ==> !text::is_white_space(#[trigger] word[i]),
    ensures
        symbols_of(a.push(space) + word) == (if symbol_of(word).len() > 0 {
            symbols_of(a).push(symbol_of(word))
        } else {
            symbols_of(a)
        }),
{
    let shown = |symbol: Seq<char>| symbol.len() > 0;
    let read = |w: Seq<char>| symbol_of(w);
    text::law_white_space_parts_words(a, space, word);
    text::law_word_alone(word);
    let before = text::words_of(a).map_values(read);
    let after = text::words_of(a.push(space) + word).map_values(read);
    assert(after =~= before.push(symbol_of(word)));
    reveal(Seq::filter);
    assert(after.drop_last() == before);
    assert(after.last() == symbol_of(word));
}

/// Every license that a Nix expression declares by a known symbol is detected
/// behind the supplement, on the lines of its declaration where it was not known
/// before.
pub proof fn law_every_declared_license_is_detected(
    path: paths::PathView,
    content: Seq<char>,
    existing: Seq<models::DetectionView>,
    i: int,
)
    requires
        path.extension == Some("nix"@),
        text::has_text(content, "license ="@),
        0 <= i < nix_declarations(content).len(),
        spdx_of_symbol(nix_declarations(content)[i].symbol) is Some,
        declared::key_of_spdx(spdx_of_symbol(nix_declarations(content)[i].symbol)->0) is Some,
    ensures
        ({
            let all = existing + nix_supplement(path, content, existing);
            let key = declared::key_of_spdx(
                spdx_of_symbol(nix_declarations(content)[i].symbol)->0,
            )->0;
            exists|k: int|
                0 <= k < all.len() && (expression::expression_keys(
                    (#[trigger] all[k]).license_expression,
                ).contains(text::lower(key)) || expression::expression_keys(
                    all[k].license_expression_spdx,
                ).contains(text::lower(key)))
        }),
{
    let added = nix_supplement(path, content, existing);
    let all = existing + added;
    let declarations = nix_declarations(content);
    let known = detected_keys(existing);
    let spdx_id = spdx_of_symbol(declarations[i].symbol)->0;
    let key = declared::key_of_spdx(spdx_id)->0;
    lemma_supplement_keys(declarations, known);
    lemma_detected_keys_concat(existing, added);
    lemma_all_settled(declarations, known);
    assert(settled(declarations[i], supplemented(declarations, known).keys));
    lemma_declared_key(spdx_id);
    lemma_single_key(key);
    assert(declared_keys(key, spdx_id).contains(text::lower(key)));
    assert(detected_keys(all).contains(text::lower(key)));
    lemma_detected_key_is_named(all, text::lower(key));
}

/// A key is among those of several detections if and only if one of them names it.
proof fn lemma_detected_key_is_named(ds: Seq<models::DetectionView>, key: Seq<char>)
    ensures
        detected_keys(ds).contains(key) == exists|k: int|
            0 <= k < ds.len() && (expression::expression_keys(
                (#[trigger] ds[k]).license_expression,
            ).contains(key) || expression::expression_keys(ds[k].license_expression_spdx).contains(
                key,
            )),
    decreases ds.len(),
{
    if ds.len() > 0 {
        let fewer = ds.drop_last();
        lemma_detected_key_is_named(fewer, key);
        assert(ds[ds.len() - 1] == ds.last());
        if detected_keys(fewer).contains(key) {
            let k = choose|k: int|
                0 <= k < fewer.len() && (expression::expression_keys(
                    (#[trigger] fewer[k]).license_expression,
                ).contains(key) || expression::expression_keys(
                    fewer[k].license_expression_spdx,
                ).contains(key));
            assert(ds[k] == fewer[k]);
        }
        if exists|k: int|
            0 <= k < ds.len() && (expression::expression_keys(
                (#[trigger] ds[k]).license_expression,
            ).contains(key) || expression::expression_keys(ds[k].license_expression_spdx).contains(
                key,
            )) {
            let k = choose|k: int|
                0 <= k < ds.len() && (expression::expression_keys(
                    (#[trigger] ds[k]).license_expression,
                ).contains(key) || expression::expression_keys(
                    ds[k].license_expression_spdx,
                ).contains(key));
            if k < fewer.len() {
                assert(fewer[k] == ds[k]);
            }
        }
    }
}

/// A detection stands for a declaration: it names the license of its symbol, on its
/// lines and with its text, and covers it in full.
pub open spec fn stands_for(d: models::DetectionView, declaration: NixDeclarationView) -> bool {
    &&& spdx_of_symbol(declaration.symbol) is Some
    &&& d.license_expression_spdx == spdx_of_symbol(declaration.symbol)->0
    &&& declared::key_of_spdx(d.license_expression_spdx) == Some(d.license_expression)
    &&& d.matches.len() == 1
    &&& d.matches[0].license_expression == d.license_expression
    &&& d.matches[0].license_expression_spdx == d.license_expression_spdx
    &&& d.matches[0].start_line == declaration.start_line
    &&& d.matches[0].end_line == declaration.end_line
    &&& d.matches[0].matched_text == Some(declaration.matched_text)
    &&& d.matches[0].matched_length == Some(
        text::words_of(declaration.matched_text).len() as usize,
    )
    &&& d.matches[0].match_coverage == Some(10_000u64)
    &&& d.matches[0].score.hundredths == 10_000
    &&& d.matches[0].matcher == models::MatcherKind::ParserDeclared
}

proof fn lemma_supplement_stands_for(
    declarations: Seq<NixDeclarationView>,
    known: Set<Seq<char>>,
    k: int,
)
    requires
        0 <= k < supplemented(declarations, known).detections.len(),
    ensures
        exists|i: int|
            0 <= i < declarations.len() && stands_for(
                supplemented(declarations, known).detections[k],
                #[trigger] declarations[i],
            ),
    decreases declarations.len(),
{
    if declarations.len() > 0 {
        let fewer = declarations.drop_last();
        let before = supplemented(fewer, known);
        let after = supplemented(declarations, known);
        if k < before.detections.len() {
            lemma_supplement_stands_for(fewer, known, k);
            assert(after.detections[k] == before.detections[k]);
            let i = choose|i: int|
                0 <= i < fewer.len() && stands_for(before.detections[k], #[trigger] fewer[i]);
            assert(stands_for(after.detections[k], declarations[i]));
        } else {
            assert(stands_for(after.detections[k], declarations[declarations.len() - 1]));
        }
    }
}

/// Only Nix files that assign a license are supplemented, and each added detection
/// stands for one of their declarations.
pub proof fn law_supplement_stands_for_declarations(
    path: paths::PathView,
    content: Seq<char>,
    existing: Seq<models::DetectionView>,
    k: int,
)
    requires
        0 <= k < nix_supplement(path, content, existing).len(),
    ensures
        path.extension == Some("nix"@),
        text::has_text(content, "license ="@),
        exists|i: int|
            0 <= i < nix_declarations(content).len() && stands_for(
                nix_supplement(path, content, existing)[k],
                #[trigger] nix_declarations(content)[i],
            ),
{
    lemma_supplement_stands_for(nix_declarations(content), detected_keys(existing), k);
}

/// The symbols by which Nix expressions name licenses, with what they stand for.
/// No other symbol is known.
pub proof fn law_license_symbols(symbol: Seq<char>)
    ensures
        symbol == "asl20"@ ==> spdx_of_symbol(symbol) == Some("Apache-2.0"@),
        symbol == "bsd2"@ ==> spdx_of_symbol(symbol) == Some("BSD-2-Clause"@),
        symbol == "bsd3"@ ==> spdx_of_symbol(symbol) == Some("BSD-3-Clause"@),
        symbol == "gpl1Only"@ ==> spdx_of_symbol(symbol) == Some("GPL-1.0-only"@),
        symbol == "gpl1Plus"@ ==> spdx_of_symbol(symbol) == Some("GPL-1.0-or-later"@),
        symbol == "gpl2"@ ==> spdx_of_symbol(symbol) == Some("GPL-2.0-only"@),
        symbol == "gpl2Only"@ ==> spdx_of_symbol(symbol) == Some("GPL-2.0-only"@),
        symbol == "gpl2Plus"@ ==> spdx_of_symbol(symbol) == Some("GPL-2.0-or-later"@),
        symbol == "gpl3"@ ==> spdx_of_symbol(symbol) == Some("GPL-3.0-only"@),
        symbol == "gpl3Only"@ ==> spdx_of_symbol(symbol) == Some("GPL-3.0-only"@),
        symbol == "gpl3Plus"@ ==> spdx_of_symbol(symbol) == Some("GPL-3.0-or-later"@),
        symbol == "lgpl21"@ ==> spdx_of_symbol(symbol) == Some("LGPL-2.1-only"@),
        symbol == "lgpl21Plus"@ ==> spdx_of_symbol(symbol) == Some("LGPL-2.1-or-later"@),
        symbol == "lgpl3"@ ==> spdx_of_symbol(symbol) == Some("LGPL-3.0-only"@),
        symbol == "lgpl3Plus"@ ==> spdx_of_symbol(symbol) == Some("LGPL-3.0-or-later"@),
        symbol == "mit"@ ==> spdx_of_symbol(symbol) == Some("MIT"@),
        symbol == "mpl11"@ ==> spdx_of_symbol(symbol) == Some("MPL-1.1"@),
        symbol == "mpl20"@ ==> spdx_of_symbol(symbol) == Some("MPL-2.0"@),
        spdx_of_symbol(symbol) is Some ==> symbol == "asl20"@
            || symbol == "bsd2"@
            || symbol == "bsd3"@
            || symbol == "gpl1Only"@
            || symbol == "gpl1Plus"@
            || symbol == "gpl2"@
            || symbol == "gpl2Only"@
            || symbol == "gpl2Plus"@
            || symbol == "gpl3"@
            || symbol == "gpl3Only"@
            || symbol == "gpl3Plus"@
            || symbol == "lgpl21"@
            || symbol == "lgpl21Plus"@
            || symbol == "lgpl3"@
            || symbol == "lgpl3Plus"@
            || symbol == "mit"@
            || symbol == "mpl11"@
            || symbol == "mpl20"@,
{
    reveal_strlit("asl20");
    reveal_strlit("bsd2");
    reveal_strlit("bsd3");
    reveal_strlit("gpl1Only");
    reveal_strlit("gpl1Plus");
    reveal_strlit("gpl2");
    reveal_strlit("gpl2Only");
    reveal_strlit("gpl2Plus");
    reveal_strlit("gpl3");
    reveal_strlit("gpl3Only");
    reveal_strlit("gpl3Plus");
    reveal_strlit("lgpl21");
    reveal_strlit("lgpl21Plus");
    reveal_strlit("lgpl3");
    reveal_strlit("lgpl3Plus");
    reveal_strlit("mit");
    reveal_strlit("mpl11");
    reveal_strlit("mpl20");
    assert("asl20"@.len() == 5 && "asl20"@[0] == 'a' && "asl20"@[3] == '2' && "asl20"@[4] == '0');
    assert("bsd2"@.len() == 4 && "bsd2"@[0] == 'b' && "bsd2"@[3] == '2');
    assert("bsd3"@.len() == 4 && "bsd3"@[0] == 'b' && "bsd3"@[3] == '3');
    assert("gpl1Only"@.len() == 8 && "gpl1Only"@[0] == 'g' && "gpl1Only"@[3] == '1' && "gpl1Only"@[4] == 'O');
    assert("gpl1Plus"@.len() == 8 && "gpl1Plus"@[0] == 'g' && "gpl1Plus"@[3] == '1' && "gpl1Plus"@[4] == 'P');
    assert("gpl2"@.len() == 4 && "gpl2"@[0] == 'g' && "gpl2"@[3] == '2');
    assert("gpl2Only"@.len() == 8 && "gpl2Only"@[0] == 'g' && "gpl2Only"@[3] == '2' && "gpl2Only"@[4] == 'O');
    assert("gpl2Plus"@.len() == 8 && "gpl2Plus"@[0] == 'g' && "gpl2Plus"@[3] == '2' && "gpl2Plus"@[4] == 'P');
    assert("gpl3"@.len() == 4 && "gpl3"@[0] == 'g' && "gpl3"@[3] == '3');
    assert("gpl3Only"@.len() == 8 && "gpl3Only"@[0] == 'g' && "gpl3Only"@[3] == '3' && "gpl3Only"@[4] == 'O');
    assert("gpl3Plus"@.len() == 8 && "gpl3Plus"@[0] == 'g' && "gpl3Plus"@[3] == '3' && "gpl3Plus"@[4] == 'P');
    assert("lgpl21"@.len() == 6 && "lgpl21"@[0] == 'l' && "lgpl21"@[3] == 'l' && "lgpl21"@[4] == '2');
    assert("lgpl21Plus"@.len() == 10 && "lgpl21Plus"@[0] == 'l' && "lgpl21Plus"@[3] == 'l' && "lgpl21Plus"@[4] == '2');
    assert("lgpl3"@.len() == 5 && "lgpl3"@[0] == 'l' && "lgpl3"@[3] == 'l' && "lgpl3"@[4] == '3');
    assert("lgpl3Plus"@.len() == 9 && "lgpl3Plus"@[0] == 'l' && "lgpl3Plus"@[3] == 'l' && "lgpl3Plus"@[4] == '3');
    assert("mit"@.len() == 3 && "mit"@[0] == 'm');
    assert("mpl11"@.len() == 5 && "mpl11"@[0] == 'm' && "mpl11"@[3] == '1' && "mpl11"@[4] == '1');
    assert("mpl20"@.len() == 5 && "mpl20"@[0] == 'm' && "mpl20"@[3] == '2' && "mpl20"@[4] == '0');
}

} // verus!
