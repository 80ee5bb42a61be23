//! What the license rules read of the path of a scanned file.
use vstd::prelude::*;

use crate::text;

verus! {

/// The parts of a file's path. A part is absent where the path has none or
/// where it is no Unicode text.
#[derive(Debug)]
pub struct ScanPath {
    pub file_name: Option<String>,
    /// The file name without its extension.
    pub file_stem: Option<String>,
    pub extension: Option<String>,
    /// The whole path with `/` between its parts.
    pub posix: String,
}

/// What a [`ScanPath`] holds.
#[verifier::ext_equal]
pub struct PathView {
    pub file_name: Option<Seq<char>>,
    pub file_stem: Option<Seq<char>>,
    pub extension: Option<Seq<char>>,
    pub posix: Seq<char>,
}

impl View for ScanPath {
    type V = PathView;

    open spec fn view(&self) -> PathView {
        PathView {
            file_name: text::opt_text(self.file_name),
            file_stem: text::opt_text(self.file_stem),
            extension: text::opt_text(self.extension),
            posix: self.posix@,
        }
    }
}

/// Where the last full stop of a text stands; -1 where there is none.
pub open spec fn last_stop(s: Seq<char>) -> int
    decreases s.len(),
{
    if s.len() == 0 {
        -1
    } else if s.last() == '.' {
        s.len() - 1
    } else {
        last_stop(s.drop_last())
    }
}

/// The stem of a file name: what stands before its last full stop. A full stop
/// that the name begins with does not count.
pub open spec fn stem_of(name: Seq<char>) -> Seq<char> {
    if last_stop(name) > 0 {
        name.take(last_stop(name))
    } else {
        name
    }
}

/// The extension of a file name: what stands after its last full stop. A full stop
/// that the name begins with does not count.
pub open spec fn extension_of(name: Seq<char>) -> Option<Seq<char>> {
    if last_stop(name) > 0 {
        Some(name.skip(last_stop(name) + 1))
    } else {
        None
    }
}

/// The stem and the extension are those of the file name, where there is one.
pub open spec fn well_named(path: PathView) -> bool {
    path.file_name is Some ==> {
        &&& path.file_stem == Some(stem_of(path.file_name->0))
        &&& path.extension == extension_of(path.file_name->0)
    }
}

impl ScanPath {
    /// The path of a file whose name is Unicode text.
    pub fn named(file_name: String, posix: String) -> (r: ScanPath)
        ensures
            r@ == (PathView {
                file_name: Some(file_name@),
                file_stem: Some(stem_of(file_name@)),
                extension: extension_of(file_name@),
                posix: posix@,
            }),
            well_named(r@),
    {
        let name = text::to_chars(file_name.as_str());
        let mut end: usize = name.len();
        assert(name@.take(end as int) == name@);
        while end > 0 && name[end - 1] != '.'
            invariant
                end <= name@.len(),
                last_stop(name@) == last_stop(name@.take(end as int)),
            decreases end,
        {
            assert(name@.take(end as int).drop_last() == name@.take(end - 1));
            end = end - 1;
        }
        let (file_stem, extension) = if end > 1 {
            (
                text::to_text(vstd::slice::slice_subrange(name.as_slice(), 0, end - 1)),
                Some(text::to_text(vstd::slice::slice_subrange(name.as_slice(), end, name.len()))),
            )
        } else {
            (text::to_text(name.as_slice()), None)
        };
        let r = ScanPath {
            file_name: Some(file_name),
            file_stem: Some(file_stem),
            extension,
            posix,
        };
        assert(r@.file_stem->0 == stem_of(file_name@));
        r
    }

    /// The path of a file without a name, or whose name is no Unicode text. Its
    /// stem and its extension may be text all the same.
    pub fn unnamed(file_stem: Option<String>, extension: Option<String>, posix: String) -> (r:
        ScanPath)
        ensures
            r@ == (PathView {
                file_name: None,
                file_stem: text::opt_text(file_stem),
                extension: text::opt_text(extension),
                posix: posix@,
            }),
            well_named(r@),
    {
        ScanPath { file_name: None, file_stem, extension, posix }
    }
}

/// A lower-case text begins or ends with the word.
pub open spec fn begins_or_ends(s: Seq<char>, word: Seq<char>) -> bool {
    text::begins_with(s, word) || text::finishes_with(s, word)
}

/// A lower-case file name that legal notices have.
pub open spec fn legal_word(s: Seq<char>) -> bool {
    ||| begins_or_ends(s, "notice"@)
    ||| begins_or_ends(s, "copyright"@)
    ||| begins_or_ends(s, "copying"@)
    ||| begins_or_ends(s, "license"@)
    ||| begins_or_ends(s, "licence"@)
}

/// The file name, with or without its extension, begins or ends with a word for
/// legal notices.
pub open spec fn legal_notice_like(path: PathView) -> bool {
    &&& path.file_name is Some
    &&& path.file_stem is Some
    &&& legal_word(text::lower(path.file_name->0)) || legal_word(text::lower(path.file_stem->0))
}

/// The file name without its extension is `readme` in any case.
pub open spec fn readme_like(path: PathView) -> bool {
    path.file_stem is Some && text::lower(path.file_stem->0) == text::lower("readme"@)
}

/// The file is a source map of a script or of a style sheet.
pub open spec fn sourcemap_like(path: PathView) -> bool {
    &&& path.file_name is Some
    &&& text::finishes_with(text::lower(path.file_name->0), ".js.map"@) || text::finishes_with(
        text::lower(path.file_name->0),
        ".css.map"@,
    )
}

/// The file is a Nix expression.
pub open spec fn nix_file(path: PathView) -> bool {
    path.extension == Some("nix"@)
}

fn begins_or_ends_with(s: &[char], word: &str) -> (r: bool)
    ensures
        r == begins_or_ends(s@, word@),
{
    let word_chars = text::to_chars(word);
    text::starts_with(s, &word_chars) || text::ends_with(s, &word_chars)
}

fn is_legal_word(s: &[char]) -> (r: bool)
    ensures
        r == legal_word(s@),
{
    begins_or_ends_with(s, "notice") || begins_or_ends_with(s, "copyright") || begins_or_ends_with(
        s,
        "copying",
    ) || begins_or_ends_with(s, "license") || begins_or_ends_with(s, "licence")
}

/// Whether a file has the name of a legal notice.
pub fn is_legal_notice_like_path(path: &ScanPath) -> (r: bool)
    ensures
        r == legal_notice_like(path@),
{
    match (&path.file_name, &path.file_stem) {
        (Some(name), Some(stem)) => {
            let name_chars = text::to_chars(name.as_str());
            let stem_chars = text::to_chars(stem.as_str());
            is_legal_word(&text::lower_chars(&name_chars)) || is_legal_word(
                &text::lower_chars(&stem_chars),
            )
        },
        _ => false,
    }
}

/// Whether a file has the name of a README.
pub fn is_readme_like_path(path: &ScanPath) -> (r: bool)
    ensures
        r == readme_like(path@),
{
    match &path.file_stem {
        Some(stem) => text::lower_text(stem.as_str()) == text::lower_text("readme"),
        None => false,
    }
}

/// Whether a file is a source map of a script or of a style sheet.
pub fn is_sourcemap(path: &ScanPath) -> (r: bool)
    ensures
        r == sourcemap_like(path@),
{
    match &path.file_name {
        Some(name) => {
            let name_chars = text::to_chars(name.as_str());
            let lowered = text::lower_chars(&name_chars);
            text::ends_with(&lowered, &text::to_chars(".js.map")) || text::ends_with(
                &lowered,
                &text::to_chars(".css.map"),
            )
        },
        None => false,
    }
}

/// Whether a file is a Nix expression.
pub fn is_nix_file(path: &ScanPath) -> (r: bool)
    ensures
        r == nix_file(path@),
{
    match &path.extension {
        Some(extension) => text::same_str(extension.as_str(), "nix"),
        None => false,
    }
}

/// No full stop stands behind the last one, and where one stands there is a last.
proof fn lemma_last_stop(s: Seq<char>)
    ensures
        -1 <= last_stop(s) < s.len(),
        last_stop(s) >= 0 ==> s[last_stop(s)] == '.',
        forall|i: int| last_stop(s) < i < s.len() ==> #[trigger] s[i] != '.',
    decreases s.len(),
{
    if s.len() > 0 && s.last() != '.' {
        lemma_last_stop(s.drop_last());
        assert forall|i: int| last_stop(s) < i < s.len() implies #[trigger] s[i] != '.' by {
            if i < s.len() - 1 {
                assert(s.drop_last()[i] == s[i]);
            }
        }
    }
}

/// A stem and an extension, with a full stop between them, are the file name.
pub proof fn law_parts_make_name(path: PathView)
    requires
        well_named(path),
        path.file_name is Some,
    ensures
        match path.extension {
            Some(extension) => path.file_name->0 == path.file_stem->0 + seq!['.'] + extension
                && path.file_stem->0.len() > 0 && !extension.contains('.'),
            None => path.file_name->0 == path.file_stem->0,
        },
{
    let name = path.file_name->0;
    lemma_last_stop(name);
    if path.extension is Some {
        let extension = path.extension->0;
        assert(name == path.file_stem->0 + seq!['.'] + extension);
        if extension.contains('.') {
            let i = choose|i: int| 0 <= i < extension.len() && extension[i] == '.';
            assert(name[last_stop(name) + 1 + i] == '.');
        }
    }
}

/// The files that are Nix expressions are those whose names end in `.nix` behind
/// something else.
pub proof fn law_nix_files_by_name(path: PathView)
    requires
        well_named(path),
        path.file_name is Some,
    ensures
        nix_file(path) == (text::finishes_with(path.file_name->0, ".nix"@)
            && path.file_name->0.len() > 4),
{
    reveal_strlit("nix");
    reveal_strlit(".nix");
    let name = path.file_name->0;
    lemma_last_stop(name);
    if nix_file(path) {
        assert(name.skip(last_stop(name) + 1).len() == 3);
        assert(name.subrange(name.len() - 4, name.len() as int) == ".nix"@) by {
            assert(seq!['.'] + "nix"@ == ".nix"@);
            assert(name.subrange(name.len() - 4, name.len() as int) == seq!['.'] + name.skip(
                last_stop(name) + 1,
            ));
        }
        assert(name.skip(name.len() - 4) == ".nix"@);
    }
    if text::finishes_with(name, ".nix"@) && name.len() > 4 {
        let at = name.len() - 4;
        let tail = name.skip(at);
        assert(tail == ".nix"@);
        assert(tail[0] == name[at] && tail[1] == name[at + 1] && tail[2] == name[at + 2] && tail[3]
            == name[at + 3]);
        assert(last_stop(name) == at);
        assert(name.skip(at + 1) == "nix"@);
    }
}

/// A text begins or ends with one of the words for legal notices.
pub open spec fn has_legal_word(s: Seq<char>) -> bool {
    exists|word: Seq<char>|
        (word == "notice"@ || word == "copyright"@ || word == "copying"@ || word == "license"@
            || word == "licence"@) && (#[trigger] text::begins_with(s, word) || text::finishes_with(
            s,
            word,
        ))
}

/// A file has the name of a legal notice if and only if its name or its stem, in
/// lower case, begins or ends with one of the words for legal notices.
pub proof fn law_legal_notices_by_name(path: PathView)
    requires
        path.file_name is Some,
        path.file_stem is Some,
    ensures
        legal_notice_like(path) == (has_legal_word(text::lower(path.file_name->0))
            || has_legal_word(text::lower(path.file_stem->0))),
{
    lemma_legal_word(text::lower(path.file_name->0));
    lemma_legal_word(text::lower(path.file_stem->0));
}

proof fn lemma_legal_word(s: Seq<char>)
    ensures
        legal_word(s) == has_legal_word(s),
{
    if legal_word(s) {
        if begins_or_ends(s, "notice"@) {
            assert(text::begins_with(s, "notice"@) || text::finishes_with(s, "notice"@));
        } else if begins_or_ends(s, "copyright"@) {
            assert(text::begins_with(s, "copyright"@) || text::finishes_with(s, "copyright"@));
        } else if begins_or_ends(s, "copying"@) {
            assert(text::begins_with(s, "copying"@) || text::finishes_with(s, "copying"@));
        } else if begins_or_ends(s, "license"@) {
            assert(text::begins_with(s, "license"@) || text::finishes_with(s, "license"@));
        } else {
            assert(text::begins_with(s, "licence"@) || text::finishes_with(s, "licence"@));
        }
    }
}

/// The case of letters in the name of a file does not matter for what kind of file
/// it is, but for Nix expressions.
pub proof fn law_case_of_names_does_not_matter(a: PathView, b: PathView)
    requires
        a.file_name is Some == b.file_name is Some,
        a.file_stem is Some == b.file_stem is Some,
        a.file_name is Some ==> text::lower(a.file_name->0) == text::lower(b.file_name->0),
        a.file_stem is Some ==> text::lower(a.file_stem->0) == text::lower(b.file_stem->0),
    ensures
        legal_notice_like(a) == legal_notice_like(b),
        readme_like(a) == readme_like(b),
        sourcemap_like(a) == sourcemap_like(b),
{
}

/// A file is a README if and only if its stem is that word, in any case of letters,
/// and a source map if and only if its name ends as those of source maps do.
pub proof fn law_readmes_and_source_maps_by_name(path: PathView)
    ensures
        readme_like(path) == (path.file_stem is Some && text::lower(path.file_stem->0)
            == "readme"@),
        sourcemap_like(path) == (path.file_name is Some && (text::finishes_with(
            text::lower(path.file_name->0),
            ".js.map"@,
        ) || text::finishes_with(text::lower(path.file_name->0), ".css.map"@))),
{
    reveal_strlit("readme");
    assert(text::lower("readme"@) =~= "readme"@);
}

} // verus!
