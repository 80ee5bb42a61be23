//! Scans of native paths in one process: their options, the request that the
//! options make, and what is wrong with it.
use serde_json::Value;

use vstd::prelude::*;

use crate::headers;
use crate::json;
use crate::models;
use crate::text;

verus! {

/// The template of the license addresses in the output, where no other is given.
pub const DEFAULT_LICENSEDB_URL_TEMPLATE: &'static str =
    "https://scancode-licensedb.aboutcode.org/{}";

/// Why a scan did not run.
#[derive(Debug)]
pub enum WorkflowError {
    /// The options contradict each other.
    InvalidOptions(String),
    /// The scan itself failed.
    Pipeline(String),
}

impl WorkflowError {
    /// What the error says.
    pub open spec fn said(self) -> Seq<char> {
        match self {
            WorkflowError::InvalidOptions(message) => message@,
            WorkflowError::Pipeline(message) => message@,
        }
    }

    /// What the error says.
    pub fn message(&self) -> (r: String)
        ensures
            r@ == self.said(),
    {
        match self {
            WorkflowError::InvalidOptions(message) => message.clone(),
            WorkflowError::Pipeline(message) => message.clone(),
        }
    }
}

/// Where the license rules of a scan come from.
#[derive(Debug)]
pub enum LicenseSource {
    /// Licenses are not detected.
    Disabled,
    /// The license dataset that comes with the program.
    Embedded,
    /// A dataset in a directory.
    Directory(String),
}

/// How much a scan shows of its progress.
#[derive(Clone, Copy, Debug, PartialEq, Eq, Structural)]
pub enum ProgressMode {
    Quiet,
    Default,
    Verbose,
}

/// How many files are scanned at a time.
#[derive(Clone, Copy, Debug, PartialEq, Eq, Structural)]
pub enum ProcessMode {
    /// As many as the machine has room for.
    Automatic,
    Workers(usize),
}

/// How many results are held in memory.
#[derive(Clone, Copy, Debug, PartialEq, Eq, Structural)]
pub enum MemoryMode {
    Unlimited,
    Limit(usize),
}

/// Where the input paths of a request point to.
#[derive(Clone, Copy, Debug, PartialEq, Eq, Structural)]
pub enum InputMode {
    /// To files and directories.
    Native,
    /// To the results of earlier scans.
    Json,
}

/// A number of seconds: the bits of a double precision number.
#[derive(Clone, Copy, Debug, PartialEq, Eq, Structural)]
pub struct Seconds {
    pub bits: u64,
}

/// The bits of 120 as a double precision number.
pub const TWO_MINUTES: u64 = 0x405E_0000_0000_0000;

/// The options of a scan.
#[derive(Debug)]
pub struct ScanOptions {
    pub progress_mode: ProgressMode,
    pub process_mode: ProcessMode,
    pub timeout_seconds: Seconds,
    pub max_depth: usize,
    pub max_in_memory: MemoryMode,
    pub collect_info: bool,
    pub detect_license: LicenseSource,
    pub detect_packages: bool,
    pub detect_system_packages: bool,
    pub detect_packages_in_compiled: bool,
    pub package_only: bool,
    pub no_assemble: bool,
    pub detect_copyrights: bool,
    pub detect_emails: bool,
    pub detect_urls: bool,
    pub detect_generated: bool,
    pub max_emails: usize,
    pub max_urls: usize,
    pub include_patterns: Vec<String>,
    pub exclude: Vec<String>,
    pub include_input_header: bool,
    pub cache_dir: Option<String>,
    pub cache_clear: bool,
    pub incremental: bool,
    /// A cached entry is reused where size and time of the file agree, without
    /// a look into the file.
    pub cache_trust_mtime: bool,
    pub reindex: bool,
    pub no_license_index_cache: bool,
    pub license_text: bool,
    pub license_text_diagnostics: bool,
    pub license_diagnostics: bool,
    pub unknown_licenses: bool,
    pub no_sequence_matching: bool,
    pub license_score: u8,
    pub filter_clues: bool,
    pub ignore_author_patterns: Vec<String>,
    pub ignore_copyright_holder_patterns: Vec<String>,
    pub only_findings: bool,
    pub mark_source: bool,
    pub classify: bool,
    pub summary: bool,
    pub license_clarity_score: bool,
    pub license_references: bool,
    pub license_url_template: String,
    pub license_policy: Option<String>,
    pub tallies: bool,
    pub tallies_key_files: bool,
    pub tallies_with_details: bool,
    pub facets: Vec<String>,
    pub tallies_by_facet: bool,
    pub strip_root: bool,
    pub full_root: bool,
    pub header_options: serde_json::Map<String, Value>,
    /// The most files that are collected. Scans for callers that are not
    /// trusted set this and the next two bounds.
    pub max_files: Option<usize>,
    /// The most bytes of files that are collected.
    pub max_total_bytes: Option<u64>,
    /// The longest time that the collection of files may take.
    pub scan_deadline_seconds: Option<Seconds>,
    /// Links to files outside the scanned tree are left out.
    pub restrict_out_of_tree_symlinks: bool,
}

/// Bounds on the collection of files.
#[derive(Clone, Copy, Debug, PartialEq, Eq, Structural)]
pub struct ScanBounds {
    pub max_files: Option<usize>,
    pub max_total_bytes: Option<u64>,
    pub deadline_seconds: Option<Seconds>,
    pub restrict_out_of_tree_symlinks: bool,
}

/// A file that the output of a scan goes to.
#[derive(Debug)]
pub struct OutputTarget {
    pub format: String,
    pub file: String,
}

/// What the scan pipeline is asked for.
#[derive(Debug)]
pub struct ScanRequest {
    pub input_paths: Vec<String>,
    pub input_mode: InputMode,
    pub output_targets: Vec<OutputTarget>,
    pub output_header_options: serde_json::Map<String, Value>,
    pub progress_mode: ProgressMode,
    pub process_mode: ProcessMode,
    pub timeout_seconds: Seconds,
    pub quiet: bool,
    pub verbose: bool,
    pub strip_root: bool,
    pub full_root: bool,
    pub include_patterns: Vec<String>,
    pub exclude: Vec<String>,
    pub paths_files: Vec<String>,
    pub respect_process_cache_env: bool,
    pub cache_dir: Option<String>,
    pub cache_clear: bool,
    pub incremental: bool,
    pub cache_trust_mtime: bool,
    pub max_depth: usize,
    pub max_in_memory: MemoryMode,
    pub info: bool,
    pub package: bool,
    pub system_package: bool,
    pub package_in_compiled: bool,
    pub package_only: bool,
    pub no_assemble: bool,
    pub license_dataset_path: Option<String>,
    pub reindex: bool,
    pub no_license_index_cache: bool,
    pub license_text: bool,
    pub license_text_diagnostics: bool,
    pub license_diagnostics: bool,
    pub unknown_licenses: bool,
    pub no_sequence_matching: bool,
    pub license_score: u8,
    pub license_url_template: String,
    pub filter_clues: bool,
    pub ignore_author: Vec<String>,
    pub ignore_copyright_holder: Vec<String>,
    pub only_findings: bool,
    pub mark_source: bool,
    pub classify: bool,
    pub summary: bool,
    pub license_clarity_score: bool,
    pub license_references: bool,
    pub license_policy: Option<String>,
    pub fail_on: Option<String>,
    pub tallies: bool,
    pub tallies_key_files: bool,
    pub tallies_with_details: bool,
    pub facet: Vec<String>,
    pub tallies_by_facet: bool,
    pub generated: bool,
    pub license: bool,
    pub copyright: bool,
    pub email: bool,
    pub max_email: usize,
    pub url: bool,
    pub max_url: usize,
    pub scan_bounds: ScanBounds,
}

/// The options that a caller starts from: nothing is detected, nothing is shown
/// of the progress, no header names the input, and no cache is used.
pub open spec fn is_default(o: ScanOptions) -> bool {
    &&& o.progress_mode == ProgressMode::Quiet
    &&& o.process_mode == ProcessMode::Automatic
    &&& o.timeout_seconds == (Seconds { bits: TWO_MINUTES })
    &&& o.max_depth == 0
    &&& o.max_in_memory == MemoryMode::Limit(10_000)
    &&& !o.collect_info
    &&& o.detect_license is Disabled
    &&& !o.detect_packages
    &&& !o.detect_system_packages
    &&& !o.detect_packages_in_compiled
    &&& !o.package_only
    &&& !o.no_assemble
    &&& !o.detect_copyrights
    &&& !o.detect_emails
    &&& !o.detect_urls
    &&& !o.detect_generated
    &&& o.max_emails == 50
    &&& o.max_urls == 50
    &&& o.include_patterns@.len() == 0
    &&& o.exclude@.len() == 0
    &&& !o.include_input_header
    &&& o.cache_dir is None
    &&& !o.cache_clear
    &&& !o.incremental
    &&& !o.cache_trust_mtime
    &&& !o.reindex
    &&& !o.no_license_index_cache
    &&& !o.license_text
    &&& !o.license_text_diagnostics
    &&& !o.license_diagnostics
    &&& !o.unknown_licenses
    &&& !o.no_sequence_matching
    &&& o.license_score == 0
    &&& !o.filter_clues
    &&& o.ignore_author_patterns@.len() == 0
    &&& o.ignore_copyright_holder_patterns@.len() == 0
    &&& !o.only_findings
    &&& !o.mark_source
    &&& !o.classify
    &&& !o.summary
    &&& !o.license_clarity_score
    &&& !o.license_references
    &&& o.license_url_template@ == DEFAULT_LICENSEDB_URL_TEMPLATE@
    &&& o.license_policy is None
    &&& !o.tallies
    &&& !o.tallies_key_files
    &&& !o.tallies_with_details
    &&& o.facets@.len() == 0
    &&& !o.tallies_by_facet
    &&& !o.strip_root
    &&& !o.full_root
    &&& headers::members(o.header_options) == headers::no_members()
    &&& headers::written(o.header_options) == headers::nothing_written()
    &&& o.max_files is None
    &&& o.max_total_bytes is None
    &&& o.scan_deadline_seconds is None
    &&& !o.restrict_out_of_tree_symlinks
}

impl Default for ScanOptions {
    fn default() -> (o: Self)
        ensures
            is_default(o),
    {
        ScanOptions {
            progress_mode: ProgressMode::Quiet,
            process_mode: ProcessMode::Automatic,
            timeout_seconds: Seconds { bits: TWO_MINUTES },
            max_depth: 0,
            max_in_memory: MemoryMode::Limit(10_000),
            collect_info: false,
            detect_license: LicenseSource::Disabled,
            detect_packages: false,
            detect_system_packages: false,
            detect_packages_in_compiled: false,
            package_only: false,
            no_assemble: false,
            detect_copyrights: false,
            detect_emails: false,
            detect_urls: false,
            detect_generated: false,
            max_emails: 50,
            max_urls: 50,
            include_patterns: Vec::new(),
            exclude: Vec::new(),
            include_input_header: false,
            cache_dir: None,
            cache_clear: false,
            incremental: false,
            cache_trust_mtime: false,
            reindex: false,
            no_license_index_cache: false,
            license_text: false,
            license_text_diagnostics: false,
            license_diagnostics: false,
            unknown_licenses: false,
            no_sequence_matching: false,
            license_score: 0,
            filter_clues: false,
            ignore_author_patterns: Vec::new(),
            ignore_copyright_holder_patterns: Vec::new(),
            only_findings: false,
            mark_source: false,
            classify: false,
            summary: false,
            license_clarity_score: false,
            license_references: false,
            license_url_template: DEFAULT_LICENSEDB_URL_TEMPLATE.to_owned(),
            license_policy: None,
            tallies: false,
            tallies_key_files: false,
            tallies_with_details: false,
            facets: Vec::new(),
            tallies_by_facet: false,
            strip_root: false,
            full_root: false,
            header_options: headers::new_object(),
            max_files: None,
            max_total_bytes: None,
            scan_deadline_seconds: None,
            restrict_out_of_tree_symlinks: false,
        }
    }
}

/// The license rules come from the same place.
pub open spec fn same_source(a: LicenseSource, b: LicenseSource) -> bool {
    &&& a is Disabled == b is Disabled
    &&& a is Embedded == b is Embedded
    &&& dataset_path(a) == dataset_path(b)
}

impl Clone for LicenseSource {
    fn clone(&self) -> (r: Self)
        ensures
            same_source(r, *self),
    {
        match self {
            LicenseSource::Disabled => LicenseSource::Disabled,
            LicenseSource::Embedded => LicenseSource::Embedded,
            LicenseSource::Directory(path) => LicenseSource::Directory(path.clone()),
        }
    }
}

/// Two options have the same patterns, places, templates and header.
pub open spec fn same_texts(a: ScanOptions, b: ScanOptions) -> bool {
    &&& same_source(a.detect_license, b.detect_license)
    &&& text::texts(a.include_patterns@) == text::texts(b.include_patterns@)
    &&& text::texts(a.exclude@) == text::texts(b.exclude@)
    &&& text::opt_text(a.cache_dir) == text::opt_text(b.cache_dir)
    &&& text::texts(a.ignore_author_patterns@) == text::texts(b.ignore_author_patterns@)
    &&& text::texts(a.ignore_copyright_holder_patterns@) == text::texts(b.ignore_copyright_holder_patterns@)
    &&& a.license_url_template@ == b.license_url_template@
    &&& text::opt_text(a.license_policy) == text::opt_text(b.license_policy)
    &&& text::texts(a.facets@) == text::texts(b.facets@)
    &&& headers::members(a.header_options) == headers::members(b.header_options)
    &&& headers::written(a.header_options) == headers::written(b.header_options)
}

/// Two options have the same switches, modes and bounds.
pub open spec fn same_switches(a: ScanOptions, b: ScanOptions) -> bool {
    &&& a.progress_mode == b.progress_mode
    &&& a.process_mode == b.process_mode
    &&& a.timeout_seconds == b.timeout_seconds
    &&& a.max_depth == b.max_depth
    &&& a.max_in_memory == b.max_in_memory
    &&& a.collect_info == b.collect_info
    &&& a.detect_packages == b.detect_packages
    &&& a.detect_system_packages == b.detect_system_packages
    &&& a.detect_packages_in_compiled == b.detect_packages_in_compiled
    &&& a.package_only == b.package_only
    &&& a.no_assemble == b.no_assemble
    &&& a.detect_copyrights == b.detect_copyrights
    &&& a.detect_emails == b.detect_emails
    &&& a.detect_urls == b.detect_urls
    &&& a.detect_generated == b.detect_generated
    &&& a.max_emails == b.max_emails
    &&& a.max_urls == b.max_urls
    &&& a.include_input_header == b.include_input_header
    &&& a.cache_clear == b.cache_clear
    &&& a.incremental == b.incremental
    &&& a.cache_trust_mtime == b.cache_trust_mtime
    &&& a.reindex == b.reindex
    &&& a.no_license_index_cache == b.no_license_index_cache
    &&& a.license_text == b.license_text
    &&& a.license_text_diagnostics == b.license_text_diagnostics
    &&& a.license_diagnostics == b.license_diagnostics
    &&& a.unknown_licenses == b.unknown_licenses
    &&& a.no_sequence_matching == b.no_sequence_matching
    &&& a.license_score == b.license_score
    &&& a.filter_clues == b.filter_clues
    &&& a.only_findings == b.only_findings
    &&& a.mark_source == b.mark_source
    &&& a.classify == b.classify
    &&& a.summary == b.summary
    &&& a.license_clarity_score == b.license_clarity_score
    &&& a.license_references == b.license_references
    &&& a.tallies == b.tallies
    &&& a.tallies_key_files == b.tallies_key_files
    &&& a.tallies_with_details == b.tallies_with_details
    &&& a.tallies_by_facet == b.tallies_by_facet
    &&& a.strip_root == b.strip_root
    &&& a.full_root == b.full_root
    &&& a.max_files == b.max_files
    &&& a.max_total_bytes == b.max_total_bytes
    &&& a.scan_deadline_seconds == b.scan_deadline_seconds
    &&& a.restrict_out_of_tree_symlinks == b.restrict_out_of_tree_symlinks
}

/// Two options say the same.
pub open spec fn same_options(a: ScanOptions, b: ScanOptions) -> bool {
    same_texts(a, b) && same_switches(a, b)
}

impl Clone for ScanOptions {
    fn clone(&self) -> (r: Self)
        ensures
            same_options(r, *self),
    {
        let r = ScanOptions {
            progress_mode: self.progress_mode,
            process_mode: self.process_mode,
            timeout_seconds: self.timeout_seconds,
            max_depth: self.max_depth,
            max_in_memory: self.max_in_memory,
            collect_info: self.collect_info,
            detect_license: self.detect_license.clone(),
            detect_packages: self.detect_packages,
            detect_system_packages: self.detect_system_packages,
            detect_packages_in_compiled: self.detect_packages_in_compiled,
            package_only: self.package_only,
            no_assemble: self.no_assemble,
            detect_copyrights: self.detect_copyrights,
            detect_emails: self.detect_emails,
            detect_urls: self.detect_urls,
            detect_generated: self.detect_generated,
            max_emails: self.max_emails,
            max_urls: self.max_urls,
            include_patterns: models::copy_strings(&self.include_patterns),
            exclude: models::copy_strings(&self.exclude),
            include_input_header: self.include_input_header,
            cache_dir: models::copy_opt(&self.cache_dir),
            cache_clear: self.cache_clear,
            incremental: self.incremental,
            cache_trust_mtime: self.cache_trust_mtime,
            reindex: self.reindex,
            no_license_index_cache: self.no_license_index_cache,
            license_text: self.license_text,
            license_text_diagnostics: self.license_text_diagnostics,
            license_diagnostics: self.license_diagnostics,
            unknown_licenses: self.unknown_licenses,
            no_sequence_matching: self.no_sequence_matching,
            license_score: self.license_score,
            filter_clues: self.filter_clues,
            ignore_author_patterns: models::copy_strings(&self.ignore_author_patterns),
            ignore_copyright_holder_patterns: models::copy_strings(&self.ignore_copyright_holder_patterns),
            only_findings: self.only_findings,
            mark_source: self.mark_source,
            classify: self.classify,
            summary: self.summary,
            license_clarity_score: self.license_clarity_score,
            license_references: self.license_references,
            license_url_template: self.license_url_template.clone(),
            license_policy: models::copy_opt(&self.license_policy),
            tallies: self.tallies,
            tallies_key_files: self.tallies_key_files,
            tallies_with_details: self.tallies_with_details,
            facets: models::copy_strings(&self.facets),
            tallies_by_facet: self.tallies_by_facet,
            strip_root: self.strip_root,
            full_root: self.full_root,
            header_options: headers::copy_object(&self.header_options),
            max_files: self.max_files,
            max_total_bytes: self.max_total_bytes,
            scan_deadline_seconds: self.scan_deadline_seconds,
            restrict_out_of_tree_symlinks: self.restrict_out_of_tree_symlinks,
        };
        assert(same_switches(r, *self));
        assert(same_texts(r, *self));
        r
    }
}

/// The header of the output: the given options, and the input paths where they
/// are to be shown.
pub open spec fn shown_header(o: ScanOptions, input_paths: Seq<Seq<char>>) -> Map<
    Seq<char>,
    Option<Seq<Seq<char>>>,
> {
    if o.include_input_header {
        headers::members(o.header_options).insert("input"@, Some(input_paths))
    } else {
        headers::members(o.header_options)
    }
}

/// The header of the output as JSON: each given option as it was given.
pub open spec fn written_header(o: ScanOptions, input_paths: Seq<Seq<char>>) -> Map<
    Seq<char>,
    Seq<char>,
> {
    if o.include_input_header {
        headers::written(o.header_options).insert("input"@, json::array_text(input_paths))
    } else {
        headers::written(o.header_options)
    }
}

/// A request holds the paths, and the header that shows them where it is to.
pub open spec fn carries_paths(r: ScanRequest, input_paths: Seq<Seq<char>>, o: ScanOptions) -> bool {
    &&& text::texts(r.input_paths@) == input_paths
    &&& headers::members(r.output_header_options) == shown_header(o, input_paths)
    &&& headers::written(r.output_header_options) == written_header(o, input_paths)
}

/// A request holds the patterns, the places and the templates of the options.
pub open spec fn carries_texts(r: ScanRequest, o: ScanOptions) -> bool {
    &&& text::texts(r.include_patterns@) == text::texts(o.include_patterns@)
    &&& text::texts(r.exclude@) == text::texts(o.exclude@)
    &&& text::opt_text(r.cache_dir) == text::opt_text(o.cache_dir)
    &&& text::opt_text(r.license_dataset_path) == dataset_path(o.detect_license)
    &&& r.license_url_template@ == o.license_url_template@
    &&& text::texts(r.ignore_author@) == text::texts(o.ignore_author_patterns@)
    &&& text::texts(r.ignore_copyright_holder@) == text::texts(o.ignore_copyright_holder_patterns@)
    &&& text::opt_text(r.license_policy) == text::opt_text(o.license_policy)
    &&& text::texts(r.facet@) == text::texts(o.facets@)
}

/// A request holds the switches and the bounds of the options.
pub open spec fn carries_switches(r: ScanRequest, o: ScanOptions) -> bool {
    &&& r.input_mode == InputMode::Native
    &&& r.output_targets@.len() == 0
    &&& r.progress_mode == o.progress_mode
    &&& r.process_mode == o.process_mode
    &&& r.timeout_seconds == o.timeout_seconds
    &&& r.quiet == (o.progress_mode == ProgressMode::Quiet)
    &&& r.verbose == (o.progress_mode == ProgressMode::Verbose)
    &&& r.strip_root == o.strip_root
    &&& r.full_root == o.full_root
    &&& r.paths_files@.len() == 0
    &&& !r.respect_process_cache_env
    &&& r.cache_clear == o.cache_clear
    &&& r.incremental == o.incremental
    &&& r.cache_trust_mtime == o.cache_trust_mtime
    &&& r.max_depth == o.max_depth
    &&& r.max_in_memory == o.max_in_memory
    &&& r.info == o.collect_info
    &&& r.package == o.detect_packages
    &&& r.system_package == o.detect_system_packages
    &&& r.package_in_compiled == o.detect_packages_in_compiled
    &&& r.package_only == o.package_only
    &&& r.no_assemble == o.no_assemble
    &&& r.license == !(o.detect_license is Disabled)
    &&& r.reindex == o.reindex
    &&& r.no_license_index_cache == o.no_license_index_cache
    &&& r.license_text == o.license_text
    &&& r.license_text_diagnostics == o.license_text_diagnostics
    &&& r.license_diagnostics == o.license_diagnostics
    &&& r.unknown_licenses == o.unknown_licenses
    &&& r.no_sequence_matching == o.no_sequence_matching
    &&& r.license_score == o.license_score
    &&& r.filter_clues == o.filter_clues
    &&& r.only_findings == o.only_findings
    &&& r.mark_source == o.mark_source
    &&& r.classify == o.classify
    &&& r.summary == o.summary
    &&& r.license_clarity_score == o.license_clarity_score
    &&& r.license_references == o.license_references
    &&& r.fail_on is None
    &&& r.tallies == o.tallies
    &&& r.tallies_key_files == o.tallies_key_files
    &&& r.tallies_with_details == o.tallies_with_details
    &&& r.tallies_by_facet == o.tallies_by_facet
    &&& r.generated == o.detect_generated
    &&& r.copyright == o.detect_copyrights
    &&& r.email == o.detect_emails
    &&& r.max_email == o.max_emails
    &&& r.url == o.detect_urls
    &&& r.max_url == o.max_urls
    &&& r.scan_bounds.max_files == o.max_files
    &&& r.scan_bounds.max_total_bytes == o.max_total_bytes
    &&& r.scan_bounds.deadline_seconds == o.scan_deadline_seconds
    &&& r.scan_bounds.restrict_out_of_tree_symlinks == o.restrict_out_of_tree_symlinks
}

/// A request asks for a scan of the paths as the options say.
pub open spec fn carries(r: ScanRequest, input_paths: Seq<Seq<char>>, o: ScanOptions) -> bool {
    carries_paths(r, input_paths, o) && carries_texts(r, o) && carries_switches(r, o)
}

/// The directory of the license dataset, where one is named.
pub open spec fn dataset_path(source: LicenseSource) -> Option<Seq<char>> {
    match source {
        LicenseSource::Directory(path) => Some(path@),
        _ => None,
    }
}

/// The first thing that is wrong with a request, in the words of its error.
pub open spec fn first_fault(r: ScanRequest) -> Option<Seq<char>> {
    if r.strip_root && r.full_root {
        Some("strip_root and full_root are mutually exclusive"@)
    } else if r.license_text && !r.license {
        Some("license_text requires detect_license"@)
    } else if r.license_text_diagnostics && !r.license_text {
        Some("license_text_diagnostics requires license_text"@)
    } else if r.license_diagnostics && !r.license {
        Some("license_diagnostics requires detect_license"@)
    } else if r.unknown_licenses && !r.license {
        Some("unknown_licenses requires detect_license"@)
    } else if r.license_references && !r.license {
        Some("license_references requires detect_license"@)
    } else if r.license_url_template@ != DEFAULT_LICENSEDB_URL_TEMPLATE@ && !r.license {
        Some("license_url_template requires detect_license"@)
    } else if r.package_only && r.license {
        Some("package_only cannot be combined with detect_license"@)
    } else if r.package_only && r.summary {
        Some("package_only cannot be combined with summary"@)
    } else if r.package_only && r.package {
        Some("package_only cannot be combined with detect_packages"@)
    } else if r.package_only && r.system_package {
        Some("package_only cannot be combined with detect_system_packages"@)
    } else if r.summary && !r.classify {
        Some("summary requires classify"@)
    } else if r.license_clarity_score && !r.classify {
        Some("license_clarity_score requires classify"@)
    } else if r.tallies_key_files && !(r.tallies && r.classify) {
        Some("tallies_key_files requires tallies and classify"@)
    } else if r.tallies_by_facet && r.facet@.len() == 0 {
        Some("tallies_by_facet requires at least one facet definition"@)
    } else if r.tallies_by_facet && !r.tallies {
        Some("tallies_by_facet requires tallies"@)
    } else if r.mark_source && !r.info {
        Some("mark_source requires collect_info"@)
    } else if r.license_score > 100 {
        Some("license_score must be between 0 and 100"@)
    } else {
        None
    }
}

/// The error of options that contradict each other.
fn invalid(message: &str) -> (r: Result<(), WorkflowError>)
    ensures
        r is Err && r->Err_0 is InvalidOptions && r->Err_0.said() == message@,
{
    Err(WorkflowError::InvalidOptions(message.to_owned()))
}

/// Whether licenses are detected, and with which dataset.
fn license_switch(source: &LicenseSource) -> (r: (bool, Option<String>))
    ensures
        r.0 == !(source is Disabled),
        text::opt_text(r.1) == dataset_path(*source),
{
    match source {
        LicenseSource::Disabled => (false, None),
        LicenseSource::Embedded => (true, None),
        LicenseSource::Directory(path) => (true, Some(path.clone())),
    }
}

/// The request for a scan of native paths as the options say.
pub fn request_for_native_paths(input_paths: Vec<String>, options: &ScanOptions) -> (r: ScanRequest)
    ensures
        carries(r, text::texts(input_paths@), *options),
{
    let mut header_options = headers::copy_object(&options.header_options);
    if options.include_input_header {
        headers::insert_strings(&mut header_options, "input".to_owned(), &input_paths);
    }
    let (license, license_dataset_path) = license_switch(&options.detect_license);
    let r = ScanRequest {
        input_paths,
        input_mode: InputMode::Native,
        output_targets: Vec::new(),
        output_header_options: header_options,
        progress_mode: options.progress_mode,
        process_mode: options.process_mode,
        timeout_seconds: options.timeout_seconds,
        quiet: options.progress_mode == ProgressMode::Quiet,
        verbose: options.progress_mode == ProgressMode::Verbose,
        strip_root: options.strip_root,
        full_root: options.full_root,
        include_patterns: models::copy_strings(&options.include_patterns),
        exclude: models::copy_strings(&options.exclude),
        paths_files: Vec::new(),
        respect_process_cache_env: false,
        cache_dir: models::copy_opt(&options.cache_dir),
        cache_clear: options.cache_clear,
        incremental: options.incremental,
        cache_trust_mtime: options.cache_trust_mtime,
        max_depth: options.max_depth,
        max_in_memory: options.max_in_memory,
        info: options.collect_info,
        package: options.detect_packages,
        system_package: options.detect_system_packages,
        package_in_compiled: options.detect_packages_in_compiled,
        package_only: options.package_only,
        no_assemble: options.no_assemble,
        license_dataset_path,
        reindex: options.reindex,
        no_license_index_cache: options.no_license_index_cache,
        license_text: options.license_text,
        license_text_diagnostics: options.license_text_diagnostics,
        license_diagnostics: options.license_diagnostics,
        unknown_licenses: options.unknown_licenses,
        no_sequence_matching: options.no_sequence_matching,
        license_score: options.license_score,
        license_url_template: options.license_url_template.clone(),
        filter_clues: options.filter_clues,
        ignore_author: models::copy_strings(&options.ignore_author_patterns),
        ignore_copyright_holder: models::copy_strings(&options.ignore_copyright_holder_patterns),
        only_findings: options.only_findings,
        mark_source: options.mark_source,
        classify: options.classify,
        summary: options.summary,
        license_clarity_score: options.license_clarity_score,
        license_references: options.license_references,
        license_policy: models::copy_opt(&options.license_policy),
        fail_on: None,
        tallies: options.tallies,
        tallies_key_files: options.tallies_key_files,
        tallies_with_details: options.tallies_with_details,
        facet: models::copy_strings(&options.facets),
        tallies_by_facet: options.tallies_by_facet,
        generated: options.detect_generated,
        license,
        copyright: options.detect_copyrights,
        email: options.detect_emails,
        max_email: options.max_emails,
        url: options.detect_urls,
        max_url: options.max_urls,
        scan_bounds: ScanBounds {
            max_files: options.max_files,
            max_total_bytes: options.max_total_bytes,
            deadline_seconds: options.scan_deadline_seconds,
            restrict_out_of_tree_symlinks: options.restrict_out_of_tree_symlinks,
        },
    };
    assert(carries_switches(r, *options));
    assert(carries_texts(r, *options));
    assert(carries_paths(r, text::texts(input_paths@), *options));
    r
}

/// Refuses a request whose options contradict each other, with the first fault.
pub fn validate_workflow_request(request: &ScanRequest) -> (r: Result<(), WorkflowError>)
    ensures
        r is Err == first_fault(*request) is Some,
        r is Err ==> r->Err_0 is InvalidOptions && r->Err_0.said() == first_fault(*request)->0,
{
    let license_enabled = request.license;
    if request.strip_root && request.full_root {
        return invalid("strip_root and full_root are mutually exclusive");
    }
    if request.license_text && !license_enabled {
        return invalid("license_text requires detect_license");
    }
    if request.license_text_diagnostics && !request.license_text {
        return invalid("license_text_diagnostics requires license_text");
    }
    if request.license_diagnostics && !license_enabled {
        return invalid("license_diagnostics requires detect_license");
    }
    if request.unknown_licenses && !license_enabled {
        return invalid("unknown_licenses requires detect_license");
    }
    if request.license_references && !license_enabled {
        return invalid("license_references requires detect_license");
    }
    if !text::same_str(request.license_url_template.as_str(), DEFAULT_LICENSEDB_URL_TEMPLATE)
        && !license_enabled {
        return invalid("license_url_template requires detect_license");
    }
    if request.package_only && license_enabled {
        return invalid("package_only cannot be combined with detect_license");
    }
    if request.package_only && request.summary {
        return invalid("package_only cannot be combined with summary");
    }
    if request.package_only && request.package {
        return invalid("package_only cannot be combined with detect_packages");
    }
    if request.package_only && request.system_package {
        return invalid("package_only cannot be combined with detect_system_packages");
    }
    if request.summary && !request.classify {
        return invalid("summary requires classify");
    }
    if request.license_clarity_score && !request.classify {
        return invalid("license_clarity_score requires classify");
    }
    if request.tallies_key_files && !(request.tallies && request.classify) {
        return invalid("tallies_key_files requires tallies and classify");
    }
    if request.tallies_by_facet && request.facet.len() == 0 {
        return invalid("tallies_by_facet requires at least one facet definition");
    }
    if request.tallies_by_facet && !request.tallies {
        return invalid("tallies_by_facet requires tallies");
    }
    if request.mark_source && !request.info {
        return invalid("mark_source requires collect_info");
    }
    if request.license_score > 100 {
        return invalid("license_score must be between 0 and 100");
    }
    Ok(())
}

/// What comes of a scan of paths: a fault of the call where there is one, else
/// what the pipeline gives.
pub open spec fn scan_outcome<O>(
    r: Result<O, WorkflowError>,
    request: ScanRequest,
    outcome: Result<O, String>,
) -> bool {
    &&& first_fault(request) is None
    &&& match outcome {
        Ok(output) => r is Ok && r->Ok_0 == output,
        Err(message) => r is Err && r->Err_0 is Pipeline && r->Err_0.said() == message@,
    }
}

/// Scans native paths. The pipeline runs once, on the request that the options
/// make, where there is a path and the options agree with each other; `engine`
/// is the license engine that it may share.
pub fn scan_paths_with_license_engine<O, G, E>(
    paths: &Vec<String>,
    options: &ScanOptions,
    engine: Option<G>,
    execute: E,
) -> (r: Result<O, WorkflowError>) where
    E: FnOnce(ScanRequest, Option<G>) -> Result<O, String>,

    requires
        forall|request: ScanRequest|
            #[trigger] carries(request, text::texts(paths@), *options) && paths@.len() > 0
                && first_fault(request) is None ==> call_requires(execute, (request, engine)),
    ensures
        paths@.len() == 0 ==> r is Err && r->Err_0 is InvalidOptions && r->Err_0.said()
            == "At least one input path is required"@,
        paths@.len() > 0 ==> exists|request: ScanRequest|
            {
                &&& #[trigger] carries(request, text::texts(paths@), *options)
                &&& match first_fault(request) {
                    Some(fault) => r is Err && r->Err_0 is InvalidOptions && r->Err_0.said()
                        == fault,
                    None => exists|outcome: Result<O, String>|
                        #[trigger] call_ensures(execute, (request, engine), outcome)
                            && scan_outcome(r, request, outcome),
                }
            },
{
    if paths.len() == 0 {
        return Err(
            WorkflowError::InvalidOptions("At least one input path is required".to_owned()),
        );
    }
    let request = request_for_native_paths(models::copy_strings(paths), options);
    let ghost asked = request;
    assert(carries(asked, text::texts(paths@), *options));
    if let Err(fault) = validate_workflow_request(&request) {
        return Err(fault);
    }
    let outcome = execute(request, engine);
    let ghost came = outcome;
    assert(call_ensures(execute, (asked, engine), came));
    let r = match outcome {
        Ok(output) => Ok(output),
        Err(message) => Err(WorkflowError::Pipeline(message)),
    };
    assert(scan_outcome(r, asked, came));
    r
}

/// Scans several native paths in one run of the pipeline.
pub fn scan_paths<O, G, E>(paths: &Vec<String>, options: &ScanOptions, execute: E) -> (r: Result<
    O,
    WorkflowError,
>) where E: FnOnce(ScanRequest, Option<G>) -> Result<O, String>
    requires
        forall|request: ScanRequest|
            #[trigger] carries(request, text::texts(paths@), *options) && paths@.len() > 0
                && first_fault(request) is None ==> call_requires(execute, (request, None::<G>)),
    ensures
        paths@.len() == 0 ==> r is Err && r->Err_0 is InvalidOptions && r->Err_0.said()
            == "At least one input path is required"@,
        paths@.len() > 0 ==> exists|request: ScanRequest|
            {
                &&& #[trigger] carries(request, text::texts(paths@), *options)
                &&& match first_fault(request) {
                    Some(fault) => r is Err && r->Err_0 is InvalidOptions && r->Err_0.said()
                        == fault,
                    None => exists|outcome: Result<O, String>|
                        #[trigger] call_ensures(execute, (request, None::<G>), outcome)
                            && scan_outcome(r, request, outcome),
                }
            },
{
    scan_paths_with_license_engine(paths, options, None, execute)
}

/// Scans one native path.
pub fn scan_path<O, G, E>(path: &str, options: &ScanOptions, execute: E) -> (r: Result<
    O,
    WorkflowError,
>) where E: FnOnce(ScanRequest, Option<G>) -> Result<O, String>
    requires
        forall|request: ScanRequest|
            #[trigger] carries(request, seq![path@], *options) && first_fault(request) is None
                ==> call_requires(execute, (request, None::<G>)),
    ensures
        exists|request: ScanRequest|
            {
                &&& #[trigger] carries(request, seq![path@], *options)
                &&& match first_fault(request) {
                    Some(fault) => r is Err && r->Err_0 is InvalidOptions && r->Err_0.said()
                        == fault,
                    None => exists|outcome: Result<O, String>|
                        #[trigger] call_ensures(execute, (request, None::<G>), outcome)
                            && scan_outcome(r, request, outcome),
                }
            },
{
    let mut paths: Vec<String> = Vec::new();
    paths.push(path.to_owned());
    assert(text::texts(paths@) == seq![path@]);
    scan_paths(&paths, options, execute)
}

/// Two requests that the same options make have the same fault, or none.
pub proof fn law_fault_is_the_options(
    a: ScanRequest,
    b: ScanRequest,
    input_paths: Seq<Seq<char>>,
    options: ScanOptions,
)
    requires
        carries(a, input_paths, options),
        carries(b, input_paths, options),
    ensures
        first_fault(a) == first_fault(b),
{
    assert(text::texts(a.facet@).len() == a.facet@.len());
    assert(text::texts(b.facet@).len() == b.facet@.len());
}

/// Options that say the same make the same requests.
pub proof fn law_same_options_same_requests(
    a: ScanOptions,
    b: ScanOptions,
    input_paths: Seq<Seq<char>>,
    request: ScanRequest,
)
    requires
        same_options(a, b),
    ensures
        carries(request, input_paths, a) == carries(request, input_paths, b),
{
}

/// The options that a caller starts from make a request without fault.
pub proof fn law_default_options_run(
    request: ScanRequest,
    input_paths: Seq<Seq<char>>,
    options: ScanOptions,
)
    requires
        is_default(options),
        carries(request, input_paths, options),
    ensures
        first_fault(request) is None,
        request.quiet && !request.verbose,
        !request.license && !request.package && !request.system_package && !request.package_only,
        !request.copyright && !request.email && !request.url && !request.generated && !request.info,
        !request.respect_process_cache_env && request.cache_dir is None,
        headers::members(request.output_header_options) == headers::no_members(),
        headers::written(request.output_header_options) == headers::nothing_written(),
{
}

/// A request without fault asks for nothing that it does not also ask the
/// ground of.
pub proof fn law_valid_request_is_consistent(r: ScanRequest)
    requires
        first_fault(r) is None,
    ensures
        !(r.strip_root && r.full_root),
        r.license_text || r.license_diagnostics || r.unknown_licenses || r.license_references
            ==> r.license,
        r.license_text_diagnostics ==> r.license_text && r.license,
        r.package_only ==> !r.license && !r.summary && !r.package && !r.system_package,
        r.summary || r.license_clarity_score || r.tallies_key_files ==> r.classify,
        r.tallies_key_files || r.tallies_by_facet ==> r.tallies,
        r.tallies_by_facet ==> r.facet@.len() > 0,
        r.mark_source ==> r.info,
        r.license_score <= 100,
{
}

/// The input paths show in the header where they are asked for, and no other
/// option changes, comes or goes.
pub proof fn law_input_header(
    request: ScanRequest,
    input_paths: Seq<Seq<char>>,
    options: ScanOptions,
)
    requires
        carries(request, input_paths, options),
    ensures
        options.include_input_header ==> headers::members(
            request.output_header_options,
        ).contains_key("input"@) && headers::members(request.output_header_options)["input"@]
            == Some(input_paths),
        options.include_input_header ==> headers::written(
            request.output_header_options,
        ).contains_key("input"@) && headers::written(request.output_header_options)["input"@]
            == json::array_text(input_paths),
        headers::members(request.output_header_options).remove("input"@) == headers::members(
            options.header_options,
        ).remove("input"@),
        headers::written(request.output_header_options).remove("input"@) == headers::written(
            options.header_options,
        ).remove("input"@),
        !options.include_input_header ==> headers::members(request.output_header_options)
            == headers::members(options.header_options) && headers::written(
            request.output_header_options,
        ) == headers::written(options.header_options),
{
}

/// A request can run if and only if nothing in it contradicts something else.
pub proof fn law_consistent_requests_run(r: ScanRequest)
    ensures
        first_fault(r) is None == {
            &&& !(r.strip_root && r.full_root)
            &&& !r.license ==> !r.license_text && !r.license_diagnostics && !r.unknown_licenses
                && !r.license_references && r.license_url_template@
                == "https://scancode-licensedb.aboutcode.org/{}"@
            &&& r.license_text_diagnostics ==> r.license_text
            &&& r.package_only ==> !r.license && !r.summary && !r.package && !r.system_package
            &&& !r.classify ==> !r.summary && !r.license_clarity_score && !r.tallies_key_files
            &&& !r.tallies ==> !r.tallies_key_files && !r.tallies_by_facet
            &&& r.tallies_by_facet ==> r.facet@.len() > 0
            &&& r.mark_source ==> r.info
            &&& r.license_score <= 100
        },
{
}

/// The fault of a request tells what is wrong with it.
pub proof fn law_fault_tells_what_is_wrong(r: ScanRequest)
    ensures
        first_fault(r) == Some("strip_root and full_root are mutually exclusive"@) ==> r.strip_root && r.full_root,
        first_fault(r) == Some("license_text requires detect_license"@) ==> r.license_text && !r.license,
        first_fault(r) == Some("license_text_diagnostics requires license_text"@) ==> r.license_text_diagnostics && !r.license_text,
        first_fault(r) == Some("license_diagnostics requires detect_license"@) ==> r.license_diagnostics && !r.license,
        first_fault(r) == Some("unknown_licenses requires detect_license"@) ==> r.unknown_licenses && !r.license,
        first_fault(r) == Some("license_references requires detect_license"@) ==> r.license_references && !r.license,
        first_fault(r) == Some("license_url_template requires detect_license"@) ==> r.license_url_template@ != "https://scancode-licensedb.aboutcode.org/{}"@ && !r.license,
        first_fault(r) == Some("package_only cannot be combined with detect_license"@) ==> r.package_only && r.license,
        first_fault(r) == Some("package_only cannot be combined with summary"@) ==> r.package_only && r.summary,
        first_fault(r) == Some("package_only cannot be combined with detect_packages"@) ==> r.package_only && r.package,
        first_fault(r) == Some("package_only cannot be combined with detect_system_packages"@) ==> r.package_only && r.system_package,
        first_fault(r) == Some("summary requires classify"@) ==> r.summary && !r.classify,
        first_fault(r) == Some("license_clarity_score requires classify"@) ==> r.license_clarity_score && !r.classify,
        first_fault(r) == Some("tallies_key_files requires tallies and classify"@) ==> r.tallies_key_files && !(r.tallies && r.classify),
        first_fault(r) == Some("tallies_by_facet requires at least one facet definition"@) ==> r.tallies_by_facet && r.facet@.len() == 0,
        first_fault(r) == Some("tallies_by_facet requires tallies"@) ==> r.tallies_by_facet && !r.tallies,
        first_fault(r) == Some("mark_source requires collect_info"@) ==> r.mark_source && !r.info,
        first_fault(r) == Some("license_score must be between 0 and 100"@) ==> r.license_score > 100,
        first_fault(r) is Some ==> first_fault(r)->0 == "strip_root and full_root are mutually exclusive"@
            || first_fault(r)->0 == "license_text requires detect_license"@
            || first_fault(r)->0 == "license_text_diagnostics requires license_text"@
            || first_fault(r)->0 == "license_diagnostics requires detect_license"@
            || first_fault(r)->0 == "unknown_licenses requires detect_license"@
            || first_fault(r)->0 == "license_references requires detect_license"@
            || first_fault(r)->0 == "license_url_template requires detect_license"@
            || first_fault(r)->0 == "package_only cannot be combined with detect_license"@
            || first_fault(r)->0 == "package_only cannot be combined with summary"@
            || first_fault(r)->0 == "package_only cannot be combined with detect_packages"@
            || first_fault(r)->0 == "package_only cannot be combined with detect_system_packages"@
            || first_fault(r)->0 == "summary requires classify"@
            || first_fault(r)->0 == "license_clarity_score requires classify"@
            || first_fault(r)->0 == "tallies_key_files requires tallies and classify"@
            || first_fault(r)->0 == "tallies_by_facet requires at least one facet definition"@
            || first_fault(r)->0 == "tallies_by_facet requires tallies"@
            || first_fault(r)->0 == "mark_source requires collect_info"@
            || first_fault(r)->0 == "license_score must be between 0 and 100"@,
{
    reveal_strlit("strip_root and full_root are mutually exclusive");
    reveal_strlit("license_text requires detect_license");
    reveal_strlit("license_text_diagnostics requires license_text");
    reveal_strlit("license_diagnostics requires detect_license");
    reveal_strlit("unknown_licenses requires detect_license");
    reveal_strlit("license_references requires detect_license");
    reveal_strlit("license_url_template requires detect_license");
    reveal_strlit("package_only cannot be combined with detect_license");
    reveal_strlit("package_only cannot be combined with summary");
    reveal_strlit("package_only cannot be combined with detect_packages");
    reveal_strlit("package_only cannot be combined with detect_system_packages");
    reveal_strlit("summary requires classify");
    reveal_strlit("license_clarity_score requires classify");
    reveal_strlit("tallies_key_files requires tallies and classify");
    reveal_strlit("tallies_by_facet requires at least one facet definition");
    reveal_strlit("tallies_by_facet requires tallies");
    reveal_strlit("mark_source requires collect_info");
    reveal_strlit("license_score must be between 0 and 100");
    assert("strip_root and full_root are mutually exclusive"@.len() == 47 && "strip_root and full_root are mutually exclusive"@[8] == 'o');
    assert("license_text requires detect_license"@.len() == 36 && "license_text requires detect_license"@[8] == 't');
    assert("license_text_diagnostics requires license_text"@.len() == 46 && "license_text_diagnostics requires license_text"@[8] == 't');
    assert("license_diagnostics requires detect_license"@.len() == 43 && "license_diagnostics requires detect_license"@[8] == 'd');
    assert("unknown_licenses requires detect_license"@.len() == 40 && "unknown_licenses requires detect_license"@[8] == 'l');
    assert("license_references requires detect_license"@.len() == 42 && "license_references requires detect_license"@[8] == 'r');
    assert("license_url_template requires detect_license"@.len() == 44 && "license_url_template requires detect_license"@[8] == 'u');
    assert("package_only cannot be combined with detect_license"@.len() == 51 && "package_only cannot be combined with detect_license"@[8] == 'o');
    assert("package_only cannot be combined with summary"@.len() == 44 && "package_only cannot be combined with summary"@[8] == 'o');
    assert("package_only cannot be combined with detect_packages"@.len() == 52 && "package_only cannot be combined with detect_packages"@[8] == 'o');
    assert("package_only cannot be combined with detect_system_packages"@.len() == 59 && "package_only cannot be combined with detect_system_packages"@[8] == 'o');
    assert("summary requires classify"@.len() == 25 && "summary requires classify"@[8] == 'r');
    assert("license_clarity_score requires classify"@.len() == 39 && "license_clarity_score requires classify"@[8] == 'c');
    assert("tallies_key_files requires tallies and classify"@.len() == 47 && "tallies_key_files requires tallies and classify"@[8] == 'k');
    assert("tallies_by_facet requires at least one facet definition"@.len() == 55 && "tallies_by_facet requires at least one facet definition"@[8] == 'b');
    assert("tallies_by_facet requires tallies"@.len() == 33 && "tallies_by_facet requires tallies"@[8] == 'b');
    assert("mark_source requires collect_info"@.len() == 33 && "mark_source requires collect_info"@[8] == 'r');
    assert("license_score must be between 0 and 100"@.len() == 39 && "license_score must be between 0 and 100"@[8] == 's');
}

/// A request asks for the paths and for what the options say is to be detected.
pub proof fn law_request_detects_what_is_asked(
    r: ScanRequest,
    input_paths: Seq<Seq<char>>,
    o: ScanOptions,
)
    requires
        carries(r, input_paths, o),
    ensures
        text::texts(r.input_paths@) == input_paths,
        r.input_mode == InputMode::Native,
        r.paths_files@.len() == 0,
        o.detect_license is Disabled ==> !r.license && r.license_dataset_path is None,
        o.detect_license is Embedded ==> r.license && r.license_dataset_path is None,
        o.detect_license matches LicenseSource::Directory(path) ==> r.license
            && r.license_dataset_path is Some && r.license_dataset_path->0@ == path@,
        r.package == o.detect_packages,
        r.system_package == o.detect_system_packages,
        r.package_in_compiled == o.detect_packages_in_compiled,
        r.package_only == o.package_only,
        r.no_assemble == o.no_assemble,
        r.copyright == o.detect_copyrights,
        r.email == o.detect_emails,
        r.max_email == o.max_emails,
        r.url == o.detect_urls,
        r.max_url == o.max_urls,
        r.generated == o.detect_generated,
        r.info == o.collect_info,
{
}

/// A request treats licenses as the options say.
pub proof fn law_request_treats_licenses_as_asked(
    r: ScanRequest,
    input_paths: Seq<Seq<char>>,
    o: ScanOptions,
)
    requires
        carries(r, input_paths, o),
    ensures
        r.license_text == o.license_text,
        r.license_text_diagnostics == o.license_text_diagnostics,
        r.license_diagnostics == o.license_diagnostics,
        r.unknown_licenses == o.unknown_licenses,
        r.no_sequence_matching == o.no_sequence_matching,
        r.license_score == o.license_score,
        r.license_references == o.license_references,
        r.license_clarity_score == o.license_clarity_score,
        r.license_url_template@ == o.license_url_template@,
        text::opt_text(r.license_policy) == text::opt_text(o.license_policy),
        r.reindex == o.reindex,
        r.no_license_index_cache == o.no_license_index_cache,
        r.filter_clues == o.filter_clues,
{
}

/// A request stays within the bounds of the options, in what it reads and in how
/// long it takes.
pub proof fn law_request_stays_within_bounds(
    r: ScanRequest,
    input_paths: Seq<Seq<char>>,
    o: ScanOptions,
)
    requires
        carries(r, input_paths, o),
    ensures
        r.scan_bounds.max_files == o.max_files,
        r.scan_bounds.max_total_bytes == o.max_total_bytes,
        r.scan_bounds.deadline_seconds == o.scan_deadline_seconds,
        r.scan_bounds.restrict_out_of_tree_symlinks == o.restrict_out_of_tree_symlinks,
        r.timeout_seconds == o.timeout_seconds,
        r.max_depth == o.max_depth,
        r.max_in_memory == o.max_in_memory,
        r.process_mode == o.process_mode,
        text::texts(r.include_patterns@) == text::texts(o.include_patterns@),
        text::texts(r.exclude@) == text::texts(o.exclude@),
        text::opt_text(r.cache_dir) == text::opt_text(o.cache_dir),
        r.cache_clear == o.cache_clear,
        r.incremental == o.incremental,
        r.cache_trust_mtime == o.cache_trust_mtime,
        !r.respect_process_cache_env,
{
}

/// A request shows what the options say, and writes to no file.
pub proof fn law_request_shows_what_is_asked(
    r: ScanRequest,
    input_paths: Seq<Seq<char>>,
    o: ScanOptions,
)
    requires
        carries(r, input_paths, o),
    ensures
        r.output_targets@.len() == 0,
        r.fail_on is None,
        r.progress_mode == o.progress_mode,
        r.quiet == (o.progress_mode is Quiet),
        r.verbose == (o.progress_mode is Verbose),
        r.strip_root == o.strip_root,
        r.full_root == o.full_root,
        text::texts(r.ignore_author@) == text::texts(o.ignore_author_patterns@),
        text::texts(r.ignore_copyright_holder@) == text::texts(
            o.ignore_copyright_holder_patterns@,
        ),
        r.only_findings == o.only_findings,
        r.mark_source == o.mark_source,
        r.classify == o.classify,
        r.summary == o.summary,
        r.tallies == o.tallies,
        r.tallies_key_files == o.tallies_key_files,
        r.tallies_with_details == o.tallies_with_details,
        text::texts(r.facet@) == text::texts(o.facets@),
        r.tallies_by_facet == o.tallies_by_facet,
{
}

/// The options that a caller starts from detect nothing, leave nothing behind, cut
/// nothing off and read every file for at most two minutes.
pub proof fn law_defaults_are_conservative(o: ScanOptions)
    requires
        is_default(o),
    ensures
        o.detect_license is Disabled,
        !o.detect_packages && !o.detect_system_packages && !o.detect_packages_in_compiled,
        !o.detect_copyrights && !o.detect_emails && !o.detect_urls && !o.detect_generated,
        !o.collect_info && !o.package_only && !o.no_assemble,
        o.progress_mode is Quiet && o.process_mode is Automatic,
        o.timeout_seconds.bits == 0x405E_0000_0000_0000,
        o.max_depth == 0,
        o.max_in_memory == MemoryMode::Limit(10_000),
        o.max_emails == 50 && o.max_urls == 50,
        o.include_patterns@.len() == 0 && o.exclude@.len() == 0,
        o.ignore_author_patterns@.len() == 0 && o.ignore_copyright_holder_patterns@.len() == 0,
        o.facets@.len() == 0,
        o.cache_dir is None && !o.cache_clear && !o.incremental && !o.cache_trust_mtime,
        !o.reindex && !o.no_license_index_cache && !o.no_sequence_matching,
        !o.license_text && !o.license_text_diagnostics && !o.license_diagnostics,
        !o.unknown_licenses && !o.license_references && !o.license_clarity_score,
        o.license_score == 0 && o.license_policy is None,
        o.license_url_template@ == "https://scancode-licensedb.aboutcode.org/{}"@,
        !o.filter_clues && !o.only_findings && !o.mark_source && !o.classify && !o.summary,
        !o.tallies && !o.tallies_key_files && !o.tallies_with_details && !o.tallies_by_facet,
        !o.strip_root && !o.full_root && !o.include_input_header,
        o.max_files is None && o.max_total_bytes is None && o.scan_deadline_seconds is None,
        !o.restrict_out_of_tree_symlinks,
{
}

/// A scan that runs hands on what the pipeline gave: its output, or its failure in
/// its own words. It never runs on a request with a fault.
pub proof fn law_scan_hands_on_the_outcome<O>(
    r: Result<O, WorkflowError>,
    request: ScanRequest,
    outcome: Result<O, String>,
)
    requires
        scan_outcome(r, request, outcome),
    ensures
        first_fault(request) is None,
        r is Ok == outcome is Ok,
        r is Ok ==> r->Ok_0 == outcome->Ok_0,
        r is Err ==> r->Err_0 is Pipeline && r->Err_0.said() == outcome->Err_0@,
{
}

/// A scan of no paths is refused, and the pipeline does not run.
pub proof fn law_scans_need_a_path<O, G, E>(
    paths: &Vec<String>,
    options: &ScanOptions,
    engine: Option<G>,
    execute: E,
    shared: Result<O, WorkflowError>,
    alone: Result<O, WorkflowError>,
) where E: FnOnce(ScanRequest, Option<G>) -> Result<O, String>
    requires
        paths@.len() == 0,
        call_ensures(
            scan_paths_with_license_engine::<O, G, E>,
            (paths, options, engine, execute),
            shared,
        ),
        call_ensures(scan_paths::<O, G, E>, (paths, options, execute), alone),
    ensures
        shared is Err && shared->Err_0 is InvalidOptions && shared->Err_0.said()
            == "At least one input path is required"@,
        alone is Err && alone->Err_0 is InvalidOptions && alone->Err_0.said()
            == shared->Err_0.said(),
{
}

/// What a scan gives comes from the pipeline, which ran on the paths and the options
/// of the call, with the engine that was handed in. A failure of the pipeline is told
/// in its words, and options are refused only with a fault.
pub proof fn law_scans_run_the_pipeline<O, G, E>(
    paths: &Vec<String>,
    options: &ScanOptions,
    engine: Option<G>,
    execute: E,
    r: Result<O, WorkflowError>,
) where E: FnOnce(ScanRequest, Option<G>) -> Result<O, String>
    requires
        paths@.len() > 0,
        call_ensures(
            scan_paths_with_license_engine::<O, G, E>,
            (paths, options, engine, execute),
            r,
        ),
    ensures
        exists|request: ScanRequest| #[trigger]
            carries(request, text::texts(paths@), *options) && match r {
                Ok(output) => first_fault(request) is None && call_ensures(
                    execute,
                    (request, engine),
                    Ok::<O, String>(output),
                ),
                Err(WorkflowError::Pipeline(_)) => first_fault(request) is None && exists|
                    message: String,
                | #[trigger]
                    call_ensures(execute, (request, engine), Err::<O, String>(message)) && message@
                        == r->Err_0.said(),
                Err(WorkflowError::InvalidOptions(_)) => first_fault(request) == Some(
                    r->Err_0.said(),
                ),
            },
{
    let request = choose|request: ScanRequest|
        {
            &&& #[trigger] carries(request, text::texts(paths@), *options)
            &&& match first_fault(request) {
                Some(fault) => r is Err && r->Err_0 is InvalidOptions && r->Err_0.said() == fault,
                None => exists|outcome: Result<O, String>|
                    #[trigger] call_ensures(execute, (request, engine), outcome) && scan_outcome(
                        r,
                        request,
                        outcome,
                    ),
            }
        };
    if first_fault(request) is None {
        let outcome = choose|outcome: Result<O, String>|
            #[trigger] call_ensures(execute, (request, engine), outcome) && scan_outcome(
                r,
                request,
                outcome,
            );
        match outcome {
            Ok(output) => {
                assert(call_ensures(execute, (request, engine), Ok::<O, String>(output)));
            },
            Err(message) => {
                assert(call_ensures(execute, (request, engine), Err::<O, String>(message)));
            },
        }
    }
    assert(carries(request, text::texts(paths@), *options));
}

} // verus!
