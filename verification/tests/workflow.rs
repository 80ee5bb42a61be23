use provenant::workflow::{
    request_for_native_paths, scan_path, scan_paths, scan_paths_with_license_engine,
    validate_workflow_request, InputMode, LicenseSource, MemoryMode, ProgressMode, ScanOptions,
    ScanRequest, Seconds, WorkflowError, DEFAULT_LICENSEDB_URL_TEMPLATE,
};

fn fault(options: ScanOptions) -> String {
    let request = request_for_native_paths(vec!["src".to_string()], &options);
    let error = validate_workflow_request(&request).expect_err("validation should fail");
    assert!(matches!(error, WorkflowError::InvalidOptions(_)));
    error.message()
}

#[test]
fn scan_path_requires_at_least_one_input() {
    let result = scan_paths(
        &Vec::new(),
        &ScanOptions::default(),
        |_: ScanRequest, _: Option<()>| Ok(()),
    );
    assert!(result.is_err());
}

#[test]
fn workflow_request_populates_input_header() {
    let options = ScanOptions {
        include_input_header: true,
        ..ScanOptions::default()
    };
    let request = request_for_native_paths(vec!["src".to_string()], &options);
    assert!(request.output_header_options.contains_key("input"));
}

#[test]
fn workflow_validation_rejects_license_dependent_flags_without_license() {
    let options = ScanOptions {
        license_references: true,
        ..ScanOptions::default()
    };

    let request = request_for_native_paths(vec!["src".to_string()], &options);
    let error = validate_workflow_request(&request).expect_err("validation should fail");
    assert!(matches!(error, WorkflowError::InvalidOptions(_)));
    assert!(error
        .message()
        .contains("license_references requires detect_license"));
}

#[test]
fn workflow_validation_rejects_package_only_with_regular_package_modes() {
    let options = ScanOptions {
        package_only: true,
        detect_packages: true,
        ..ScanOptions::default()
    };

    let request = request_for_native_paths(vec!["src".to_string()], &options);
    let error = validate_workflow_request(&request).expect_err("validation should fail");
    assert!(matches!(error, WorkflowError::InvalidOptions(_)));
    assert!(error
        .message()
        .contains("package_only cannot be combined with detect_packages"));
}

#[test]
fn workflow_validation_rejects_classify_dependent_flags_without_classify() {
    let options = ScanOptions {
        summary: true,
        ..ScanOptions::default()
    };

    let request = request_for_native_paths(vec!["src".to_string()], &options);
    let error = validate_workflow_request(&request).expect_err("validation should fail");
    assert!(matches!(error, WorkflowError::InvalidOptions(_)));
    assert!(error.message().contains("summary requires classify"));
}

#[test]
fn default_options_are_conservative_and_valid() {
    let options = ScanOptions::default();
    assert_eq!(options.timeout_seconds, Seconds { bits: 120.0f64.to_bits() });
    assert_eq!(options.max_in_memory, MemoryMode::Limit(10_000));
    assert_eq!(options.max_emails, 50);
    assert_eq!(options.license_url_template, DEFAULT_LICENSEDB_URL_TEMPLATE);
    assert!(options.header_options.is_empty());
    let request = request_for_native_paths(vec!["a".to_string(), "b".to_string()], &options);
    assert!(validate_workflow_request(&request).is_ok());
    assert_eq!(request.input_paths, vec!["a", "b"]);
    assert_eq!(request.input_mode, InputMode::Native);
    assert!(request.quiet && !request.verbose);
    assert!(!request.license && request.license_dataset_path.is_none());
    assert!(!request.respect_process_cache_env);
    assert!(!request.output_header_options.contains_key("input"));
}

#[test]
fn header_options_are_kept_beside_the_input() {
    let mut options = ScanOptions {
        include_input_header: true,
        ..ScanOptions::default()
    };
    options
        .header_options
        .insert("--info".to_string(), serde_json::Value::Bool(true));
    options
        .header_options
        .insert("input".to_string(), serde_json::Value::Null);
    let request = request_for_native_paths(vec!["a".to_string(), "b".to_string()], &options);
    assert_eq!(
        serde_json::to_string(&request.output_header_options).expect("JSON"),
        "{\"--info\":true,\"input\":[\"a\",\"b\"]}"
    );
    assert_eq!(options.header_options["input"], serde_json::Value::Null);
}

#[test]
fn header_options_keep_their_values() {
    let mut options = ScanOptions::default();
    for (name, value) in [
        ("--max", serde_json::Value::from(3)),
        ("--name", serde_json::Value::from("a\"b")),
        ("--list", serde_json::Value::from(vec!["x", "y"])),
        ("input", serde_json::Value::Null),
    ] {
        options.header_options.insert(name.to_string(), value);
    }
    let paths = || vec!["a\nb".to_string()];
    let request = request_for_native_paths(paths(), &options);
    assert_eq!(request.output_header_options, options.header_options);

    options.include_input_header = true;
    let request = request_for_native_paths(paths(), &options);
    assert_eq!(
        request.output_header_options["input"].to_string(),
        "[\"a\\nb\"]"
    );
    for name in ["--max", "--name", "--list"] {
        assert_eq!(request.output_header_options[name], options.header_options[name]);
    }
    assert_eq!(request.output_header_options.len(), 4);
}

#[test]
fn nothing_runs_on_faulty_calls() {
    let never = |_: ScanRequest, _: Option<()>| -> Result<(), String> {
        panic!("a faulty call runs nothing")
    };
    assert!(scan_paths(&Vec::new(), &ScanOptions::default(), never).is_err());
    let contradictory = ScanOptions {
        strip_root: true,
        full_root: true,
        cache_clear: true,
        ..ScanOptions::default()
    };
    assert!(scan_path("a", &contradictory, never).is_err());
    assert!(scan_paths(&vec!["a".to_string()], &contradictory, never).is_err());
    assert!(scan_paths_with_license_engine(
        &vec!["a".to_string()],
        &contradictory,
        Some(()),
        never,
    )
    .is_err());
}

#[test]
fn copied_options_make_the_same_request() {
    let mut options = ScanOptions {
        detect_license: LicenseSource::Directory("rules".to_string()),
        exclude: vec!["*.o".to_string()],
        cache_dir: Some("cache".to_string()),
        max_depth: 3,
        include_input_header: true,
        ..ScanOptions::default()
    };
    options
        .header_options
        .insert("--info".to_string(), serde_json::Value::Bool(true));
    let copy = options.clone();
    assert_eq!(format!("{copy:?}"), format!("{options:?}"));
    let request = |o: &ScanOptions| request_for_native_paths(vec!["a".to_string()], o);
    assert_eq!(format!("{:?}", request(&copy)), format!("{:?}", request(&options)));
    assert!(matches!(LicenseSource::Embedded.clone(), LicenseSource::Embedded));
    assert!(matches!(LicenseSource::Disabled.clone(), LicenseSource::Disabled));
}

#[test]
fn license_sources_make_their_request() {
    let embedded = ScanOptions {
        detect_license: LicenseSource::Embedded,
        progress_mode: ProgressMode::Verbose,
        ..ScanOptions::default()
    };
    let request = request_for_native_paths(vec!["a".to_string()], &embedded);
    assert!(request.license && request.license_dataset_path.is_none());
    assert!(request.verbose && !request.quiet);
    let directory = ScanOptions {
        detect_license: LicenseSource::Directory("rules".to_string()),
        max_files: Some(3),
        restrict_out_of_tree_symlinks: true,
        ..ScanOptions::default()
    };
    let request = request_for_native_paths(vec!["a".to_string()], &directory);
    assert!(request.license);
    assert_eq!(request.license_dataset_path.as_deref(), Some("rules"));
    assert_eq!(request.scan_bounds.max_files, Some(3));
    assert!(request.scan_bounds.restrict_out_of_tree_symlinks);
}

#[test]
fn every_contradiction_is_refused_in_its_words() {
    let base = ScanOptions::default;
    let licensed = || ScanOptions {
        detect_license: LicenseSource::Embedded,
        ..ScanOptions::default()
    };
    let cases = vec![
        (
            ScanOptions { strip_root: true, full_root: true, ..base() },
            "strip_root and full_root are mutually exclusive",
        ),
        (
            ScanOptions { license_text: true, ..base() },
            "license_text requires detect_license",
        ),
        (
            ScanOptions { license_text_diagnostics: true, ..licensed() },
            "license_text_diagnostics requires license_text",
        ),
        (
            ScanOptions { license_diagnostics: true, ..base() },
            "license_diagnostics requires detect_license",
        ),
        (
            ScanOptions { unknown_licenses: true, ..base() },
            "unknown_licenses requires detect_license",
        ),
        (
            ScanOptions { license_url_template: "{}".to_string(), ..base() },
            "license_url_template requires detect_license",
        ),
        (
            ScanOptions { package_only: true, ..licensed() },
            "package_only cannot be combined with detect_license",
        ),
        (
            ScanOptions { package_only: true, summary: true, ..base() },
            "package_only cannot be combined with summary",
        ),
        (
            ScanOptions { package_only: true, detect_system_packages: true, ..base() },
            "package_only cannot be combined with detect_system_packages",
        ),
        (
            ScanOptions { license_clarity_score: true, ..base() },
            "license_clarity_score requires classify",
        ),
        (
            ScanOptions { tallies_key_files: true, tallies: true, ..base() },
            "tallies_key_files requires tallies and classify",
        ),
        (
            ScanOptions { tallies_by_facet: true, tallies: true, ..base() },
            "tallies_by_facet requires at least one facet definition",
        ),
        (
            ScanOptions { tallies_by_facet: true, facets: vec!["core=*.c".to_string()], ..base() },
            "tallies_by_facet requires tallies",
        ),
        (
            ScanOptions { mark_source: true, ..base() },
            "mark_source requires collect_info",
        ),
        (
            ScanOptions { license_score: 101, ..base() },
            "license_score must be between 0 and 100",
        ),
    ];
    for (options, expected) in cases {
        assert_eq!(fault(options), expected);
    }
    let agreeing = ScanOptions {
        license_text: true,
        license_text_diagnostics: true,
        license_score: 100,
        ..licensed()
    };
    let request = request_for_native_paths(vec!["a".to_string()], &agreeing);
    assert!(validate_workflow_request(&request).is_ok());
}

#[test]
fn scans_run_the_pipeline_once_on_their_request() {
    let options = ScanOptions::default();
    let output = scan_path("src", &options, |request: ScanRequest, engine: Option<u8>| {
        assert!(engine.is_none());
        Ok(request.input_paths)
    });
    assert_eq!(output.expect("scanned"), vec!["src"]);

    let shared = scan_paths_with_license_engine(
        &vec!["a".to_string()],
        &options,
        Some(7),
        |_: ScanRequest, engine: Option<u8>| Ok(engine),
    );
    assert_eq!(shared.expect("scanned"), Some(7));

    let failed = scan_path("src", &options, |_: ScanRequest, _: Option<u8>| {
        Err::<(), String>("disk on fire".to_string())
    });
    match failed {
        Err(WorkflowError::Pipeline(message)) => assert_eq!(message, "disk on fire"),
        other => panic!("unexpected result {other:?}"),
    }

    let contradictory = ScanOptions {
        summary: true,
        ..ScanOptions::default()
    };
    let refused = scan_paths(
        &vec!["a".to_string()],
        &contradictory,
        |_: ScanRequest, _: Option<u8>| -> Result<(), String> { panic!("the pipeline does not run") },
    );
    assert_eq!(
        refused.expect_err("refused").message(),
        "summary requires classify"
    );
    let empty = scan_paths(&Vec::new(), &options, |_: ScanRequest, _: Option<u8>| Ok(()));
    assert_eq!(
        empty.expect_err("refused").message(),
        "At least one input path is required"
    );
}
