use provenant::jobs::{AsyncJobRecord, JobTable};
use provenant::routes::{
    decode_scan_request_from_http, handle_async_scan_request, handle_sync_scan_request,
    has_json_content_type, job_outcome, response_for_request, submit_response, AsyncSubmitError,
    JobOutcome,
};
use provenant::serve::{
    bind_host, check_body_length, is_valid_job_id, parse_job_route, parse_request, queue_step,
    request_lane, server_busy_response, unread_response, HeaderLine, HttpResponse, IngestError,
    IngestPolicy, JobRoute, Method, ParsedRequest, QueueOutcome, RequestLane, RequestWorkerConfig,
    ScanError, ServeArgs, ServeConfig, ServeError, ServeState, MAX_REQUEST_BODY_BYTES,
};
use provenant::workflow::WorkflowError;

fn test_request(method: Method, path: &str) -> ParsedRequest {
    ParsedRequest {
        method,
        path: path.to_string(),
        headers: Vec::new(),
        body: Vec::new(),
    }
}

fn json_request(path: &str, field: &str, value: &str, body: &str) -> ParsedRequest {
    ParsedRequest {
        method: Method::Post,
        path: path.to_string(),
        headers: vec![HeaderLine {
            field: field.to_string(),
            value: value.to_string(),
        }],
        body: body.as_bytes().to_vec(),
    }
}

fn assert_status(response: &HttpResponse, expected: u16) {
    assert_eq!(response.status, expected);
}

fn ready_state() -> ServeState {
    ServeState {
        spdx_license_list_version: "3.28".to_string(),
        tool_version: "0.1.0".to_string(),
        jobs: JobTable::new(),
        ingest_policy: IngestPolicy::allow_privileged_inputs(),
    }
}

fn ready_state_with_job(job_id: &str, record: AsyncJobRecord) -> ServeState {
    let mut state = ready_state();
    state.jobs.insert_job(job_id.to_string(), record);
    state
}

fn answer(request: &ParsedRequest, state: &ServeState) -> HttpResponse {
    response_for_request(
        request,
        state,
        |_: &Vec<u8>| -> Result<usize, String> { panic!("no scan expected") },
        |_, _| panic!("no synchronous scan expected"),
        |_: &usize, _| panic!("no asynchronous scan expected"),
        |_| panic!("no asynchronous scan expected"),
    )
}

fn config(bind: &str, allow_privileged_inputs: bool) -> Result<ServeConfig, String> {
    let args = ServeArgs {
        bind: bind.to_string(),
        allow_privileged_inputs,
    };
    let socket = match bind {
        "127.0.0.1:8080" => Some(true),
        "0.0.0.0:8080" => Some(false),
        _ => None,
    };
    ServeConfig::try_from(&args, socket, None)
}

#[test]
fn request_lane_routes_only_sync_scan_posts_to_sync_pool() {
    assert_eq!(
        request_lane(Method::Post, "/v1/scans"),
        RequestLane::SyncScan
    );
    assert_eq!(
        request_lane(Method::Post, "/v1/scans?foo=bar"),
        RequestLane::General
    );
    assert_eq!(request_lane(Method::Get, "/v1/scans"), RequestLane::General);
    assert_eq!(
        request_lane(Method::Post, "/v1/scans:async"),
        RequestLane::General
    );
    assert_eq!(request_lane(Method::Get, "/readyz"), RequestLane::General);
    assert_eq!(
        request_lane(Method::Get, "/v1/jobs/job-1"),
        RequestLane::General
    );
    assert_eq!(
        request_lane(Method::Get, "/v1/jobs/job-1/result"),
        RequestLane::General
    );
}

#[test]
fn request_worker_config_keeps_general_capacity_separate_from_sync_scans() {
    let single_cpu = RequestWorkerConfig::for_parallelism(1);
    assert_eq!(single_cpu.sync_scan_workers, 1);
    assert!(single_cpu.general_workers >= 2);
    assert!(single_cpu.general_queue_capacity >= single_cpu.general_workers);
    assert!(single_cpu.sync_scan_queue_capacity >= single_cpu.sync_scan_workers);

    let many_cpus = RequestWorkerConfig::for_parallelism(64);
    assert_eq!(many_cpus.sync_scan_workers, 1);
    assert_eq!(many_cpus.general_workers, 4);
}

#[test]
fn serve_config_requires_non_empty_bind() {
    let error = config("", false).expect_err("empty bind should fail");
    assert!(error.contains("--bind must not be empty"));
}

#[test]
fn serve_config_allows_privileged_inputs_for_loopback_bind() {
    let config = config("127.0.0.1:8080", false).expect("loopback bind should configure");
    assert!(config.ingest_policy.privileged_inputs_allowed());
}

#[test]
fn serve_config_allows_privileged_inputs_for_localhost_hostname() {
    let config = config("localhost:8080", false).expect("localhost bind should configure");
    assert!(config.ingest_policy.privileged_inputs_allowed());
}

#[test]
fn serve_config_restricts_privileged_inputs_for_non_loopback_bind() {
    let config = config("0.0.0.0:8080", false).expect("non-loopback bind should configure");
    assert!(!config.ingest_policy.privileged_inputs_allowed());
}

#[test]
fn serve_config_explicitly_allows_privileged_inputs_for_non_loopback_bind() {
    let config = config("0.0.0.0:8080", true).expect("non-loopback bind should configure");
    assert!(config.ingest_policy.privileged_inputs_allowed());
}

#[test]
fn readyz_reports_ready_metadata() {
    let response = answer(&test_request(Method::Get, "/readyz"), &ready_state());
    assert_status(&response, 200);
    assert!(response.body.contains("\"status\":\"ready\""));
    assert!(response.body.contains("\"api_version\":\"v1\""));
}

#[test]
fn async_scan_route_requires_post() {
    let response = answer(&test_request(Method::Get, "/v1/scans:async"), &ready_state());
    assert_status(&response, 405);
    assert!(response.body.contains("method_not_allowed"));
}

#[test]
fn pending_job_status_reports_pending_state() {
    let state = ready_state_with_job("job-1", AsyncJobRecord::pending());
    let response = answer(&test_request(Method::Get, "/v1/jobs/job-1"), &state);
    assert_status(&response, 200);
    assert!(response.body.contains("\"state\":\"pending\""));
    assert!(response.body.contains("\"result_ready\":false"));
}

#[test]
fn pending_job_result_reports_not_ready() {
    let state = ready_state_with_job("job-2", AsyncJobRecord::pending());
    let response = answer(&test_request(Method::Get, "/v1/jobs/job-2/result"), &state);
    assert_status(&response, 409);
    assert!(response.body.contains("job_not_ready"));
}

#[test]
fn completed_job_result_returns_stored_body() {
    let state = ready_state_with_job(
        "job-3",
        AsyncJobRecord::succeeded("{\"status\":\"ok\"}".to_string(), 2),
    );
    let response = answer(&test_request(Method::Get, "/v1/jobs/job-3/result"), &state);
    assert_status(&response, 200);
    assert_eq!(response.body, "{\"status\":\"ok\"}");
}

#[test]
fn failed_job_result_returns_failure_contract() {
    let state = ready_state_with_job(
        "job-4",
        AsyncJobRecord::failed("async scan job failed".to_string(), 500, 1),
    );
    let response = answer(&test_request(Method::Get, "/v1/jobs/job-4/result"), &state);
    assert_status(&response, 500);
    assert!(response.body.contains("job_failed"));
    assert!(response.body.contains("async scan job failed"));
}

#[test]
fn sync_scan_requires_json_content_type() {
    let state = ready_state();
    let request = test_request(Method::Post, "/v1/scans");
    let response = handle_sync_scan_request(
        &request,
        &state,
        |_: &Vec<u8>| -> Result<(), String> { panic!("the body is not decoded") },
        |_, _| panic!("no scan expected"),
    );
    assert_status(&response, 415);
    assert!(response.body.contains("unsupported_media_type"));
}

#[test]
fn unknown_path_returns_not_found() {
    let response = answer(&test_request(Method::Get, "/nonexistent"), &ready_state());
    assert_status(&response, 404);
    assert!(response.body.contains("not_found"));
}

#[test]
fn parse_job_route_rejects_empty_job_id() {
    assert!(parse_job_route("/v1/jobs/").is_none());
}

#[test]
fn parse_job_route_rejects_embedded_slashes() {
    assert!(parse_job_route("/v1/jobs/abc/def").is_none());
    assert!(parse_job_route("/v1/jobs/abc/def/result").is_none());
}

#[test]
fn failed_job_result_with_invalid_status_code_falls_back_to_500() {
    let state = ready_state_with_job(
        "job-5",
        AsyncJobRecord::failed("bad status".to_string(), 999, 1),
    );
    let response = answer(&test_request(Method::Get, "/v1/jobs/job-5/result"), &state);
    assert_status(&response, 500);
    assert!(response.body.contains("job_failed"));
}

#[test]
fn answers_have_exact_bodies() {
    let state = ready_state();
    let live = answer(&test_request(Method::Get, "/livez"), &state);
    assert_eq!(live.body, "{\"status\":\"ok\"}");
    let ready = answer(&test_request(Method::Get, "/readyz"), &state);
    assert_eq!(
        ready.body,
        "{\"status\":\"ready\",\"api_version\":\"v1\",\"spdx_license_list_version\":\"3.28\"}"
    );
    let version = answer(&test_request(Method::Get, "/version"), &state);
    assert_eq!(
        version.body,
        "{\"service\":\"provenant-serve\",\"api_version\":\"v1\",\"tool_version\":\"0.1.0\"}"
    );
    let missing = answer(&test_request(Method::Get, "/a\"b\n"), &state);
    assert_eq!(
        missing.body,
        "{\"path\":\"/a\\\"b\\n\",\"status\":\"not_found\"}"
    );
    let wrong = answer(&test_request(Method::Put, "/v1/scans"), &state);
    assert_status(&wrong, 405);
    assert_eq!(
        wrong.body,
        "{\"status\":\"method_not_allowed\",\"message\":\"use POST /v1/scans for synchronous \
         scan execution\",\"api_version\":\"v1\"}"
    );
}

#[test]
fn escaped_text_reads_back_through_serde_json() {
    let text = "tab\t quote\" backslash\\ snow\u{2603} bell\u{7}";
    let response = HttpResponse::error(400, "invalid_request", text.to_string());
    let value: serde_json::Value =
        serde_json::from_str(&response.body).expect("the body should be JSON");
    assert_eq!(value["message"].as_str(), Some(text));
    assert_eq!(value["status"].as_str(), Some("invalid_request"));
    assert_eq!(value["api_version"].as_str(), Some("v1"));
}

#[test]
fn json_strings_have_their_escapes() {
    let text = "\"\\/\u{8}\t\n\u{c}\r\u{0}\u{1f}\u{7f}\u{e9}";
    let response = HttpResponse::error(400, "invalid_request", text.to_string());
    assert_eq!(
        response.body,
        "{\"status\":\"invalid_request\",\"message\":\
         \"\\\"\\\\/\\b\\t\\n\\f\\r\\u0000\\u001f\u{7f}\u{e9}\",\"api_version\":\"v1\"}"
    );
}

#[test]
fn job_routes_lead_back_to_their_job() {
    match parse_job_route("/v1/jobs/job-1") {
        Some(JobRoute::Status(id)) => assert_eq!(id, "job-1"),
        other => panic!("unexpected route {other:?}"),
    }
    match parse_job_route("/v1/jobs/job-1/result") {
        Some(JobRoute::Result(id)) => assert_eq!(id, "job-1"),
        other => panic!("unexpected route {other:?}"),
    }
    match parse_job_route("/v1/jobs/result") {
        Some(JobRoute::Status(id)) => assert_eq!(id, "result"),
        other => panic!("unexpected route {other:?}"),
    }
    assert!(parse_job_route("/v1/jobs//result").is_none());
    assert!(parse_job_route("/v1/scans").is_none());
    assert!(is_valid_job_id("a"));
    assert!(!is_valid_job_id(""));
    assert!(!is_valid_job_id("a/b"));
}

#[test]
fn job_routes_take_get_alone() {
    let state = ready_state();
    let status = answer(&test_request(Method::Delete, "/v1/jobs/x"), &state);
    assert_status(&status, 405);
    assert!(status
        .body
        .contains("use GET /v1/jobs/x to inspect async job state"));
    let result = answer(&test_request(Method::Post, "/v1/jobs/x/result"), &state);
    assert_status(&result, 405);
    assert!(result
        .body
        .contains("use GET /v1/jobs/x/result to fetch async job output"));
}

#[test]
fn unknown_jobs_are_not_found() {
    let state = ready_state();
    for path in ["/v1/jobs/x", "/v1/jobs/x/result"] {
        let response = answer(&test_request(Method::Get, path), &state);
        assert_status(&response, 404);
        assert!(response.body.contains("async job x was not found"));
    }
}

#[test]
fn job_states_show_in_their_status() {
    let running = ready_state_with_job("j", AsyncJobRecord::running(2));
    let response = answer(&test_request(Method::Get, "/v1/jobs/j"), &running);
    assert_eq!(
        response.body,
        "{\"job_id\":\"j\",\"state\":\"running\",\"result_ready\":false,\"api_version\":\"v1\"}"
    );
    let response = answer(&test_request(Method::Get, "/v1/jobs/j/result"), &running);
    assert_status(&response, 409);
    assert!(response.body.contains("async job j is currently running"));

    let done = ready_state_with_job("j", AsyncJobRecord::succeeded("{}".to_string(), 1));
    let response = answer(&test_request(Method::Get, "/v1/jobs/j"), &done);
    assert!(response.body.contains("\"state\":\"succeeded\",\"result_ready\":true"));

    let failed = ready_state_with_job("j", AsyncJobRecord::failed(String::new(), 422, 1));
    let response = answer(&test_request(Method::Get, "/v1/jobs/j"), &failed);
    assert!(response.body.contains("\"state\":\"failed\",\"result_ready\":false"));
    let response = answer(&test_request(Method::Get, "/v1/jobs/j/result"), &failed);
    assert_status(&response, 422);
    assert!(response.body.contains("async job j failed"));
}

#[test]
fn failed_job_status_reports_its_message() {
    let record = AsyncJobRecord::failed("async scan job failed".to_string(), 500, 1);
    let state = ready_state_with_job("job-4", record);
    let response = answer(&test_request(Method::Get, "/v1/jobs/job-4"), &state);
    assert_status(&response, 200);
    assert_eq!(
        response.body,
        "{\"job_id\":\"job-4\",\"state\":\"failed\",\"result_ready\":false,\
         \"message\":\"async scan job failed\",\"api_version\":\"v1\"}"
    );
    let body: serde_json::Value = serde_json::from_str(&response.body).expect("JSON");
    assert_eq!(body["state"], "failed");
    assert_eq!(body["message"], "async scan job failed");

    let silent = ready_state_with_job("j", AsyncJobRecord::failed(String::new(), 500, 1));
    let response = answer(&test_request(Method::Get, "/v1/jobs/j"), &silent);
    assert!(response.body.contains("\"result_ready\":false,\"message\":\"\""));
    for record in [
        AsyncJobRecord::pending(),
        AsyncJobRecord::running(1),
        AsyncJobRecord::succeeded("{}".to_string(), 1),
    ] {
        let state = ready_state_with_job("j", record);
        let response = answer(&test_request(Method::Get, "/v1/jobs/j"), &state);
        assert!(!response.body.contains("message"));
    }
}

#[test]
fn failed_jobs_tell_no_internal_details() {
    let error = ServeError::Ingest(IngestError::Validation("file:///tmp/input.txt".to_string()));
    let (message, status_code) = match job_outcome(Err(error)) {
        JobOutcome::Failed { message, status_code } => (message, status_code),
        other => panic!("unexpected outcome {other:?}"),
    };
    let state = ready_state_with_job("j", AsyncJobRecord::failed(message, status_code, 1));
    let status = answer(&test_request(Method::Get, "/v1/jobs/j"), &state);
    assert_status(&status, 200);
    let body: serde_json::Value = serde_json::from_str(&status.body).expect("JSON");
    assert_eq!(body["message"], "async scan job failed");
    let result = answer(&test_request(Method::Get, "/v1/jobs/j/result"), &state);
    assert_status(&result, 422);
    let body: serde_json::Value = serde_json::from_str(&result.body).expect("JSON");
    assert_eq!(body["status"], "job_failed");
    assert_eq!(body["message"], "async scan job failed");
}

#[test]
fn a_later_record_of_a_job_replaces_the_first() {
    let mut state = ready_state_with_job("j", AsyncJobRecord::pending());
    state.jobs.insert_job("k".to_string(), AsyncJobRecord::pending());
    state
        .jobs
        .insert_job("j".to_string(), AsyncJobRecord::succeeded("done".to_string(), 1));
    let response = answer(&test_request(Method::Get, "/v1/jobs/j/result"), &state);
    assert_eq!(response.body, "done");
    let response = answer(&test_request(Method::Get, "/v1/jobs/k/result"), &state);
    assert_status(&response, 409);
}

#[test]
fn errors_have_their_status_and_kind() {
    let cases = vec![
        (
            ServeError::Ingest(IngestError::Validation("v".to_string())),
            422,
            "invalid_scan_request",
            "v",
        ),
        (
            ServeError::Ingest(IngestError::PayloadTooLarge("p".to_string())),
            413,
            "payload_too_large",
            "p",
        ),
        (
            ServeError::Ingest(IngestError::Upstream { message: "u".to_string() }),
            502,
            "upstream_error",
            "u",
        ),
        (
            ServeError::Ingest(IngestError::Internal { message: "i".to_string() }),
            500,
            "internal_error",
            "i",
        ),
        (
            ServeError::Scan(ScanError::Workflow(WorkflowError::InvalidOptions("o".to_string()))),
            422,
            "invalid_scan_request",
            "o",
        ),
        (
            ServeError::Scan(ScanError::Workflow(WorkflowError::Pipeline("l".to_string()))),
            500,
            "scan_failed",
            "l",
        ),
        (
            ServeError::Scan(ScanError::Serialization("s".to_string())),
            500,
            "scan_failed",
            "s",
        ),
    ];
    for (error, status, kind, message) in cases {
        assert_eq!(error.http_status_code(), status);
        assert_eq!(error.error_type(), kind);
        assert_eq!(error.message(), message);
        let response = HttpResponse::from_error(&error);
        assert_status(&response, status);
        assert_eq!(
            response.body,
            format!(
                "{{\"status\":\"{kind}\",\"message\":\"{message}\",\"api_version\":\"v1\"}}"
            )
        );
        match job_outcome(Err(error)) {
            JobOutcome::Failed { message, status_code } => {
                assert_eq!(message, "async scan job failed");
                assert_eq!(status_code, status);
            }
            other => panic!("unexpected outcome {other:?}"),
        }
    }
    match job_outcome(Ok("body".to_string())) {
        JobOutcome::Succeeded { result_body } => assert_eq!(result_body, "body"),
        other => panic!("unexpected outcome {other:?}"),
    }
}

#[test]
fn bodies_that_are_too_long_are_refused() {
    assert_eq!(MAX_REQUEST_BODY_BYTES, 24 * 1024 * 1024);
    assert!(check_body_length(MAX_REQUEST_BODY_BYTES).is_ok());
    let error = check_body_length(MAX_REQUEST_BODY_BYTES + 1).expect_err("one byte too many");
    assert_eq!(
        error.message(),
        format!("request body exceeds max size of {MAX_REQUEST_BODY_BYTES} bytes")
    );
    let response = unread_response(&error);
    assert_status(&response, 413);
    assert!(response.body.contains("request body exceeds max size\""));

    let other = ServeError::Ingest(IngestError::Internal {
        message: "failed to read request body".to_string(),
    });
    let response = unread_response(&other);
    assert_status(&response, 400);
    assert!(response.body.contains("invalid_request"));
    assert!(response.body.contains("failed to read request body"));

    let parsed = parse_request(Method::Get, "/livez".to_string(), Vec::new(), vec![1, 2])
        .expect("a short body is read");
    assert_eq!(parsed.body, vec![1, 2]);
    assert!(parse_request(
        Method::Post,
        "/v1/scans".to_string(),
        Vec::new(),
        vec![0; MAX_REQUEST_BODY_BYTES + 1],
    )
    .is_err());
}

#[test]
fn content_type_ignores_case_and_parameters() {
    for (field, value, expected) in [
        ("Content-Type", "application/json", true),
        ("content-type", "application/json; charset=utf-8", true),
        ("CONTENT-TYPE", "application/jsonp", true),
        ("Content-Type", "text/plain", false),
        ("Content-Type", "Application/JSON", false),
        ("Content-Typ\u{e9}", "application/json", false),
        ("X-Content-Type", "application/json", false),
    ] {
        let request = json_request("/v1/scans", field, value, "{}");
        assert_eq!(has_json_content_type(&request), expected, "{field}: {value}");
    }
}

#[test]
fn scan_requests_are_decoded() {
    let request = json_request("/v1/scans", "Content-Type", "application/json", "abc");
    let decoded = decode_scan_request_from_http(&request, "POST /v1/scans", |body: &Vec<u8>| {
        Ok(body.len())
    });
    assert_eq!(decoded.expect("decoded"), 3);
    let refused: Result<usize, HttpResponse> =
        decode_scan_request_from_http(&request, "POST /v1/scans", |_: &Vec<u8>| {
            Err("bad body".to_string())
        });
    let response = refused.expect_err("not decoded");
    assert_status(&response, 400);
    assert!(response.body.contains("\"status\":\"invalid_request\",\"message\":\"bad body\""));
    let plain = test_request(Method::Post, "/v1/scans");
    let refused: Result<usize, HttpResponse> =
        decode_scan_request_from_http(&plain, "POST /v1/scans", |_: &Vec<u8>| Ok(0));
    let response = refused.expect_err("no media type");
    assert_status(&response, 415);
    assert!(response
        .body
        .contains("POST /v1/scans requires Content-Type: application/json"));
}

#[test]
fn synchronous_scans_answer_with_their_output() {
    let state = ready_state();
    let request = json_request("/v1/scans", "Content-Type", "application/json", "in");
    let decode = |body: &Vec<u8>| Ok(body.len());
    let response = handle_sync_scan_request(&request, &state, decode, |length, policy| {
        assert!(policy.privileged_inputs);
        assert!(!policy.local_targets);
        Ok(format!("{length} bytes"))
    });
    assert_status(&response, 200);
    assert_eq!(response.body, "2 bytes");
    let response = handle_sync_scan_request(&request, &state, decode, |_, _| {
        Err(ServeError::Ingest(IngestError::Validation("no".to_string())))
    });
    assert_status(&response, 422);
}

#[test]
fn asynchronous_scans_are_checked_before_they_are_handed_in() {
    let state = ready_state();
    let request = json_request("/v1/scans:async", "Content-Type", "application/json", "in");
    let decode = |body: &Vec<u8>| Ok(body.len());
    let response = handle_async_scan_request(
        &request,
        &state,
        decode,
        |_, _| Ok(()),
        |length| Ok(format!("job of {length}")),
    );
    assert_status(&response, 202);
    assert_eq!(response.body, "job of 2");
    let response = handle_async_scan_request(
        &request,
        &state,
        decode,
        |_, _| Err(IngestError::Validation("not here".to_string())),
        |_| panic!("a refused input is not handed in"),
    );
    assert_status(&response, 422);
    let response = handle_async_scan_request(
        &request,
        &state,
        decode,
        |_, _| Ok(()),
        |_| Err(AsyncSubmitError::QueueFull),
    );
    assert_status(&response, 503);
    assert!(response.body.contains("async job queue is full; try again later"));
    assert_status(&submit_response(Err(AsyncSubmitError::QueueFull)), 503);
}

#[test]
fn scans_are_decoded_and_run_by_their_route() {
    let state = ready_state();
    let run = |request: &ParsedRequest| {
        response_for_request(
            request,
            &state,
            |body: &Vec<u8>| {
                if body.is_empty() {
                    Err("empty".to_string())
                } else {
                    Ok(body.len())
                }
            },
            |length, policy: IngestPolicy| {
                assert!(policy.privileged_inputs);
                Ok(format!("scan of {length}"))
            },
            |length: &usize, _| {
                if *length > 3 {
                    Err(IngestError::Validation("too long".to_string()))
                } else {
                    Ok(())
                }
            },
            |length| Ok(format!("job of {length}")),
        )
    };
    for (path, body, status, expected) in [
        ("/v1/scans", "in", 200, "scan of 2"),
        ("/v1/scans", "longer", 200, "scan of 6"),
        ("/v1/scans:async", "in", 202, "job of 2"),
        ("/v1/scans:async", "longer", 422, "too long"),
        ("/v1/scans", "", 400, "\"message\":\"empty\""),
        ("/v1/scans:async", "", 400, "\"message\":\"empty\""),
    ] {
        let response = run(&json_request(path, "Content-Type", "application/json", body));
        assert_status(&response, status);
        assert!(response.body.contains(expected), "{}", response.body);
    }
    for path in ["/v1/scans", "/v1/scans:async"] {
        let response = run(&test_request(Method::Post, path));
        assert_status(&response, 415);
        assert_eq!(
            response.body,
            format!(
                "{{\"status\":\"unsupported_media_type\",\"message\":\"POST {path} requires \
                 Content-Type: application/json\",\"api_version\":\"v1\"}}"
            )
        );
    }
}

#[test]
fn job_records_keep_their_processors() {
    let mut jobs = JobTable::new();
    jobs.insert_job("a".to_string(), AsyncJobRecord::running(4));
    jobs.insert_job("b".to_string(), AsyncJobRecord::pending());
    jobs.insert_job("c".to_string(), AsyncJobRecord::succeeded("done".to_string(), 2));
    assert_eq!(jobs.get_job("a").expect("a job").allocated_processors, 4);
    assert_eq!(jobs.get_job("b").expect("a job").allocated_processors, 0);
    assert_eq!(jobs.get_job("c").expect("a job").allocated_processors, 2);
    jobs.insert_job("a".to_string(), AsyncJobRecord::failed("no".to_string(), 500, 3));
    assert_eq!(jobs.get_job("a").expect("a job").allocated_processors, 3);
    assert!(jobs.get_job("d").is_none());
}

#[test]
fn full_queues_are_told() {
    let (response, error) = queue_step(QueueOutcome::Sent, "general", "busy");
    assert!(response.is_none() && error.is_none());
    let (response, error) = queue_step(QueueOutcome::Full, "general", "busy");
    assert_status(&response.expect("an answer"), 503);
    assert!(error.is_none());
    let (response, error) = queue_step(QueueOutcome::Disconnected, "sync-scan", "busy");
    assert!(response.expect("an answer").body.contains("server_busy"));
    assert_eq!(
        error.expect("an error"),
        "serve sync-scan request workers stopped"
    );
    assert!(server_busy_response("later").body.contains("\"message\":\"later\""));
}

#[test]
fn hosts_of_addresses() {
    assert_eq!(bind_host("localhost:8080").as_deref(), Some("localhost"));
    assert_eq!(bind_host("[::1]:80").as_deref(), Some("::1"));
    assert_eq!(bind_host(" [::1] :80").as_deref(), Some("::1"));
    assert_eq!(bind_host("localhost"), None);
    let args = ServeArgs {
        bind: "[::1] :80".to_string(),
        allow_privileged_inputs: false,
    };
    let open = ServeConfig::try_from(&args, None, Some(true)).expect("configured");
    assert_eq!(open.ingest_policy, IngestPolicy::allow_privileged_inputs());
    let closed = ServeConfig::try_from(&args, None, Some(false)).expect("configured");
    assert_eq!(closed.ingest_policy, IngestPolicy::upload_only());
    assert!(ServeConfig::try_from(
        &ServeArgs {
            bind: "  \t".to_string(),
            allow_privileged_inputs: true,
        },
        None,
        None,
    )
    .is_err());
    let upper = config("LOCALHOST:1", false).expect("configured");
    assert_eq!(upper.ingest_policy, IngestPolicy::allow_privileged_inputs());
    let trusted = config("0.0.0.0:8080", true).expect("configured");
    assert_eq!(trusted.ingest_policy, IngestPolicy::trust_local_targets());
    assert_eq!(trusted.bind, "0.0.0.0:8080");
    let copy = trusted.clone();
    assert_eq!(copy.bind, trusted.bind);
    assert_eq!(copy.ingest_policy, trusted.ingest_policy);
    let nameless = config("localhost", false).expect("configured");
    assert!(!nameless.ingest_policy.privileged_inputs_allowed());
}

#[test]
fn workers_follow_the_processors() {
    let three = RequestWorkerConfig::for_parallelism(3);
    assert_eq!(three.general_workers, 3);
    assert_eq!(three.general_queue_capacity, 48);
    assert_eq!(three.sync_scan_queue_capacity, 4);
    assert_eq!(RequestWorkerConfig::for_parallelism(0).general_workers, 2);
}
