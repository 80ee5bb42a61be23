//! Which request the scan server answers how.
use vstd::prelude::*;

use crate::jobs;
use crate::json;
use crate::json::Member;
use crate::serve;
use crate::serve::{
    HeaderLine, HttpResponse, IngestError, IngestPolicy, JobRoute, Method, ParsedRequest,
    ServeError, ServeState,
};
use crate::text;

verus! {

/// All characters are ASCII.
pub open spec fn all_ascii(s: Seq<char>) -> bool {
    forall|i: int| 0 <= i < s.len() ==> (#[trigger] s[i] as u32) < 128
}

/// A header has a name. Names are ASCII, and their case does not matter.
pub open spec fn is_field(field: Seq<char>, name: Seq<char>) -> bool {
    all_ascii(field) && text::lower(field) == text::lower(name)
}

/// `tiny_http::HeaderField::equiv` of a header field: whether it is the name,
/// where the case of ASCII letters does not matter. A field that is not ASCII is
/// no field, and no name.
#[verifier::external_body]
fn field_equiv(field: &str, name: &'static str) -> (r: bool)
    ensures
        r == is_field(field@, name@),
{
    match tiny_http::HeaderField::from_bytes(field) {
        Ok(known) => known.equiv(name),
        Err(_) => false,
    }
}

/// A header says that the body is JSON.
pub open spec fn declares_json(h: HeaderLine) -> bool {
    is_field(h.field@, "Content-Type"@) && text::begins_with(h.value@, "application/json"@)
}

/// A header of the request says that its body is JSON.
pub open spec fn has_json_body(request: ParsedRequest) -> bool {
    exists|i: int|
        0 <= i < request.headers@.len() && declares_json(#[trigger] request.headers@[i])
}

/// Whether a header of the request says that its body is JSON.
pub fn has_json_content_type(request: &ParsedRequest) -> (r: bool)
    ensures
        r == has_json_body(*request),
{
    let media_type = text::to_chars("application/json");
    let mut i: usize = 0;
    while i < request.headers.len()
        invariant
            i <= request.headers@.len(),
            media_type@ == "application/json"@,
            forall|j: int| 0 <= j < i ==> !declares_json(#[trigger] request.headers@[j]),
        decreases request.headers@.len() - i,
    {
        let value = text::to_chars(request.headers[i].value.as_str());
        if field_equiv(request.headers[i].field.as_str(), "Content-Type") && text::starts_with(
            &value,
            &media_type,
        ) {
            assert(declares_json(request.headers@[i as int]));
            return true;
        }
        i = i + 1;
    }
    false
}

/// The answer to a scan request whose body is not JSON.
pub open spec fn not_json_answer(route_label: Seq<char>) -> serve::ResponseView {
    serve::error_answer(
        415,
        "unsupported_media_type"@,
        route_label + " requires Content-Type: application/json"@,
    )
}

/// The answer to a scan request that could not be decoded.
pub open spec fn undecoded_answer(message: Seq<char>) -> serve::ResponseView {
    serve::error_answer(400, "invalid_request"@, message)
}

/// The scan that a request asks for. The body is decoded where a header says that it
/// is JSON, and not before.
pub fn decode_scan_request_from_http<'a, R, D>(
    request: &'a ParsedRequest,
    route_label: &str,
    decode: D,
) -> (r: Result<R, HttpResponse>) where D: FnOnce(&'a Vec<u8>) -> Result<R, String>
    requires
        has_json_body(*request) ==> call_requires(decode, (&request.body,)),
    ensures
        !has_json_body(*request) ==> r is Err && r->Err_0@ == not_json_answer(route_label@),
        has_json_body(*request) ==> exists|decoded: Result<R, String>|
            {
                &&& #[trigger] call_ensures(decode, (&request.body,), decoded)
                &&& decoded is Ok ==> r is Ok && r->Ok_0 == decoded->Ok_0
                &&& decoded is Err ==> r is Err && r->Err_0@ == undecoded_answer(decoded->Err_0@)
            },
{
    if !has_json_content_type(request) {
        let mut message = route_label.to_owned();
        message.append(" requires Content-Type: application/json");
        return Err(HttpResponse::error(415, "unsupported_media_type", message));
    }
    let decoded = decode(&request.body);
    let ghost came = decoded;
    assert(call_ensures(decode, (&request.body,), came));
    match decoded {
        Ok(scan) => Ok(scan),
        Err(message) => Err(HttpResponse::error(400, "invalid_request", message)),
    }
}

/// The body of a request is JSON, and `decode` may read it as a scan.
pub open spec fn decoded_as<'a, R, D>(request: &'a ParsedRequest, decode: D, scan: R) -> bool where
    D: FnOnce(&'a Vec<u8>) -> Result<R, String>,
 {
    has_json_body(*request) && call_ensures(decode, (&request.body,), Ok::<R, String>(scan))
}

/// The input of a scan may pass the check of what the server takes.
pub open spec fn passes<R, V>(scan: R, policy: IngestPolicy, validate_input: V) -> bool where
    V: FnOnce(&R, IngestPolicy) -> Result<(), IngestError>,
 {
    call_ensures(validate_input, (&scan, policy), Ok::<(), IngestError>(()))
}

/// The answer that a scan gives.
pub open spec fn scan_answer(outcome: Result<String, ServeError>) -> serve::ResponseView {
    match outcome {
        Ok(body) => serve::ResponseView { status: 200, body: body@ },
        Err(e) => serve::failure_answer(e),
    }
}

/// The answer that a scan gives.
pub fn scan_response(outcome: Result<String, ServeError>) -> (r: HttpResponse)
    ensures
        r@ == scan_answer(outcome),
{
    match outcome {
        Ok(body) => HttpResponse { status: 200, body },
        Err(error) => HttpResponse::from_error(&error),
    }
}

/// The answer to a scan that the client waits for: the scan is decoded where the
/// body is JSON, and what was decoded is run.
pub open spec fn sync_answered<'a, R, D, X>(
    r: HttpResponse,
    request: &'a ParsedRequest,
    state: ServeState,
    decode: D,
    execute: X,
) -> bool where
    D: FnOnce(&'a Vec<u8>) -> Result<R, String>,
    X: FnOnce(R, IngestPolicy) -> Result<String, ServeError>,
 {
    if has_json_body(*request) {
        exists|decoded: Result<R, String>|
            {
                &&& #[trigger] call_ensures(decode, (&request.body,), decoded)
                &&& decoded is Err ==> r@ == undecoded_answer(decoded->Err_0@)
                &&& decoded is Ok ==> exists|outcome: Result<String, ServeError>|
                    #[trigger] call_ensures(
                        execute,
                        (decoded->Ok_0, state.ingest_policy),
                        outcome,
                    ) && r@ == scan_answer(outcome)
            }
    } else {
        r@ == not_json_answer("POST /v1/scans"@)
    }
}

/// Answers a scan that the client waits for: it is decoded, and run with the
/// inputs that the server takes.
pub fn handle_sync_scan_request<'a, R, D, X>(
    request: &'a ParsedRequest,
    state: &ServeState,
    decode: D,
    execute: X,
) -> (r: HttpResponse) where
    D: FnOnce(&'a Vec<u8>) -> Result<R, String>,
    X: FnOnce(R, IngestPolicy) -> Result<String, ServeError>,

    requires
        has_json_body(*request) ==> call_requires(decode, (&request.body,)),
        forall|scan: R| #[trigger]
            decoded_as(request, decode, scan) ==> call_requires(
                execute,
                (scan, state.ingest_policy),
            ),
    ensures
        sync_answered(r, request, *state, decode, execute),
{
    let scan = match decode_scan_request_from_http(request, "POST /v1/scans", decode) {
        Ok(scan) => scan,
        Err(response) => return response,
    };
    let ghost asked = scan;
    assert(decoded_as(request, decode, asked));
    let outcome = execute(scan, state.ingest_policy);
    let ghost came = outcome;
    assert(call_ensures(execute, (asked, state.ingest_policy), came));
    scan_response(outcome)
}

/// Why a job was not taken.
#[derive(Clone, Copy, Debug, PartialEq, Eq, Structural)]
pub enum AsyncSubmitError {
    QueueFull,
}

/// The answer to a job that was handed in: its first state, or that the queue is
/// full.
pub open spec fn submit_answer(outcome: Result<String, AsyncSubmitError>) -> serve::ResponseView {
    match outcome {
        Ok(body) => serve::ResponseView { status: 202, body: body@ },
        Err(AsyncSubmitError::QueueFull) => serve::error_answer(
            503,
            "server_busy"@,
            "async job queue is full; try again later"@,
        ),
    }
}

/// The answer to a job that was handed in.
pub fn submit_response(outcome: Result<String, AsyncSubmitError>) -> (r: HttpResponse)
    ensures
        r@ == submit_answer(outcome),
{
    match outcome {
        Ok(body) => HttpResponse { status: 202, body },
        Err(AsyncSubmitError::QueueFull) => HttpResponse::error(
            503,
            "server_busy",
            "async job queue is full; try again later".to_owned(),
        ),
    }
}

/// What became of a scan that was decoded and may run as a job.
pub open spec fn submitted<R, S>(
    r: HttpResponse,
    scan: R,
    checked: Result<(), IngestError>,
    submit: S,
) -> bool where S: FnOnce(R) -> Result<String, AsyncSubmitError> {
    match checked {
        Err(e) => r@ == serve::failure_answer(ServeError::Ingest(e)),
        Ok(_) => exists|outcome: Result<String, AsyncSubmitError>|
            #[trigger] call_ensures(submit, (scan,), outcome) && r@ == submit_answer(outcome),
    }
}

/// The answer to a scan that is to run as a job: the scan is decoded where the
/// body is JSON, what was decoded is held against what the server takes, and what
/// it takes is handed in.
pub open spec fn async_answered<'a, R, D, V, S>(
    r: HttpResponse,
    request: &'a ParsedRequest,
    state: ServeState,
    decode: D,
    validate_input: V,
    submit: S,
) -> bool where
    D: FnOnce(&'a Vec<u8>) -> Result<R, String>,
    V: FnOnce(&R, IngestPolicy) -> Result<(), IngestError>,
    S: FnOnce(R) -> Result<String, AsyncSubmitError>,
 {
    if has_json_body(*request) {
        exists|decoded: Result<R, String>|
            {
                &&& #[trigger] call_ensures(decode, (&request.body,), decoded)
                &&& decoded is Err ==> r@ == undecoded_answer(decoded->Err_0@)
                &&& decoded is Ok ==> exists|checked: Result<(), IngestError>|
                    #[trigger] call_ensures(
                        validate_input,
                        (&decoded->Ok_0, state.ingest_policy),
                        checked,
                    ) && submitted(r, decoded->Ok_0, checked, submit)
            }
    } else {
        r@ == not_json_answer("POST /v1/scans:async"@)
    }
}

/// Answers a scan that runs as a job: it is decoded, its input is held against
/// what the server takes, and only then it is handed in.
pub fn handle_async_scan_request<'a, R, D, V, S>(
    request: &'a ParsedRequest,
    state: &ServeState,
    decode: D,
    validate_input: V,
    submit: S,
) -> (r: HttpResponse) where
    D: FnOnce(&'a Vec<u8>) -> Result<R, String>,
    V: FnOnce(&R, IngestPolicy) -> Result<(), IngestError>,
    S: FnOnce(R) -> Result<String, AsyncSubmitError>,

    requires
        has_json_body(*request) ==> call_requires(decode, (&request.body,)),
        forall|scan: R| #[trigger]
            decoded_as(request, decode, scan) ==> call_requires(
                validate_input,
                (&scan, state.ingest_policy),
            ),
        forall|scan: R| #[trigger]
            decoded_as(request, decode, scan) && passes(scan, state.ingest_policy, validate_input)
                ==> call_requires(submit, (scan,)),
    ensures
        async_answered(r, request, *state, decode, validate_input, submit),
{
    let scan = match decode_scan_request_from_http(request, "POST /v1/scans:async", decode) {
        Ok(scan) => scan,
        Err(response) => return response,
    };
    let ghost asked = scan;
    assert(decoded_as(request, decode, asked));
    let checked = validate_input(&scan, state.ingest_policy);
    let ghost found = checked;
    assert(call_ensures(validate_input, (&asked, state.ingest_policy), found));
    if let Err(error) = checked {
        return HttpResponse::from_error(&ServeError::Ingest(error));
    }
    assert(found is Ok && found->Ok_0 == ());
    assert(passes(asked, state.ingest_policy, validate_input));
    let outcome = submit(scan);
    let ghost came = outcome;
    assert(call_ensures(submit, (asked,), came));
    let r = submit_response(outcome);
    assert(submitted(r, asked, found, submit));
    r
}

/// A scan whose input is refused is answered with an error, and is not taken as a
/// job.
pub proof fn law_refused_input_is_no_job<'a, R, D, V, S>(
    r: HttpResponse,
    request: &'a ParsedRequest,
    state: ServeState,
    decode: D,
    validate_input: V,
    submit: S,
) where
    D: FnOnce(&'a Vec<u8>) -> Result<R, String>,
    V: FnOnce(&R, IngestPolicy) -> Result<(), IngestError>,
    S: FnOnce(R) -> Result<String, AsyncSubmitError>,

    requires
        async_answered(r, request, state, decode, validate_input, submit),
        forall|scan: R| #[trigger]
            decoded_as(request, decode, scan) ==> !passes(
                scan,
                state.ingest_policy,
                validate_input,
            ),
    ensures
        400 <= r@.status < 600,
{
    if has_json_body(*request) {
        let decoded = choose|decoded: Result<R, String>|
            {
                &&& #[trigger] call_ensures(decode, (&request.body,), decoded)
                &&& decoded is Err ==> r@ == undecoded_answer(decoded->Err_0@)
                &&& decoded is Ok ==> exists|checked: Result<(), IngestError>|
                    #[trigger] call_ensures(
                        validate_input,
                        (&decoded->Ok_0, state.ingest_policy),
                        checked,
                    ) && submitted(r, decoded->Ok_0, checked, submit)
            };
        if let Ok(scan) = decoded {
            assert(decoded_as(request, decode, scan));
            let checked = choose|checked: Result<(), IngestError>|
                #[trigger] call_ensures(
                    validate_input,
                    (&scan, state.ingest_policy),
                    checked,
                ) && submitted(r, scan, checked, submit);
            if checked is Ok {
                assert(checked->Ok_0 == ());
                assert(passes(scan, state.ingest_policy, validate_input));
            }
        }
    }
}

/// How a job ended.
#[derive(Debug)]
pub enum JobOutcome {
    Succeeded { result_body: String },
    Failed { message: String, status_code: u16 },
}

/// How a job ended, from what its scan gave. What went wrong is not told, only
/// its status.
pub open spec fn outcome_view(result: Result<String, ServeError>) -> jobs::JobView {
    match result {
        Ok(body) => jobs::JobView::Succeeded { result_body: body@ },
        Err(e) => jobs::JobView::Failed {
            message: "async scan job failed"@,
            status_code: serve::status_of(e),
        },
    }
}

impl View for JobOutcome {
    type V = jobs::JobView;

    open spec fn view(&self) -> jobs::JobView {
        match self {
            JobOutcome::Succeeded { result_body } => jobs::JobView::Succeeded {
                result_body: result_body@,
            },
            JobOutcome::Failed { message, status_code } => jobs::JobView::Failed {
                message: message@,
                status_code: *status_code,
            },
        }
    }
}

/// How a job ended, from what its scan gave.
pub fn job_outcome(result: Result<String, ServeError>) -> (r: JobOutcome)
    ensures
        r@ == outcome_view(result),
{
    match result {
        Ok(result_body) => JobOutcome::Succeeded { result_body },
        Err(error) => JobOutcome::Failed {
            message: "async scan job failed".to_owned(),
            status_code: error.http_status_code(),
        },
    }
}

/// The body of the answer that the server lives.
pub open spec fn live_body(status: Seq<char>) -> Seq<char> {
    json::object_text(seq![("status"@, status)])
}

/// The body of the answer that the server is ready.
pub open spec fn ready_body(status: Seq<char>, version: Seq<char>, spdx_version: Seq<char>) -> Seq<
    char,
> {
    json::object_text(
        seq![
            ("status"@, status),
            ("api_version"@, version),
            ("spdx_license_list_version"@, spdx_version),
        ],
    )
}

/// The body of the answer that names the versions.
pub open spec fn version_body(service: Seq<char>, version: Seq<char>, tool: Seq<char>) -> Seq<char> {
    json::object_text(
        seq![("service"@, service), ("api_version"@, version), ("tool_version"@, tool)],
    )
}

/// The body of the answer about a path that there is nothing at.
pub open spec fn not_found_body(path: Seq<char>, status: Seq<char>) -> Seq<char> {
    json::object_text(seq![("path"@, path), ("status"@, status)])
}

/// What a request gets: an answer, or a scan.
pub enum Answer {
    Ready(serve::ResponseView),
    SyncScan,
    AsyncScan,
}

/// The answer about a method that the path does not take.
pub open spec fn wrong_method(message: Seq<char>) -> Answer {
    Answer::Ready(serve::error_answer(405, "method_not_allowed"@, message))
}

/// What a request about a job gets.
pub open spec fn job_answer(method: Method, route: serve::RouteView, state: ServeState) -> Answer {
    match route {
        serve::RouteView::Status(id) => if method == Method::Get {
            Answer::Ready(serve::job_status_answer(id, state.jobs@))
        } else {
            wrong_method("use GET /v1/jobs/"@ + id + " to inspect async job state"@)
        },
        serve::RouteView::Result(id) => if method == Method::Get {
            Answer::Ready(serve::job_result_answer(id, state.jobs@))
        } else {
            wrong_method("use GET /v1/jobs/"@ + id + "/result to fetch async job output"@)
        },
    }
}

/// What a request gets.
pub open spec fn answer_for(method: Method, path: Seq<char>, state: ServeState) -> Answer {
    if serve::job_route(path) is Some {
        job_answer(method, serve::job_route(path)->0, state)
    } else if method == Method::Get && path == "/livez"@ {
        Answer::Ready(
            serve::ResponseView { status: 200, body: live_body(json::json_text("ok"@)) },
        )
    } else if method == Method::Get && path == "/readyz"@ {
        Answer::Ready(
            serve::ResponseView {
                status: 200,
                body: ready_body(
                    json::json_text("ready"@),
                    json::json_text(serve::API_VERSION@),
                    json::json_text(state.spdx_license_list_version@),
                ),
            },
        )
    } else if method == Method::Get && path == "/version"@ {
        Answer::Ready(
            serve::ResponseView {
                status: 200,
                body: version_body(
                    json::json_text("provenant-serve"@),
                    json::json_text(serve::API_VERSION@),
                    json::json_text(state.tool_version@),
                ),
            },
        )
    } else if path == "/v1/scans"@ {
        if method == Method::Post {
            Answer::SyncScan
        } else {
            wrong_method("use POST /v1/scans for synchronous scan execution"@)
        }
    } else if path == "/v1/scans:async"@ {
        if method == Method::Post {
            Answer::AsyncScan
        } else {
            wrong_method("use POST /v1/scans:async for asynchronous scan submission"@)
        }
    } else {
        Answer::Ready(
            serve::ResponseView {
                status: 404,
                body: not_found_body(json::json_text(path), json::json_text("not_found"@)),
            },
        )
    }
}

/// The body of the answer that the server lives, from its part as a JSON string.
pub fn frame_live(status: String) -> (r: String)
    ensures
        r@ == live_body(status@),
{
    let mut members: Vec<Member> = Vec::new();
    members.push(Member { name: "status", value: status });
    assert(json::member_views(members@) == seq![("status"@, status@)]);
    json::frame_object(&members)
}

/// The body of the answer that the server is ready, from its parts as JSON strings.
pub fn frame_ready(status: String, version: String, spdx_version: String) -> (r: String)
    ensures
        r@ == ready_body(status@, version@, spdx_version@),
{
    let mut members: Vec<Member> = Vec::new();
    members.push(Member { name: "status", value: status });
    members.push(Member { name: "api_version", value: version });
    members.push(Member { name: "spdx_license_list_version", value: spdx_version });
    assert(json::member_views(members@) == seq![
        ("status"@, status@),
        ("api_version"@, version@),
        ("spdx_license_list_version"@, spdx_version@),
    ]);
    json::frame_object(&members)
}

/// The body of the answer that names the versions, from its parts as JSON strings.
pub fn frame_version(service: String, version: String, tool: String) -> (r: String)
    ensures
        r@ == version_body(service@, version@, tool@),
{
    let mut members: Vec<Member> = Vec::new();
    members.push(Member { name: "service", value: service });
    members.push(Member { name: "api_version", value: version });
    members.push(Member { name: "tool_version", value: tool });
    assert(json::member_views(members@) == seq![
        ("service"@, service@),
        ("api_version"@, version@),
        ("tool_version"@, tool@),
    ]);
    json::frame_object(&members)
}

/// The body of the answer about a path that there is nothing at, from its parts
/// as JSON strings.
pub fn frame_not_found(path: String, status: String) -> (r: String)
    ensures
        r@ == not_found_body(path@, status@),
{
    let mut members: Vec<Member> = Vec::new();
    members.push(Member { name: "path", value: path });
    members.push(Member { name: "status", value: status });
    assert(json::member_views(members@) == seq![("path"@, path@), ("status"@, status@)]);
    json::frame_object(&members)
}

fn method_not_allowed(message: String) -> (r: HttpResponse)
    ensures
        Answer::Ready(r@) == wrong_method(message@),
{
    HttpResponse::error(405, "method_not_allowed", message)
}

fn job_response(method: Method, route: &JobRoute, state: &ServeState) -> (r: HttpResponse)
    ensures
        Answer::Ready(r@) == job_answer(method, route@, *state),
{
    match route {
        JobRoute::Status(id) => if method == Method::Get {
            serve::handle_job_status_request(id.as_str(), state)
        } else {
            method_not_allowed(
                serve::around("use GET /v1/jobs/", id.as_str(), " to inspect async job state"),
            )
        },
        JobRoute::Result(id) => if method == Method::Get {
            serve::handle_job_result_request(id.as_str(), state)
        } else {
            method_not_allowed(
                serve::around(
                    "use GET /v1/jobs/",
                    id.as_str(),
                    "/result to fetch async job output",
                ),
            )
        },
    }
}

/// Answers a request. A scan that it asks for is decoded by `decode`. Where the
/// client waits for it, `execute` runs it; else it is checked by `validate_input`
/// and handed in by `submit`. Nothing is decoded for any other request, and
/// nothing is handed in that the check refused.
pub fn response_for_request<'a, R, D, X, V, S>(
    request: &'a ParsedRequest,
    state: &ServeState,
    decode: D,
    execute: X,
    validate_input: V,
    submit: S,
) -> (r: HttpResponse) where
    D: FnOnce(&'a Vec<u8>) -> Result<R, String>,
    X: FnOnce(R, IngestPolicy) -> Result<String, ServeError>,
    V: FnOnce(&R, IngestPolicy) -> Result<(), IngestError>,
    S: FnOnce(R) -> Result<String, AsyncSubmitError>,

    requires
        !(answer_for(request.method, request.path@, *state) is Ready) && has_json_body(*request)
            ==> call_requires(decode, (&request.body,)),
        answer_for(request.method, request.path@, *state) is SyncScan ==> forall|scan: R| #[trigger]
            decoded_as(request, decode, scan) ==> call_requires(
                execute,
                (scan, state.ingest_policy),
            ),
        answer_for(request.method, request.path@, *state) is AsyncScan ==> forall|scan: R|
            #[trigger] decoded_as(request, decode, scan) ==> call_requires(
                validate_input,
                (&scan, state.ingest_policy),
            ),
        answer_for(request.method, request.path@, *state) is AsyncScan ==> forall|scan: R|
            #[trigger] decoded_as(request, decode, scan) && passes(
                scan,
                state.ingest_policy,
                validate_input,
            ) ==> call_requires(submit, (scan,)),
    ensures
        match answer_for(request.method, request.path@, *state) {
            Answer::Ready(answer) => r@ == answer,
            Answer::SyncScan => sync_answered(r, request, *state, decode, execute),
            Answer::AsyncScan => async_answered(
                r,
                request,
                *state,
                decode,
                validate_input,
                submit,
            ),
        },
{
    if let Some(route) = serve::parse_job_route(request.path.as_str()) {
        return job_response(request.method, &route, state);
    }
    let path = request.path.as_str();
    if request.method == Method::Get && text::same_str(path, "/livez") {
        return HttpResponse { status: 200, body: frame_live(json::json_string("ok")) };
    }
    if request.method == Method::Get && text::same_str(path, "/readyz") {
        return HttpResponse {
            status: 200,
            body: frame_ready(
                json::json_string("ready"),
                json::json_string(serve::API_VERSION),
                json::json_string(state.spdx_license_list_version.as_str()),
            ),
        };
    }
    if request.method == Method::Get && text::same_str(path, "/version") {
        return HttpResponse {
            status: 200,
            body: frame_version(
                json::json_string("provenant-serve"),
                json::json_string(serve::API_VERSION),
                json::json_string(state.tool_version.as_str()),
            ),
        };
    }
    if text::same_str(path, "/v1/scans") {
        return if request.method == Method::Post {
            handle_sync_scan_request(request, state, decode, execute)
        } else {
            method_not_allowed("use POST /v1/scans for synchronous scan execution".to_owned())
        };
    }
    if text::same_str(path, "/v1/scans:async") {
        return if request.method == Method::Post {
            handle_async_scan_request(request, state, decode, validate_input, submit)
        } else {
            method_not_allowed(
                "use POST /v1/scans:async for asynchronous scan submission".to_owned(),
            )
        };
    }
    HttpResponse {
        status: 404,
        body: frame_not_found(json::json_string(path), json::json_string("not_found")),
    }
}

/// The lane for scans that a client waits for takes just the requests that are
/// answered by such a scan.
pub proof fn law_lane_is_for_sync_scans(method: Method, path: Seq<char>, state: ServeState)
    ensures
        (serve::lane_of(method, path) == serve::RequestLane::SyncScan) == (answer_for(
            method,
            path,
            state,
        ) is SyncScan),
{
    reveal_strlit("/v1/jobs/");
    reveal_strlit("/v1/scans");
    if path == "/v1/scans"@ {
        assert(path[4] == 's');
        assert("/v1/jobs/"@[4] == 'j');
        assert(!text::begins_with(path, "/v1/jobs/"@)) by {
            if text::begins_with(path, "/v1/jobs/"@) {
                assert(path.subrange(0, 9)[4] == path[4]);
            }
        }
    }
}

/// The paths of a job lead back to it.
pub proof fn law_job_routes_lead_back(id: Seq<char>)
    requires
        serve::valid_job_id(id),
    ensures
        serve::job_route("/v1/jobs/"@ + id) == Some(serve::RouteView::Status(id)),
        serve::job_route("/v1/jobs/"@ + id + "/result"@) == Some(serve::RouteView::Result(id)),
{
    let prefix = "/v1/jobs/"@;
    let suffix = "/result"@;
    reveal_strlit("/result");
    let status = prefix + id;
    assert(text::begins_with(status, prefix)) by {
        assert(status.take(prefix.len() as int) == prefix);
        assert(status.subrange(0, prefix.len() as int) == prefix);
    }
    assert(status.skip(prefix.len() as int) == id);
    if text::finishes_with(id, suffix) {
        assert(id.subrange(id.len() - 7, id.len() as int)[0] == id[id.len() - 7]);
        assert(id.skip(id.len() - 7)[0] == id[id.len() - 7]);
        assert(suffix[0] == '/');
        assert(id.contains('/'));
    }
    let result = prefix + id + suffix;
    assert(text::begins_with(result, prefix)) by {
        assert(result.take(prefix.len() as int) == prefix);
        assert(result.subrange(0, prefix.len() as int) == prefix);
    }
    let rest = result.skip(prefix.len() as int);
    assert(rest == id + suffix);
    assert(text::finishes_with(rest, suffix)) by {
        assert(rest.skip(rest.len() - suffix.len()) == suffix);
        assert(rest.subrange(rest.len() - suffix.len(), rest.len() as int) == suffix);
    }
    assert(rest.take(rest.len() - suffix.len()) == id);
}

/// The identifier that a path leads to is a valid one, and stands in the path behind
/// that of the jobs, before nothing but the word for the result.
pub proof fn law_routed_ids_are_valid(path: Seq<char>)
    ensures
        match serve::job_route(path) {
            Some(serve::RouteView::Status(id)) => id.len() > 0 && !id.contains('/') && path
                == "/v1/jobs/"@ + id,
            Some(serve::RouteView::Result(id)) => id.len() > 0 && !id.contains('/') && path
                == "/v1/jobs/"@ + id + "/result"@,
            None => true,
        },
{
    let prefix = "/v1/jobs/"@;
    let suffix = "/result"@;
    if serve::job_route(path) is Some {
        let rest = path.skip(prefix.len() as int);
        assert(path.take(prefix.len() as int) == prefix);
        assert(path =~= prefix + rest);
        if text::finishes_with(rest, suffix) {
            let id = rest.take(rest.len() - suffix.len());
            assert(rest =~= id + suffix);
            assert(path =~= prefix + id + suffix);
        }
    }
}

/// The status of an error is an error status, so that a job that fails with it is
/// answered with it.
pub proof fn law_failed_job_keeps_status(
    e: ServeError,
    id: Seq<char>,
    jobs_known: Map<Seq<char>, jobs::RecordView>,
)
    requires
        jobs_known.contains_key(id),
        jobs_known[id].state == outcome_view(Err(e)),
    ensures
        400 <= serve::status_of(e) < 600,
        serve::job_result_answer(id, jobs_known) == serve::error_answer(
            serve::status_of(e),
            "job_failed"@,
            "async scan job failed"@,
        ),
{
    reveal_strlit("async scan job failed");
}

/// The state of a job that failed is told with one message, whatever went wrong.
pub proof fn law_failed_job_shows_message(
    e: ServeError,
    id: Seq<char>,
    jobs_known: Map<Seq<char>, jobs::RecordView>,
)
    requires
        jobs_known.contains_key(id),
        jobs_known[id].state == outcome_view(Err(e)),
    ensures
        serve::job_status_answer(id, jobs_known) == (serve::ResponseView {
            status: 200,
            body: serve::status_body(
                json::json_text(id),
                json::json_text("failed"@),
                false,
                Some(json::json_text("async scan job failed"@)),
                json::json_text(serve::API_VERSION@),
            ),
        }),
{
}

/// A job that succeeds gives back what its scan gave.
pub proof fn law_job_gives_back_result(
    body: String,
    id: Seq<char>,
    jobs_known: Map<Seq<char>, jobs::RecordView>,
)
    requires
        jobs_known.contains_key(id),
        jobs_known[id].state == outcome_view(Ok(body)),
    ensures
        serve::job_result_answer(id, jobs_known) == (serve::ResponseView {
            status: 200,
            body: body@,
        }),
        serve::job_result_answer(id, jobs_known) == scan_answer(Ok(body)),
{
}

/// What a failed job tells does not depend on what went wrong beyond its status.
pub proof fn law_failed_jobs_tell_status_alone(a: ServeError, b: ServeError)
    requires
        serve::status_of(a) == serve::status_of(b),
    ensures
        outcome_view(Err(a)) == outcome_view(Err(b)),
{
}

/// Where the state of a job says that its result is ready, and only there, the
/// request for the result is answered with success.
pub proof fn law_ready_means_result(id: Seq<char>, jobs_known: Map<Seq<char>, jobs::RecordView>)
    requires
        jobs_known.contains_key(id),
    ensures
        (jobs_known[id].state is Succeeded) == (serve::job_result_answer(id, jobs_known).status == 200),
{
}

/// Inputs other than uploads are taken only where the server is bound to the
/// machine itself or the operator opens it, and local addresses only where the
/// operator does.
pub proof fn law_inputs_need_trust(
    bind: Seq<char>,
    allow_privileged_inputs: bool,
    socket: Option<bool>,
    host: Option<bool>,
)
    ensures
        ({
            let policy = serve::policy_for(bind, allow_privileged_inputs, socket, host);
            &&& policy.local_targets == allow_privileged_inputs
            &&& policy.privileged_inputs == (allow_privileged_inputs || serve::of_this_machine(
                bind,
                socket,
                host,
            ))
        }),
{
}

/// A request that needs no scan is answered with success or with an error of
/// HTTP.
pub proof fn law_answers_have_http_status(method: Method, path: Seq<char>, state: ServeState)
    ensures
        match answer_for(method, path, state) {
            Answer::Ready(answer) => answer.status == 200 || 400 <= answer.status < 600,
            _ => true,
        },
{
}

/// Whatever the state of the server: it says that it lives and that it is ready to
/// whoever gets the paths for that, with its versions.
pub proof fn law_health_is_told(state: ServeState)
    ensures
        answer_for(Method::Get, "/livez"@, state) == Answer::Ready(
            serve::ResponseView {
                status: 200,
                body: json::object_text(seq![("status"@, json::json_text("ok"@))]),
            },
        ),
        answer_for(Method::Get, "/readyz"@, state) == Answer::Ready(
            serve::ResponseView {
                status: 200,
                body: json::object_text(
                    seq![
                        ("status"@, json::json_text("ready"@)),
                        ("api_version"@, json::json_text("v1"@)),
                        (
                            "spdx_license_list_version"@,
                            json::json_text(state.spdx_license_list_version@),
                        ),
                    ],
                ),
            },
        ),
        answer_for(Method::Get, "/version"@, state) == Answer::Ready(
            serve::ResponseView {
                status: 200,
                body: json::object_text(
                    seq![
                        ("service"@, json::json_text("provenant-serve"@)),
                        ("api_version"@, json::json_text("v1"@)),
                        ("tool_version"@, json::json_text(state.tool_version@)),
                    ],
                ),
            },
        ),
{
    lemma_paths_differ();
}

proof fn lemma_paths_differ()
    ensures
        serve::job_route("/livez"@) is None,
        serve::job_route("/readyz"@) is None,
        serve::job_route("/version"@) is None,
        serve::job_route("/v1/scans"@) is None,
        serve::job_route("/v1/scans:async"@) is None,
        "/livez"@ != "/readyz"@,
        "/livez"@ != "/version"@,
        "/readyz"@ != "/version"@,
        "/v1/scans"@ != "/livez"@,
        "/v1/scans"@ != "/readyz"@,
        "/v1/scans"@ != "/version"@,
        "/v1/scans:async"@ != "/livez"@,
        "/v1/scans:async"@ != "/readyz"@,
        "/v1/scans:async"@ != "/version"@,
        "/v1/scans:async"@ != "/v1/scans"@,
{
    reveal_strlit("/livez");
    reveal_strlit("/readyz");
    reveal_strlit("/version");
    reveal_strlit("/v1/scans");
    reveal_strlit("/v1/scans:async");
    reveal_strlit("/v1/jobs/");
    let prefix = "/v1/jobs/"@;
    assert("/livez"@.len() == 6 && "/readyz"@.len() == 7 && "/version"@.len() == 8
        && "/v1/scans"@.len() == 9 && "/v1/scans:async"@.len() == 15 && prefix.len() == 9);
    assert(prefix[4] == 'j' && "/v1/scans"@[4] == 's' && "/v1/scans:async"@[4] == 's');
    if text::begins_with("/v1/scans"@, prefix) {
        assert("/v1/scans"@.take(9)[4] == "/v1/scans"@[4]);
    }
    if text::begins_with("/v1/scans:async"@, prefix) {
        assert("/v1/scans:async"@.take(9)[4] == "/v1/scans:async"@[4]);
    }
}

/// Scans are run only for those who post them to the paths for that; any other
/// method there is refused with a hint.
pub proof fn law_scans_are_posted(method: Method, path: Seq<char>, state: ServeState)
    ensures
        (answer_for(method, path, state) is SyncScan) == (method == Method::Post && path
            == "/v1/scans"@),
        (answer_for(method, path, state) is AsyncScan) == (method == Method::Post && path
            == "/v1/scans:async"@),
        method != Method::Post && path == "/v1/scans"@ ==> answer_for(method, path, state)
            == Answer::Ready(
            serve::error_answer(
                405,
                "method_not_allowed"@,
                "use POST /v1/scans for synchronous scan execution"@,
            ),
        ),
        method != Method::Post && path == "/v1/scans:async"@ ==> answer_for(method, path, state)
            == Answer::Ready(
            serve::error_answer(
                405,
                "method_not_allowed"@,
                "use POST /v1/scans:async for asynchronous scan submission"@,
            ),
        ),
{
    lemma_paths_differ();
}

/// A job is asked about by its paths, and only with the method for reading.
pub proof fn law_jobs_are_read(method: Method, id: Seq<char>, state: ServeState)
    requires
        id.len() > 0,
        !id.contains('/'),
    ensures
        method == Method::Get ==> answer_for(method, "/v1/jobs/"@ + id, state) == Answer::Ready(
            serve::job_status_answer(id, state.jobs@),
        ),
        method == Method::Get ==> answer_for(method, "/v1/jobs/"@ + id + "/result"@, state)
            == Answer::Ready(serve::job_result_answer(id, state.jobs@)),
        method != Method::Get ==> answer_for(method, "/v1/jobs/"@ + id, state) == Answer::Ready(
            serve::error_answer(
                405,
                "method_not_allowed"@,
                "use GET /v1/jobs/"@ + id + " to inspect async job state"@,
            ),
        ),
        method != Method::Get ==> answer_for(method, "/v1/jobs/"@ + id + "/result"@, state)
            == Answer::Ready(
            serve::error_answer(
                405,
                "method_not_allowed"@,
                "use GET /v1/jobs/"@ + id + "/result to fetch async job output"@,
            ),
        ),
{
    law_job_routes_lead_back(id);
}

/// A path that is none of the server's is not found, and the answer names it.
pub proof fn law_other_paths_are_not_found(method: Method, path: Seq<char>, state: ServeState)
    requires
        serve::job_route(path) is None,
        path != "/v1/scans"@,
        path != "/v1/scans:async"@,
        method == Method::Get ==> path != "/livez"@ && path != "/readyz"@ && path != "/version"@,
    ensures
        answer_for(method, path, state) == Answer::Ready(
            serve::ResponseView {
                status: 404,
                body: json::object_text(
                    seq![
                        ("path"@, json::json_text(path)),
                        ("status"@, json::json_text("not_found"@)),
                    ],
                ),
            },
        ),
{
}

/// A body counts as JSON if and only if a header with the name for that, in any case
/// of letters, has a value that begins with the media type of JSON.
pub proof fn law_json_is_declared(request: ParsedRequest)
    ensures
        has_json_body(request) == exists|i: int|
            0 <= i < request.headers@.len() && text::lower(
                (#[trigger] request.headers@[i]).field@,
            ) == "content-type"@ && text::begins_with(
                request.headers@[i].value@,
                "application/json"@,
            ),
{
    reveal_strlit("Content-Type");
    reveal_strlit("content-type");
    assert(text::lower("Content-Type"@) =~= "content-type"@);
    assert forall|field: Seq<char>| text::lower(field) == "content-type"@ implies all_ascii(
        field,
    ) by {
        assert forall|i: int| 0 <= i < field.len() implies (#[trigger] field[i] as u32) < 128 by {
            assert(text::lower(field)[i] == text::ascii_lower(field[i]));
            assert(text::lower(field).len() == 12);
            assert(("content-type"@[i] as u32) < 128);
        }
    }
    if has_json_body(request) {
        let i = choose|i: int|
            0 <= i < request.headers@.len() && declares_json(#[trigger] request.headers@[i]);
        assert(text::lower(request.headers@[i].field@) == "content-type"@);
    }
    if exists|i: int|
        0 <= i < request.headers@.len() && text::lower((#[trigger] request.headers@[i]).field@)
            == "content-type"@ && text::begins_with(
            request.headers@[i].value@,
            "application/json"@,
        ) {
        let i = choose|i: int|
            0 <= i < request.headers@.len() && text::lower(
                (#[trigger] request.headers@[i]).field@,
            ) == "content-type"@ && text::begins_with(
                request.headers@[i].value@,
                "application/json"@,
            );
        assert(declares_json(request.headers@[i]));
    }
}

/// A scan that succeeds is answered with its output, and one that fails with the
/// status, the kind and the words of its error.
pub proof fn law_scan_outcomes_are_answered(outcome: Result<String, ServeError>)
    ensures
        outcome is Ok ==> scan_answer(outcome) == (serve::ResponseView {
            status: 200,
            body: outcome->Ok_0@,
        }),
        outcome is Err ==> scan_answer(outcome) == serve::error_answer(
            serve::status_of(outcome->Err_0),
            serve::kind_of(outcome->Err_0),
            serve::said_by(outcome->Err_0),
        ),
{
}

/// A job that is taken is answered as accepted, and one that the queue has no room
/// for with a wish to come back.
pub proof fn law_submissions_are_answered(outcome: Result<String, AsyncSubmitError>)
    ensures
        outcome is Ok ==> submit_answer(outcome) == (serve::ResponseView {
            status: 202,
            body: outcome->Ok_0@,
        }),
        outcome is Err ==> submit_answer(outcome) == serve::error_answer(
            503,
            "server_busy"@,
            "async job queue is full; try again later"@,
        ),
{
}

/// A scan without a JSON body is refused by the type of its body, and one that cannot
/// be decoded in the words of the decoder.
pub proof fn law_undecoded_scans_are_refused(route: Seq<char>, message: Seq<char>)
    ensures
        not_json_answer(route) == serve::error_answer(
            415,
            "unsupported_media_type"@,
            route + " requires Content-Type: application/json"@,
        ),
        undecoded_answer(message) == serve::error_answer(400, "invalid_request"@, message),
{
}

} // verus!
