//! The scan server: how it is set up, which request gets which answer, and how
//! errors are told.
use vstd::prelude::*;

use crate::jobs::{JobState, JobTable};
use crate::jobs;
use crate::json;
use crate::json::Member;
use crate::text;
use crate::workflow::WorkflowError;

verus! {

/// The version of the interface that the answers name.
pub const API_VERSION: &'static str = "v1";

/// The longest body of a request, in bytes: 24 MiB.
pub const MAX_REQUEST_BODY_BYTES: usize = 25_165_824;

/// The workers that scan while a client waits.
pub const DEFAULT_SYNC_SCAN_WORKERS: usize = 1;

/// The scans that wait for such a worker.
pub const DEFAULT_SYNC_SCAN_QUEUE_CAPACITY: usize = 4;

/// Why the input of a scan was not taken.
#[derive(Debug)]
pub enum IngestError {
    Validation(String),
    PayloadTooLarge(String),
    Upstream { message: String },
    Internal { message: String },
}

/// Why a scan gave no result.
#[derive(Debug)]
pub enum ScanError {
    Workflow(WorkflowError),
    Serialization(String),
}

/// Why a request failed.
#[derive(Debug)]
pub enum ServeError {
    Ingest(IngestError),
    Scan(ScanError),
}

/// The HTTP status of an error.
pub open spec fn status_of(e: ServeError) -> u16 {
    match e {
        ServeError::Ingest(IngestError::Validation(_)) => 422,
        ServeError::Ingest(IngestError::PayloadTooLarge(_)) => 413,
        ServeError::Ingest(IngestError::Upstream { .. }) => 502,
        ServeError::Ingest(IngestError::Internal { .. }) => 500,
        ServeError::Scan(ScanError::Workflow(WorkflowError::InvalidOptions(_))) => 422,
        ServeError::Scan(ScanError::Workflow(WorkflowError::Pipeline(_))) => 500,
        ServeError::Scan(ScanError::Serialization(_)) => 500,
    }
}

/// The name of the kind of an error.
pub open spec fn kind_of(e: ServeError) -> Seq<char> {
    match e {
        ServeError::Ingest(IngestError::Validation(_)) => "invalid_scan_request"@,
        ServeError::Ingest(IngestError::PayloadTooLarge(_)) => "payload_too_large"@,
        ServeError::Ingest(IngestError::Upstream { .. }) => "upstream_error"@,
        ServeError::Ingest(IngestError::Internal { .. }) => "internal_error"@,
        ServeError::Scan(ScanError::Workflow(WorkflowError::InvalidOptions(_))) =>
            "invalid_scan_request"@,
        ServeError::Scan(ScanError::Workflow(WorkflowError::Pipeline(_))) => "scan_failed"@,
        ServeError::Scan(ScanError::Serialization(_)) => "scan_failed"@,
    }
}

/// What an error says.
pub open spec fn said_by(e: ServeError) -> Seq<char> {
    match e {
        ServeError::Ingest(IngestError::Validation(message)) => message@,
        ServeError::Ingest(IngestError::PayloadTooLarge(message)) => message@,
        ServeError::Ingest(IngestError::Upstream { message }) => message@,
        ServeError::Ingest(IngestError::Internal { message }) => message@,
        ServeError::Scan(ScanError::Workflow(inner)) => inner.said(),
        ServeError::Scan(ScanError::Serialization(message)) => message@,
    }
}

impl ServeError {
    /// The HTTP status of the error.
    pub fn http_status_code(&self) -> (r: u16)
        ensures
            r == status_of(*self),
    {
        match self {
            ServeError::Ingest(IngestError::Validation(_)) => 422,
            ServeError::Ingest(IngestError::PayloadTooLarge(_)) => 413,
            ServeError::Ingest(IngestError::Upstream { .. }) => 502,
            ServeError::Ingest(IngestError::Internal { .. }) => 500,
            ServeError::Scan(ScanError::Workflow(WorkflowError::InvalidOptions(_))) => 422,
            ServeError::Scan(ScanError::Workflow(WorkflowError::Pipeline(_))) => 500,
            ServeError::Scan(ScanError::Serialization(_)) => 500,
        }
    }

    /// The name of the kind of the error.
    pub fn error_type(&self) -> (r: &'static str)
        ensures
            r@ == kind_of(*self),
    {
        match self {
            ServeError::Ingest(IngestError::Validation(_)) => "invalid_scan_request",
            ServeError::Ingest(IngestError::PayloadTooLarge(_)) => "payload_too_large",
            ServeError::Ingest(IngestError::Upstream { .. }) => "upstream_error",
            ServeError::Ingest(IngestError::Internal { .. }) => "internal_error",
            ServeError::Scan(ScanError::Workflow(WorkflowError::InvalidOptions(_))) =>
                "invalid_scan_request",
            ServeError::Scan(ScanError::Workflow(WorkflowError::Pipeline(_))) => "scan_failed",
            ServeError::Scan(ScanError::Serialization(_)) => "scan_failed",
        }
    }

    /// What the error says.
    pub fn message(&self) -> (r: String)
        ensures
            r@ == said_by(*self),
    {
        match self {
            ServeError::Ingest(IngestError::Validation(message)) => message.clone(),
            ServeError::Ingest(IngestError::PayloadTooLarge(message)) => message.clone(),
            ServeError::Ingest(IngestError::Upstream { message }) => message.clone(),
            ServeError::Ingest(IngestError::Internal { message }) => message.clone(),
            ServeError::Scan(ScanError::Workflow(inner)) => inner.message(),
            ServeError::Scan(ScanError::Serialization(message)) => message.clone(),
        }
    }
}

/// Which inputs a server takes.
#[derive(Clone, Copy, Debug, PartialEq, Eq, Structural)]
pub struct IngestPolicy {
    /// Paths, addresses and repositories, besides uploads.
    pub privileged_inputs: bool,
    /// Addresses within the network of the server.
    pub local_targets: bool,
}

impl IngestPolicy {
    /// Every input, with addresses within the network of the server.
    pub fn trust_local_targets() -> (r: IngestPolicy)
        ensures
            r == (IngestPolicy { privileged_inputs: true, local_targets: true }),
    {
        IngestPolicy { privileged_inputs: true, local_targets: true }
    }

    /// Every kind of input, but no address within the network of the server.
    pub fn allow_privileged_inputs() -> (r: IngestPolicy)
        ensures
            r == (IngestPolicy { privileged_inputs: true, local_targets: false }),
    {
        IngestPolicy { privileged_inputs: true, local_targets: false }
    }

    /// Uploads alone.
    pub fn upload_only() -> (r: IngestPolicy)
        ensures
            r == (IngestPolicy { privileged_inputs: false, local_targets: false }),
    {
        IngestPolicy { privileged_inputs: false, local_targets: false }
    }

    /// Whether inputs other than uploads are taken.
    pub fn privileged_inputs_allowed(&self) -> (r: bool)
        ensures
            r == self.privileged_inputs,
    {
        self.privileged_inputs
    }
}

/// What the command line says about the server.
#[derive(Debug)]
pub struct ServeArgs {
    pub bind: String,
    pub allow_privileged_inputs: bool,
}

/// How a server is set up.
#[derive(Debug)]
pub struct ServeConfig {
    pub bind: String,
    pub ingest_policy: IngestPolicy,
}

impl Clone for ServeConfig {
    fn clone(&self) -> (r: Self)
        ensures
            r.bind@ == self.bind@,
            r.ingest_policy == self.ingest_policy,
    {
        ServeConfig { bind: self.bind.clone(), ingest_policy: self.ingest_policy }
    }
}

/// The place of the last colon of a text; -1 where it has none.
pub open spec fn last_colon(s: Seq<char>) -> int
    decreases s.len(),
{
    if s.len() == 0 {
        -1
    } else if s.last() == ':' {
        s.len() - 1
    } else {
        last_colon(s.drop_last())
    }
}

/// The host of an address to bind to: what stands before its last colon, without
/// brackets.
pub open spec fn host_of(bind: Seq<char>) -> Option<Seq<char>> {
    if last_colon(bind) < 0 {
        None
    } else {
        Some(
            text::trim_end_char_of(
                text::trim_start_char_of(text::trim_of(bind.take(last_colon(bind))), '['),
                ']',
            ),
        )
    }
}

/// An address is one of the machine itself. `socket` and `host` say whether the
/// address, and its host, read as numbers and are of the machine itself; nothing
/// where they do not read as numbers.
pub open spec fn of_this_machine(bind: Seq<char>, socket: Option<bool>, host: Option<bool>) -> bool {
    match socket {
        Some(loopback) => loopback,
        None => match host_of(bind) {
            Some(name) => text::lower(name) == "localhost"@ || host == Some(true),
            None => false,
        },
    }
}

/// The host of an address to bind to.
pub fn bind_host(bind: &str) -> (r: Option<String>)
    ensures
        text::opt_text(r) == host_of(bind@),
{
    let chars = text::to_chars(bind);
    let mut n: usize = chars.len();
    assert(chars@.take(n as int) == chars@);
    while n > 0
        invariant
            chars@ == bind@,
            n <= chars@.len(),
            last_colon(chars@) == last_colon(chars@.take(n as int)),
        decreases n,
    {
        proof {
            assert(chars@.take(n as int).last() == chars@[n - 1]);
            assert(chars@.take(n as int).drop_last() == chars@.take(n - 1));
        }
        n = n - 1;
        if chars[n] == ':' {
            assert(chars@.subrange(0, n as int) == chars@.take(n as int));
            let host = text::trim(&chars[0..n]);
            let host = text::trim_end_char(text::trim_start_char(host, '['), ']');
            return Some(text::to_text(host));
        }
    }
    None
}

/// Whether an address to bind to is one of the machine itself, so that every
/// kind of input is taken.
pub fn bind_allows_privileged_inputs_by_default(
    bind: &str,
    socket: Option<bool>,
    host: Option<bool>,
) -> (r: bool)
    ensures
        r == of_this_machine(bind@, socket, host),
{
    if let Some(loopback) = socket {
        return loopback;
    }
    match bind_host(bind) {
        Some(name) => text::same_str(text::lower_text(name.as_str()).as_str(), "localhost")
            || match host {
            Some(loopback) => loopback,
            None => false,
        },
        None => false,
    }
}

/// The inputs that a server takes.
pub open spec fn policy_for(
    args_bind: Seq<char>,
    allow_privileged_inputs: bool,
    socket: Option<bool>,
    host: Option<bool>,
) -> IngestPolicy {
    if allow_privileged_inputs {
        IngestPolicy { privileged_inputs: true, local_targets: true }
    } else if of_this_machine(args_bind, socket, host) {
        IngestPolicy { privileged_inputs: true, local_targets: false }
    } else {
        IngestPolicy { privileged_inputs: false, local_targets: false }
    }
}

impl ServeConfig {
    /// The setup of a server. A server that the operator opens for every input
    /// also trusts local addresses; one that is bound to the machine itself
    /// takes every kind of input, but no local address.
    pub fn try_from(args: &ServeArgs, socket: Option<bool>, host: Option<bool>) -> (r: Result<
        ServeConfig,
        String,
    >)
        ensures
            r is Err == (text::trim_of(args.bind@).len() == 0),
            r is Err ==> r->Err_0@ == "--bind must not be empty"@,
            r is Ok ==> r->Ok_0.bind@ == args.bind@ && r->Ok_0.ingest_policy == policy_for(
                args.bind@,
                args.allow_privileged_inputs,
                socket,
                host,
            ),
    {
        let bind = text::to_chars(args.bind.as_str());
        if text::trim(&bind).len() == 0 {
            return Err("--bind must not be empty".to_owned());
        }
        let loopback_bind = bind_allows_privileged_inputs_by_default(
            args.bind.as_str(),
            socket,
            host,
        );
        let ingest_policy = if args.allow_privileged_inputs {
            IngestPolicy::trust_local_targets()
        } else if loopback_bind {
            IngestPolicy::allow_privileged_inputs()
        } else {
            IngestPolicy::upload_only()
        };
        Ok(ServeConfig { bind: args.bind.clone(), ingest_policy })
    }
}

/// How many workers a server has, and how many requests wait for them.
#[derive(Clone, Copy, Debug, PartialEq, Eq, Structural)]
pub struct RequestWorkerConfig {
    pub general_workers: usize,
    pub sync_scan_workers: usize,
    pub general_queue_capacity: usize,
    pub sync_scan_queue_capacity: usize,
}

/// The workers for general requests: two to four.
pub open spec fn general_workers_for(available_parallelism: usize) -> usize {
    if available_parallelism < 2 {
        2
    } else if available_parallelism > 4 {
        4
    } else {
        available_parallelism
    }
}

/// The workers for a machine with so many processors.
pub open spec fn workers_for(available_parallelism: usize) -> RequestWorkerConfig {
    RequestWorkerConfig {
        general_workers: general_workers_for(available_parallelism),
        sync_scan_workers: DEFAULT_SYNC_SCAN_WORKERS,
        general_queue_capacity: (general_workers_for(available_parallelism) * 16) as usize,
        sync_scan_queue_capacity: DEFAULT_SYNC_SCAN_QUEUE_CAPACITY,
    }
}

/// However few processors there are, general requests have workers beside the
/// one for scans that a client waits for, and each queue has room for its workers.
pub proof fn law_lanes_have_workers(available_parallelism: usize)
    ensures
        ({
            let c = workers_for(available_parallelism);
            &&& 2 <= c.general_workers <= 4
            &&& c.sync_scan_workers == 1
            &&& c.general_queue_capacity >= c.general_workers
            &&& c.sync_scan_queue_capacity >= c.sync_scan_workers
        }),
{
}

impl RequestWorkerConfig {
    /// The workers for a machine with so many processors.
    pub fn for_parallelism(available_parallelism: usize) -> (r: RequestWorkerConfig)
        ensures
            r == workers_for(available_parallelism),
    {
        let general_workers: usize = if available_parallelism < 2 {
            2
        } else if available_parallelism > 4 {
            4
        } else {
            available_parallelism
        };
        RequestWorkerConfig {
            general_workers,
            sync_scan_workers: DEFAULT_SYNC_SCAN_WORKERS,
            general_queue_capacity: general_workers * 16,
            sync_scan_queue_capacity: DEFAULT_SYNC_SCAN_QUEUE_CAPACITY,
        }
    }
}

/// The method of a request.
#[derive(Clone, Copy, Debug, PartialEq, Eq, Structural)]
pub enum Method {
    Get,
    Head,
    Post,
    Put,
    Delete,
    Connect,
    Options,
    Trace,
    Patch,
    Other,
}

/// A header of a request.
#[derive(Debug)]
pub struct HeaderLine {
    pub field: String,
    pub value: String,
}

/// A request that was read.
#[derive(Debug)]
pub struct ParsedRequest {
    pub method: Method,
    pub path: String,
    pub headers: Vec<HeaderLine>,
    pub body: Vec<u8>,
}

/// The answer to a request.
#[derive(Debug)]
pub struct HttpResponse {
    pub status: u16,
    pub body: String,
}

/// What an [`HttpResponse`] holds.
#[verifier::ext_equal]
pub struct ResponseView {
    pub status: u16,
    pub body: Seq<char>,
}

impl View for HttpResponse {
    type V = ResponseView;

    open spec fn view(&self) -> ResponseView {
        ResponseView { status: self.status, body: self.body@ }
    }
}

/// What a server knows when it answers.
#[derive(Debug)]
pub struct ServeState {
    pub spdx_license_list_version: String,
    pub tool_version: String,
    pub jobs: JobTable,
    pub ingest_policy: IngestPolicy,
}

/// The workers that a request is left to.
#[derive(Clone, Copy, Debug, PartialEq, Eq, Structural)]
pub enum RequestLane {
    General,
    SyncScan,
}

/// The body of an error, from its kind and its message as JSON strings.
pub open spec fn error_body(kind: Seq<char>, message: Seq<char>, version: Seq<char>) -> Seq<char> {
    json::object_text(
        seq![("status"@, kind), ("message"@, message), ("api_version"@, version)],
    )
}

/// The answer that tells an error.
pub open spec fn error_answer(status: u16, kind: Seq<char>, message: Seq<char>) -> ResponseView {
    ResponseView {
        status,
        body: error_body(
            json::json_text(kind),
            json::json_text(message),
            json::json_text(API_VERSION@),
        ),
    }
}

/// The answer that tells an error of the server.
pub open spec fn failure_answer(e: ServeError) -> ResponseView {
    error_answer(status_of(e), kind_of(e), said_by(e))
}

/// The body of an error, from its parts as JSON strings.
pub fn frame_error(kind: String, message: String, version: String) -> (r: String)
    ensures
        r@ == error_body(kind@, message@, version@),
{
    let mut members: Vec<Member> = Vec::new();
    members.push(Member { name: "status", value: kind });
    members.push(Member { name: "message", value: message });
    members.push(Member { name: "api_version", value: version });
    assert(json::member_views(members@) == seq![
        ("status"@, kind@),
        ("message"@, message@),
        ("api_version"@, version@),
    ]);
    json::frame_object(&members)
}

impl HttpResponse {
    /// The answer that tells an error.
    pub fn error(status: u16, kind: &str, message: String) -> (r: HttpResponse)
        ensures
            r@ == error_answer(status, kind@, message@),
    {
        HttpResponse {
            status,
            body: frame_error(
                json::json_string(kind),
                json::json_string(message.as_str()),
                json::json_string(API_VERSION),
            ),
        }
    }

    /// The answer that tells an error of the server.
    pub fn from_error(error: &ServeError) -> (r: HttpResponse)
        ensures
            r@ == failure_answer(*error),
    {
        HttpResponse::error(error.http_status_code(), error.error_type(), error.message())
    }
}

/// The lane of a request: scans that a client waits for have their own.
pub open spec fn lane_of(method: Method, path: Seq<char>) -> RequestLane {
    if method == Method::Post && path == "/v1/scans"@ {
        RequestLane::SyncScan
    } else {
        RequestLane::General
    }
}

/// The lane of a request.
pub fn request_lane(method: Method, url: &str) -> (r: RequestLane)
    ensures
        r == lane_of(method, url@),
{
    if method == Method::Post && text::same_str(url, "/v1/scans") {
        RequestLane::SyncScan
    } else {
        RequestLane::General
    }
}

/// The answer of a server whose queue is full.
pub fn server_busy_response(message: &str) -> (r: HttpResponse)
    ensures
        r@ == error_answer(503, "server_busy"@, message@),
{
    HttpResponse::error(503, "server_busy", message.to_owned())
}

/// What came of handing a request to a queue.
#[derive(Clone, Copy, Debug, PartialEq, Eq, Structural)]
pub enum QueueOutcome {
    Sent,
    Full,
    Disconnected,
}

/// What follows when a request was handed to a queue: nothing, the answer that
/// the server is busy, and the error that the workers are gone.
pub fn queue_step(outcome: QueueOutcome, label: &str, busy_message: &str) -> (r: (
    Option<HttpResponse>,
    Option<String>,
))
    ensures
        r.0 is Some == (outcome != QueueOutcome::Sent),
        r.0 is Some ==> r.0->0@ == error_answer(503, "server_busy"@, busy_message@),
        r.1 is Some == (outcome == QueueOutcome::Disconnected),
        r.1 is Some ==> r.1->0@ == "serve "@ + label@ + " request workers stopped"@,
{
    match outcome {
        QueueOutcome::Sent => (None, None),
        QueueOutcome::Full => (Some(server_busy_response(busy_message)), None),
        QueueOutcome::Disconnected => {
            let mut message = "serve ".to_owned();
            message.append(label);
            message.append(" request workers stopped");
            (Some(server_busy_response(busy_message)), Some(message))
        },
    }
}

/// What is said of a body that is too long.
pub open spec fn too_large() -> Seq<char> {
    "request body exceeds max size of 25165824 bytes"@
}

/// Refuses a body of so many bytes where that is too many. The length that a
/// request declares is tested before its body is read, and the length of what
/// was read behind that.
pub fn check_body_length(length: usize) -> (r: Result<(), ServeError>)
    ensures
        r is Err == (length > MAX_REQUEST_BODY_BYTES),
        r is Err ==> r->Err_0 is Ingest && r->Err_0->Ingest_0 is PayloadTooLarge && said_by(
            r->Err_0,
        ) == too_large(),
{
    if length > MAX_REQUEST_BODY_BYTES {
        return Err(
            ServeError::Ingest(
                IngestError::PayloadTooLarge(
                    "request body exceeds max size of 25165824 bytes".to_owned(),
                ),
            ),
        );
    }
    Ok(())
}

/// The request that was read, unless its body is too long.
pub fn parse_request(
    method: Method,
    path: String,
    headers: Vec<HeaderLine>,
    body: Vec<u8>,
) -> (r: Result<ParsedRequest, ServeError>)
    ensures
        r is Err == (body@.len() > MAX_REQUEST_BODY_BYTES),
        r is Err ==> r->Err_0 is Ingest && r->Err_0->Ingest_0 is PayloadTooLarge && said_by(
            r->Err_0,
        ) == too_large(),
        r is Ok ==> r->Ok_0 == (ParsedRequest { method, path, headers, body }),
{
    if let Err(e) = check_body_length(body.len()) {
        return Err(e);
    }
    Ok(ParsedRequest { method, path, headers, body })
}

/// The answer to a request that could not be read.
pub open spec fn unread_answer(e: ServeError) -> ResponseView {
    match e {
        ServeError::Ingest(IngestError::PayloadTooLarge(_)) => error_answer(
            413,
            "payload_too_large"@,
            "request body exceeds max size"@,
        ),
        _ => error_answer(400, "invalid_request"@, said_by(e)),
    }
}

/// The answer to a request that could not be read.
pub fn unread_response(error: &ServeError) -> (r: HttpResponse)
    ensures
        r@ == unread_answer(*error),
{
    match error {
        ServeError::Ingest(IngestError::PayloadTooLarge(_)) => HttpResponse::error(
            413,
            "payload_too_large",
            "request body exceeds max size".to_owned(),
        ),
        _ => HttpResponse::error(400, "invalid_request", error.message()),
    }
}

/// What a path under `/v1/jobs/` asks for, of the job with an identifier.
#[derive(Debug)]
pub enum JobRoute {
    Status(String),
    Result(String),
}

/// What a [`JobRoute`] holds.
#[verifier::ext_equal]
pub enum RouteView {
    Status(Seq<char>),
    Result(Seq<char>),
}

impl View for JobRoute {
    type V = RouteView;

    open spec fn view(&self) -> RouteView {
        match self {
            JobRoute::Status(id) => RouteView::Status(id@),
            JobRoute::Result(id) => RouteView::Result(id@),
        }
    }
}

pub open spec fn valid_job_id(id: Seq<char>) -> bool {
    id.len() > 0 && !id.contains('/')
}

/// The job that a path asks about, and what it asks for.
pub open spec fn job_route(path: Seq<char>) -> Option<RouteView> {
    let prefix = "/v1/jobs/"@;
    let suffix = "/result"@;
    if !text::begins_with(path, prefix) {
        None
    } else {
        let rest = path.skip(prefix.len() as int);
        if text::finishes_with(rest, suffix) {
            let id = rest.take(rest.len() - suffix.len());
            if valid_job_id(id) {
                Some(RouteView::Result(id))
            } else {
                None
            }
        } else if valid_job_id(rest) {
            Some(RouteView::Status(rest))
        } else {
            None
        }
    }
}

fn is_job_id(id: &[char]) -> (r: bool)
    ensures
        r == valid_job_id(id@),
{
    id.len() > 0 && !text::contains_char(id, '/')
}

/// Whether a text can be the identifier of a job.
pub fn is_valid_job_id(job_id: &str) -> (r: bool)
    ensures
        r == valid_job_id(job_id@),
{
    let chars = text::to_chars(job_id);
    is_job_id(&chars)
}

/// The job that a path asks about, and what it asks for.
pub fn parse_job_route(path: &str) -> (r: Option<JobRoute>)
    ensures
        r is Some == job_route(path@) is Some,
        r is Some ==> r->0@ == job_route(path@)->0,
{
    let chars = text::to_chars(path);
    let rest = match text::strip_prefix(&chars, "/v1/jobs/") {
        Some(rest) => rest,
        None => return None,
    };
    if let Some(id) = text::strip_suffix(rest, "/result") {
        return if is_job_id(id) {
            Some(JobRoute::Result(text::to_text(id)))
        } else {
            None
        };
    }
    if is_job_id(rest) {
        Some(JobRoute::Status(text::to_text(rest)))
    } else {
        None
    }
}

/// Text around the identifier of a job.
pub(crate) fn around(before: &str, id: &str, after: &str) -> (r: String)
    ensures
        r@ == before@ + id@ + after@,
{
    let mut r = before.to_owned();
    r.append(id);
    r.append(after);
    r
}

/// The answer about a job that is not known.
pub open spec fn job_not_found(id: Seq<char>) -> ResponseView {
    error_answer(404, "job_not_found"@, "async job "@ + id + " was not found"@)
}

/// The name of the state of a job.
pub open spec fn state_name(job: jobs::JobView) -> Seq<char> {
    match job {
        jobs::JobView::Pending => "pending"@,
        jobs::JobView::Running => "running"@,
        jobs::JobView::Succeeded { .. } => "succeeded"@,
        jobs::JobView::Failed { .. } => "failed"@,
    }
}

/// What a job that failed says of it.
pub open spec fn failure_message(job: jobs::JobView) -> Option<Seq<char>> {
    match job {
        jobs::JobView::Failed { message, .. } => Some(message),
        _ => None,
    }
}

/// The body that tells the state of a job, from its parts as JSON strings. Only a
/// job that failed has a message.
pub open spec fn status_body(
    id: Seq<char>,
    state: Seq<char>,
    ready: bool,
    message: Option<Seq<char>>,
    version: Seq<char>,
) -> Seq<char> {
    let known = seq![
        ("job_id"@, id),
        ("state"@, state),
        ("result_ready"@, json::bool_text(ready)),
    ];
    json::object_text(
        match message {
            Some(said) => known.push(("message"@, said)).push(("api_version"@, version)),
            None => known.push(("api_version"@, version)),
        },
    )
}

/// The answer that tells the state of a job. A result is there once the job has
/// succeeded. The message of a job that failed shows as it is, also where it is
/// empty.
pub open spec fn job_status_answer(
    id: Seq<char>,
    jobs_known: Map<Seq<char>, jobs::RecordView>,
) -> ResponseView {
    if jobs_known.contains_key(id) {
        ResponseView {
            status: 200,
            body: status_body(
                json::json_text(id),
                json::json_text(state_name(jobs_known[id].state)),
                jobs_known[id].state is Succeeded,
                match failure_message(jobs_known[id].state) {
                    Some(message) => Some(json::json_text(message)),
                    None => None,
                },
                json::json_text(API_VERSION@),
            ),
        }
    } else {
        job_not_found(id)
    }
}

/// The status of the answer about a job that failed.
pub open spec fn failed_status(code: u16) -> u16 {
    if 400 <= code < 600 {
        code
    } else {
        500
    }
}

/// The answer to a request for the result of a job.
pub open spec fn job_result_answer(
    id: Seq<char>,
    jobs_known: Map<Seq<char>, jobs::RecordView>,
) -> ResponseView {
    if jobs_known.contains_key(id) {
        match jobs_known[id].state {
            jobs::JobView::Succeeded { result_body } => ResponseView {
                status: 200,
                body: result_body,
            },
            jobs::JobView::Pending => error_answer(
                409,
                "job_not_ready"@,
                "async job "@ + id + " is currently pending"@,
            ),
            jobs::JobView::Running => error_answer(
                409,
                "job_not_ready"@,
                "async job "@ + id + " is currently running"@,
            ),
            jobs::JobView::Failed { message, status_code } => error_answer(
                failed_status(status_code),
                "job_failed"@,
                if message.len() == 0 {
                    "async job "@ + id + " failed"@
                } else {
                    message
                },
            ),
        }
    } else {
        job_not_found(id)
    }
}

/// The body that tells the state of a job, from its parts as JSON strings.
pub fn frame_status(
    id: String,
    state: String,
    ready: bool,
    message: Option<String>,
    version: String,
) -> (r: String)
    ensures
        r@ == status_body(id@, state@, ready, text::opt_text(message), version@),
{
    let mut members: Vec<Member> = Vec::new();
    let ready_text = json::json_bool(ready);
    members.push(Member { name: "job_id", value: id });
    members.push(Member { name: "state", value: state });
    members.push(Member { name: "result_ready", value: ready_text });
    let ghost known = seq![
        ("job_id"@, id@),
        ("state"@, state@),
        ("result_ready"@, json::bool_text(ready)),
    ];
    assert(json::member_views(members@) == known);
    if let Some(said) = message {
        members.push(Member { name: "message", value: said });
        assert(json::member_views(members@) == known.push(("message"@, said@)));
    }
    let ghost before = json::member_views(members@);
    members.push(Member { name: "api_version", value: version });
    assert(json::member_views(members@) == before.push(("api_version"@, version@)));
    json::frame_object(&members)
}

/// The answer that tells the state of a job.
pub fn handle_job_status_request(job_id: &str, state: &ServeState) -> (r: HttpResponse)
    ensures
        r@ == job_status_answer(job_id@, state.jobs@),
{
    match state.jobs.get_job(job_id) {
        Some(record) => {
            let (name, ready, message) = match &record.state {
                JobState::Pending => ("pending", false, None),
                JobState::Running => ("running", false, None),
                JobState::Succeeded { .. } => ("succeeded", true, None),
                JobState::Failed { message, .. } => (
                    "failed",
                    false,
                    Some(json::json_string(message.as_str())),
                ),
            };
            HttpResponse {
                status: 200,
                body: frame_status(
                    json::json_string(job_id),
                    json::json_string(name),
                    ready,
                    message,
                    json::json_string(API_VERSION),
                ),
            }
        },
        None => HttpResponse::error(
            404,
            "job_not_found",
            around("async job ", job_id, " was not found"),
        ),
    }
}

/// The answer to a request for the result of a job.
pub fn handle_job_result_request(job_id: &str, state: &ServeState) -> (r: HttpResponse)
    ensures
        r@ == job_result_answer(job_id@, state.jobs@),
{
    let record = match state.jobs.get_job(job_id) {
        Some(record) => record,
        None => return HttpResponse::error(
            404,
            "job_not_found",
            around("async job ", job_id, " was not found"),
        ),
    };
    match &record.state {
        JobState::Succeeded { result_body } => HttpResponse {
            status: 200,
            body: result_body.clone(),
        },
        JobState::Pending => HttpResponse::error(
            409,
            "job_not_ready",
            around("async job ", job_id, " is currently pending"),
        ),
        JobState::Running => HttpResponse::error(
            409,
            "job_not_ready",
            around("async job ", job_id, " is currently running"),
        ),
        JobState::Failed { message, status_code } => {
            let status: u16 = if *status_code >= 400 && *status_code < 600 {
                *status_code
            } else {
                500
            };
            HttpResponse::error(
                status,
                "job_failed",
                if message.as_str().is_empty() {
                    around("async job ", job_id, " failed")
                } else {
                    message.clone()
                },
            )
        },
    }
}

proof fn lemma_last_colon(s: Seq<char>)
    ensures
        -1 <= last_colon(s) < s.len(),
        last_colon(s) >= 0 ==> s[last_colon(s)] == ':',
        forall|i: int| last_colon(s) < i < s.len() ==> #[trigger] s[i] != ':',
    decreases s.len(),
{
    if s.len() > 0 && s.last() != ':' {
        let t = s.drop_last();
        lemma_last_colon(t);
        assert forall|i: int| last_colon(s) < i < s.len() implies #[trigger] s[i] != ':' by {
            if i < t.len() {
                assert(t[i] == s[i]);
            }
        }
    }
}

/// The host of an address is what stands before its port, with or without
/// brackets; an address without a colon has none.
pub proof fn law_host_stands_before_the_port(host: Seq<char>, port: Seq<char>)
    requires
        !port.contains(':'),
        host.len() > 0,
        text::is_trimmed(host),
        host[0] != '[',
        host.last() != ']',
    ensures
        host_of(host + seq![':'] + port) == Some(host),
        host_of(seq!['['] + host + seq![']', ':'] + port) == Some(host),
        host_of(port) is None,
{
    lemma_last_colon(port);
    if last_colon(port) >= 0 {
        assert(port.contains(port[last_colon(port)]));
    }
    let plain = host + seq![':'] + port;
    assert(plain.skip(host.len() as int + 1) == port);
    lemma_colon_before(plain, host.len() as int, port);
    assert(plain.take(host.len() as int) == host);
    text::lemma_trim(host);
    lemma_no_brackets(host);
    let inner = seq!['['] + host + seq![']'];
    let bracketed = seq!['['] + host + seq![']', ':'] + port;
    let n = host.len() as int + 2;
    assert(bracketed[n] == ':');
    assert(bracketed.skip(n + 1) == port);
    lemma_colon_before(bracketed, n, port);
    assert(bracketed.take(n) == inner);
    text::lemma_trim(inner);
    assert(inner.skip(1) == host + seq![']']);
    let rest = host + seq![']'];
    assert(rest[0] == host[0]);
    assert(text::trim_start_char_of(rest, '[') == rest);
    assert(text::trim_start_char_of(inner, '[') == rest);
    assert(rest.drop_last() == host);
    assert(text::trim_end_char_of(rest, ']') == text::trim_end_char_of(host, ']'));
}

proof fn lemma_colon_before(s: Seq<char>, n: int, port: Seq<char>)
    requires
        0 <= n < s.len(),
        s[n] == ':',
        s.skip(n + 1) == port,
        !port.contains(':'),
    ensures
        last_colon(s) == n,
{
    lemma_last_colon(s);
    if last_colon(s) > n {
        assert(port[last_colon(s) - n - 1] == ':');
    }
}

proof fn lemma_no_brackets(host: Seq<char>)
    requires
        host.len() > 0,
        host[0] != '[',
        host.last() != ']',
    ensures
        text::trim_start_char_of(host, '[') == host,
        text::trim_end_char_of(host, ']') == host,
{
}

/// Where an address reads as a number, the number says whether it is of the machine
/// itself. Else a host named localhost is, in any case of letters, and one that
/// reads as such a number; nothing else is.
pub proof fn law_local_addresses(bind: Seq<char>, socket: Option<bool>, host: Option<bool>)
    ensures
        socket is Some ==> of_this_machine(bind, socket, host) == socket->0,
        socket is None ==> of_this_machine(bind, socket, host) == (host_of(bind) is Some && (
        text::lower(host_of(bind)->0) == "localhost"@ || host == Some(true))),
{
}

/// What the client did wrong has a status of the client's errors, and what the
/// server or another one did has one of the server's. The kind of an error tells
/// its status.
pub proof fn law_statuses_tell_whose_fault(a: ServeError, b: ServeError)
    ensures
        (a matches ServeError::Ingest(IngestError::Validation(_))) ==> status_of(a) == 422
            && kind_of(a) == "invalid_scan_request"@,
        (a matches ServeError::Scan(ScanError::Workflow(WorkflowError::InvalidOptions(_))))
            ==> status_of(a) == 422 && kind_of(a) == "invalid_scan_request"@,
        (a matches ServeError::Ingest(IngestError::PayloadTooLarge(_))) ==> status_of(a) == 413
            && kind_of(a) == "payload_too_large"@,
        (a matches ServeError::Ingest(IngestError::Upstream { .. })) ==> status_of(a) == 502
            && kind_of(a) == "upstream_error"@,
        (a matches ServeError::Ingest(IngestError::Internal { .. })) ==> status_of(a) == 500
            && kind_of(a) == "internal_error"@,
        (a matches ServeError::Scan(ScanError::Workflow(WorkflowError::Pipeline(_))))
            ==> status_of(a) == 500 && kind_of(a) == "scan_failed"@,
        (a matches ServeError::Scan(ScanError::Serialization(_))) ==> status_of(a) == 500
            && kind_of(a) == "scan_failed"@,
        kind_of(a) == kind_of(b) ==> status_of(a) == status_of(b),
        failure_answer(a).status == status_of(a),
{
    reveal_strlit("invalid_scan_request");
    reveal_strlit("payload_too_large");
    reveal_strlit("upstream_error");
    reveal_strlit("internal_error");
    reveal_strlit("scan_failed");
    assert("invalid_scan_request"@.len() == 20 && "payload_too_large"@.len() == 17
        && "upstream_error"@.len() == 14 && "internal_error"@.len() == 14 && "scan_failed"@.len()
        == 11);
    assert("upstream_error"@[0] == 'u' && "internal_error"@[0] == 'i');
}

/// General requests have as many workers as the machine has processors, but two at
/// least and four at most, and sixteen requests wait for each. One worker runs the
/// scans that clients wait for, and four of those wait.
pub proof fn law_workers_follow_the_processors(available_parallelism: usize)
    ensures
        ({
            let c = workers_for(available_parallelism);
            &&& available_parallelism <= 2 ==> c.general_workers == 2
            &&& 2 <= available_parallelism <= 4 ==> c.general_workers == available_parallelism
            &&& available_parallelism >= 4 ==> c.general_workers == 4
            &&& c.general_queue_capacity == 16 * c.general_workers
            &&& c.sync_scan_workers == 1
            &&& c.sync_scan_queue_capacity == 4
        }),
{
}

/// A request that could not be read is the client's fault. One that is too long is
/// told so without its length; anything else in the words of the error.
pub proof fn law_unread_requests_are_refused(e: ServeError)
    ensures
        (e matches ServeError::Ingest(IngestError::PayloadTooLarge(_))) ==> unread_answer(e)
            == error_answer(413, "payload_too_large"@, "request body exceeds max size"@),
        !(e matches ServeError::Ingest(IngestError::PayloadTooLarge(_))) ==> unread_answer(e)
            == error_answer(400, "invalid_request"@, said_by(e)),
{
}

/// The state of a known job is told by its name; its result is ready if and only if
/// it succeeded, and its message shows if and only if it failed.
pub proof fn law_job_states_are_told(id: Seq<char>, jobs_known: Map<Seq<char>, jobs::RecordView>)
    requires
        jobs_known.contains_key(id),
    ensures
        ({
            let told = |state: Seq<char>, ready: bool, message: Option<Seq<char>>|
                (ResponseView {
                    status: 200,
                    body: status_body(
                        json::json_text(id),
                        json::json_text(state),
                        ready,
                        message,
                        json::json_text("v1"@),
                    ),
                });
            let answer = job_status_answer(id, jobs_known);
            match jobs_known[id].state {
                jobs::JobView::Pending => answer == told("pending"@, false, None),
                jobs::JobView::Running => answer == told("running"@, false, None),
                jobs::JobView::Succeeded { .. } => answer == told("succeeded"@, true, None),
                jobs::JobView::Failed { message, .. } => answer == told(
                    "failed"@,
                    false,
                    Some(json::json_text(message)),
                ),
            }
        }),
{
}

/// A job that is not known is not found, whatever is asked of it.
pub proof fn law_unknown_jobs_are_not_found(
    id: Seq<char>,
    jobs_known: Map<Seq<char>, jobs::RecordView>,
)
    requires
        !jobs_known.contains_key(id),
    ensures
        job_status_answer(id, jobs_known) == error_answer(
            404,
            "job_not_found"@,
            "async job "@ + id + " was not found"@,
        ),
        job_result_answer(id, jobs_known) == job_status_answer(id, jobs_known),
{
}

/// The result of a job that is not done is refused with its state; that of a job
/// that failed with its status, where that is one of an error, and its message,
/// where it has one.
pub proof fn law_results_that_are_not_there(
    id: Seq<char>,
    jobs_known: Map<Seq<char>, jobs::RecordView>,
)
    requires
        jobs_known.contains_key(id),
    ensures
        match jobs_known[id].state {
            jobs::JobView::Pending => job_result_answer(id, jobs_known) == error_answer(
                409,
                "job_not_ready"@,
                "async job "@ + id + " is currently pending"@,
            ),
            jobs::JobView::Running => job_result_answer(id, jobs_known) == error_answer(
                409,
                "job_not_ready"@,
                "async job "@ + id + " is currently running"@,
            ),
            jobs::JobView::Succeeded { result_body } => job_result_answer(id, jobs_known) == (
            ResponseView { status: 200, body: result_body }),
            jobs::JobView::Failed { message, status_code } => {
                let answer = job_result_answer(id, jobs_known);
                &&& 400 <= status_code < 600 ==> answer.status == status_code
                &&& !(400 <= status_code < 600) ==> answer.status == 500
                &&& message.len() > 0 ==> answer.body == error_answer(
                    500,
                    "job_failed"@,
                    message,
                ).body
                &&& message.len() == 0 ==> answer.body == error_answer(
                    500,
                    "job_failed"@,
                    "async job "@ + id + " failed"@,
                ).body
            },
        },
{
}

/// White space around the host of an address does not matter.
pub proof fn law_white_space_around_the_host(a: Seq<char>, b: Seq<char>, port: Seq<char>)
    requires
        !port.contains(':'),
        text::trim_of(a) == text::trim_of(b),
    ensures
        host_of(a + seq![':'] + port) == host_of(b + seq![':'] + port),
{
    let first = a + seq![':'] + port;
    assert(first.skip(a.len() as int + 1) == port);
    lemma_colon_before(first, a.len() as int, port);
    assert(first.take(a.len() as int) == a);
    let second = b + seq![':'] + port;
    assert(second.skip(b.len() as int + 1) == port);
    lemma_colon_before(second, b.len() as int, port);
    assert(second.take(b.len() as int) == b);
}

/// An error is told in its own words.
pub proof fn law_errors_are_told_in_their_words(e: ServeError)
    ensures
        e matches ServeError::Ingest(IngestError::Validation(message)) ==> said_by(e) == message@,
        e matches ServeError::Ingest(IngestError::PayloadTooLarge(message)) ==> said_by(e)
            == message@,
        e matches ServeError::Ingest(IngestError::Upstream { message }) ==> said_by(e) == message@,
        e matches ServeError::Ingest(IngestError::Internal { message }) ==> said_by(e) == message@,
        e matches ServeError::Scan(ScanError::Workflow(WorkflowError::InvalidOptions(message)))
            ==> said_by(e) == message@,
        e matches ServeError::Scan(ScanError::Workflow(WorkflowError::Pipeline(message)))
            ==> said_by(e) == message@,
        e matches ServeError::Scan(ScanError::Serialization(message)) ==> said_by(e) == message@,
{
}

/// An error shows its kind and its message, as JSON writes them, and the version of
/// the interface; nothing else.
pub proof fn law_errors_are_framed(status: u16, kind: Seq<char>, message: Seq<char>)
    ensures
        error_answer(status, kind, message).status == status,
        error_answer(status, kind, message).body == seq!['{', '"'] + "status"@ + seq!['"', ':']
            + json::json_text(kind) + seq![',', '"'] + "message"@ + seq!['"', ':']
            + json::json_text(message) + seq![',', '"'] + "api_version"@ + seq!['"', ':']
            + json::json_text("v1"@) + seq!['}'],
{
    let one = ("status"@, json::json_text(kind));
    let two = ("message"@, json::json_text(message));
    let three = ("api_version"@, json::json_text("v1"@));
    json::law_object_text(seq![], one);
    json::law_object_text(seq![one], two);
    json::law_object_text(seq![one, two], three);
    assert(seq![].push(one) =~= seq![one]);
    assert(seq![one].push(two) =~= seq![one, two]);
    assert(seq![one, two].push(three) =~= seq![one, two, three]);
    assert(error_answer(status, kind, message).body =~= seq!['{', '"'] + "status"@ + seq!['"', ':']
        + json::json_text(kind) + seq![',', '"'] + "message"@ + seq!['"', ':'] + json::json_text(
        message,
    ) + seq![',', '"'] + "api_version"@ + seq!['"', ':'] + json::json_text("v1"@) + seq!['}']);
}

/// The state of a job is told under the names that clients read it by, in that order.
pub proof fn law_states_are_framed(
    id: Seq<char>,
    state: Seq<char>,
    ready: bool,
    message: Seq<char>,
    version: Seq<char>,
)
    ensures
        status_body(id, state, ready, None, version) == json::object_text(
            seq![
                ("job_id"@, id),
                ("state"@, state),
                (
                    "result_ready"@,
                    if ready {
                        "true"@
                    } else {
                        "false"@
                    },
                ),
                ("api_version"@, version),
            ],
        ),
        status_body(id, state, ready, Some(message), version) == json::object_text(
            seq![
                ("job_id"@, id),
                ("state"@, state),
                (
                    "result_ready"@,
                    if ready {
                        "true"@
                    } else {
                        "false"@
                    },
                ),
                ("message"@, message),
                ("api_version"@, version),
            ],
        ),
{
    let told = if ready {
        "true"@
    } else {
        "false"@
    };
    let known = seq![("job_id"@, id), ("state"@, state), ("result_ready"@, told)];
    assert(known.push(("api_version"@, version)) =~= seq![
        ("job_id"@, id),
        ("state"@, state),
        ("result_ready"@, told),
        ("api_version"@, version),
    ]);
    assert(known.push(("message"@, message)).push(("api_version"@, version)) =~= seq![
        ("job_id"@, id),
        ("state"@, state),
        ("result_ready"@, told),
        ("message"@, message),
        ("api_version"@, version),
    ]);
}

/// A body is taken up to twenty-four mebibytes, and refused beyond as too large: by
/// its length, and when it was read. A request that is taken is the one that came.
pub proof fn law_long_bodies_are_refused(
    length: usize,
    method: Method,
    path: String,
    headers: Vec<HeaderLine>,
    body: Vec<u8>,
    checked: Result<(), ServeError>,
    read: Result<ParsedRequest, ServeError>,
)
    requires
        call_ensures(check_body_length, (length,), checked),
        call_ensures(parse_request, (method, path, headers, body), read),
    ensures
        checked is Ok == (length <= 24 * 1024 * 1024),
        read is Ok == (body@.len() <= 24 * 1024 * 1024),
        checked is Err ==> status_of(checked->Err_0) == 413 && unread_answer(
            checked->Err_0,
        ).status == 413,
        read is Err ==> status_of(read->Err_0) == 413 && unread_answer(read->Err_0).status == 413,
        read is Ok ==> read->Ok_0.method == method && read->Ok_0.path == path
            && read->Ok_0.headers == headers && read->Ok_0.body == body,
{
}

/// A request that a queue takes is not answered yet. One that it does not take is
/// answered that the server is busy, and the workers are missed only where they are
/// gone.
pub proof fn law_full_queues_are_busy(
    outcome: QueueOutcome,
    label: &str,
    busy_message: &str,
    r: (Option<HttpResponse>, Option<String>),
)
    requires
        call_ensures(queue_step, (outcome, label, busy_message), r),
    ensures
        outcome is Sent ==> r.0 is None && r.1 is None,
        outcome is Full ==> r.0 is Some && r.1 is None,
        outcome is Disconnected ==> r.0 is Some && r.1 is Some && r.1->0@ == "serve "@ + label@
            + " request workers stopped"@,
        r.0 is Some ==> r.0->0@ == error_answer(503, "server_busy"@, busy_message@),
{
}

} // verus!
