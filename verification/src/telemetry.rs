//! Telemetry of a worker: what distributed tracing is set up with, and what a
//! span records.

use vstd::prelude::*;
use vstd::string::*;

verus! {

/// vLLM.rs telemetry configuration
///
/// `R` is the type of the sampling rate.
#[derive(Debug, Clone)]
pub struct VllmTelemetryConfig<R> {
    /// Service name for tracing
    pub service_name: String,
    /// OTLP endpoint (optional)
    pub otlp_endpoint: Option<String>,
    /// Sampling rate (0.0 to 1.0)
    pub sampling_rate: R,
}

/// A named value.
#[derive(Debug)]
pub struct Attribute {
    pub name: String,
    pub value: String,
}

impl Attribute {
    /// Whether this gives a value to a name.
    pub open spec fn gives(self, name: Seq<char>, value: Seq<char>) -> bool {
        self.name@ == name && self.value@ == value
    }
}

/// The attribute of a name and a value.
fn attribute(name: &str, value: &str) -> (r: Attribute)
    ensures
        r.gives(name@, value@),
{
    Attribute { name: name.to_owned(), value: value.to_owned() }
}

/// What OTLP tracing is set up with.
#[derive(Debug)]
pub struct OtlpSetup<R> {
    /// Where spans are exported to
    pub endpoint: String,
    /// After how many seconds an export is given up
    pub timeout_secs: u64,
    /// What describes the service
    pub resource: Vec<Attribute>,
    /// The name of the tracer
    pub tracer: String,
    /// The ratio of traces that are sampled
    pub sampling_rate: R,
}

/// The setup for a service that exports to an endpoint.
pub open spec fn is_setup<R>(
    setup: OtlpSetup<R>,
    endpoint: Seq<char>,
    service: Seq<char>,
    version: Seq<char>,
    sampling_rate: R,
) -> bool {
    &&& setup.endpoint@ == endpoint
    &&& setup.timeout_secs == 30
    &&& setup.resource@.len() == 3
    &&& setup.resource@[0].gives("service.name"@, service)
    &&& setup.resource@[1].gives("service.version"@, version)
    &&& setup.resource@[2].gives("deployment.environment"@, "development"@)
    &&& setup.tracer@ == service
    &&& setup.sampling_rate == sampling_rate
}

impl<R> VllmTelemetryConfig<R> {
    /// The usual configuration: the service `vllm-rs`, without an endpoint,
    /// sampled at the given rate.
    pub fn with_rate(sampling_rate: R) -> (r: Self)
        ensures
            r.service_name@ == "vllm-rs"@,
            r.otlp_endpoint is None,
            r.sampling_rate == sampling_rate,
    {
        VllmTelemetryConfig {
            service_name: "vllm-rs".to_owned(),
            otlp_endpoint: None,
            sampling_rate,
        }
    }
}

/// Initialize OpenTelemetry tracing for vLLM.rs: this is to be set up, if the
/// configuration has an endpoint
///
/// `version` is the version of the service.
pub fn init_vllm_telemetry<R: Copy>(config: &VllmTelemetryConfig<R>, version: &str) -> (r: Option<
    OtlpSetup<R>,
>)
    ensures
        match config.otlp_endpoint {
            Some(endpoint) => r is Some && is_setup(
                r->0,
                endpoint@,
                config.service_name@,
                version@,
                config.sampling_rate,
            ),
            None => r is None,
        },
        r is Some <==> config.otlp_endpoint is Some,
        r is Some ==> {
            &&& r->0.endpoint@ == config.otlp_endpoint->0@
            &&& r->0.timeout_secs == 30
            &&& r->0.tracer@ == config.service_name@
            &&& r->0.sampling_rate == config.sampling_rate
            &&& r->0.resource@.len() == 3
            &&& r->0.resource@[0].name@ == "service.name"@ && r->0.resource@[0].value@ == config.service_name@
            &&& r->0.resource@[1].name@ == "service.version"@ && r->0.resource@[1].value@ == version@
            &&& r->0.resource@[2].name@ == "deployment.environment"@ && r->0.resource@[2].value@ == "development"@
        },
{
    match &config.otlp_endpoint {
        Some(endpoint) => Some(
            setup_otlp_tracing(
                endpoint.as_str(),
                config.service_name.as_str(),
                version,
                config.sampling_rate,
            ),
        ),
        None => None,
    }
}

/// What OTLP tracing is set up with
pub fn setup_otlp_tracing<R>(
    endpoint: &str,
    service_name: &str,
    version: &str,
    sampling_rate: R,
) -> (r: OtlpSetup<R>)
    ensures
        is_setup(r, endpoint@, service_name@, version@, sampling_rate),
        ({
            &&& r.endpoint@ == endpoint@
            &&& r.timeout_secs == 30
            &&& r.tracer@ == service_name@
            &&& r.sampling_rate == sampling_rate
            &&& r.resource@.len() == 3
            &&& r.resource@[0].name@ == "service.name"@ && r.resource@[0].value@ == service_name@
            &&& r.resource@[1].name@ == "service.version"@ && r.resource@[1].value@ == version@
            &&& r.resource@[2].name@ == "deployment.environment"@ && r.resource@[2].value@ == "development"@
        }),
{
    let mut resource: Vec<Attribute> = Vec::new();
    resource.push(attribute("service.name", service_name));
    resource.push(attribute("service.version", version));
    resource.push(attribute("deployment.environment", "development"));
    OtlpSetup {
        endpoint: endpoint.to_owned(),
        timeout_secs: 30,
        resource,
        tracer: service_name.to_owned(),
        sampling_rate,
    }
}

/// A span: its name and what it records.
#[derive(Debug)]
pub struct SpanRecord {
    pub name: String,
    pub fields: Vec<Attribute>,
}

/// Create a child span from trace context received in inference request
///
/// The parent trace is recorded in fields of the span.
pub fn create_child_span_from_request(
    trace_id: &str,
    parent_span_id: &str,
    request_id: &str,
    model: &str,
) -> (r: SpanRecord)
    ensures
        r.name@ == "vllm.inference"@,
        r.fields@.len() == 4,
        r.fields@[0].gives("request_id"@, request_id@),
        r.fields@[1].gives("model"@, model@),
        r.fields@[2].gives("otel.trace_id"@, trace_id@),
        r.fields@[3].gives("otel.parent_span_id"@, parent_span_id@),
        r.fields@[0].name@ == "request_id"@ && r.fields@[0].value@ == request_id@,
        r.fields@[1].name@ == "model"@ && r.fields@[1].value@ == model@,
        r.fields@[2].name@ == "otel.trace_id"@ && r.fields@[2].value@ == trace_id@,
        r.fields@[3].name@ == "otel.parent_span_id"@ && r.fields@[3].value@ == parent_span_id@,
{
    let mut fields: Vec<Attribute> = Vec::new();
    fields.push(attribute("request_id", request_id));
    fields.push(attribute("model", model));
    fields.push(attribute("otel.trace_id", trace_id));
    fields.push(attribute("otel.parent_span_id", parent_span_id));
    SpanRecord { name: "vllm.inference".to_owned(), fields }
}

} // verus!
