use barm_worker::telemetry::{
    create_child_span_from_request, init_vllm_telemetry, Attribute, VllmTelemetryConfig,
};

fn pairs(attributes: &[Attribute]) -> Vec<(&str, &str)> {
    attributes.iter().map(|a| (a.name.as_str(), a.value.as_str())).collect()
}

#[test]
fn usual_configuration_has_no_endpoint() {
    let config = VllmTelemetryConfig::with_rate(1.0);
    assert_eq!(config.service_name, "vllm-rs");
    assert_eq!(config.otlp_endpoint, None);
    assert_eq!(config.sampling_rate, 1.0);
    assert!(init_vllm_telemetry(&config, "0.1.0").is_none());
}

#[test]
fn endpoint_is_set_up() {
    let mut config = VllmTelemetryConfig::with_rate(0.5);
    config.service_name = "svc".to_string();
    config.otlp_endpoint = Some("http://localhost:4317".to_string());
    let setup = init_vllm_telemetry(&config, "1.2.3").unwrap();
    assert_eq!(setup.endpoint, "http://localhost:4317");
    assert_eq!(setup.timeout_secs, 30);
    assert_eq!(setup.tracer, "svc");
    assert_eq!(setup.sampling_rate, 0.5);
    assert_eq!(
        pairs(&setup.resource),
        vec![
            ("service.name", "svc"),
            ("service.version", "1.2.3"),
            ("deployment.environment", "development"),
        ]
    );
}

#[test]
fn child_span_records_its_parent() {
    let span = create_child_span_from_request("trace", "parent", "req", "llama");
    assert_eq!(span.name, "vllm.inference");
    assert_eq!(
        pairs(&span.fields),
        vec![
            ("request_id", "req"),
            ("model", "llama"),
            ("otel.trace_id", "trace"),
            ("otel.parent_span_id", "parent"),
        ]
    );
}
