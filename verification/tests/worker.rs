use std::path::PathBuf;

use barm_worker::worker::{run, run_legacy, worker_id_from, BarmWorkerConfig, WorkerError};
use barm_worker::zenoh_client::ClientError;

type PathConfig = BarmWorkerConfig<PathBuf, f32>;

fn config() -> PathConfig {
    BarmWorkerConfig::new("tcp/a:1".to_string(), "llama".to_string(), PathBuf::from("cache"))
}

fn is_generated(id: &str) -> bool {
    id.len() == 16
        && id.starts_with("vllm-rs-")
        && id[8..].chars().all(|c| c.is_ascii_digit() || ('a'..='f').contains(&c))
}

#[test]
fn new_configuration_is_bare() {
    let config = config();
    assert_eq!(config.zenoh_peer, "tcp/a:1");
    assert_eq!(config.model_name, "llama");
    assert_eq!(config.cache_dir, PathBuf::from("cache"));
    assert_eq!(config.memory_config.max_model_len, None);
    assert_eq!(config.memory_config.max_num_seqs, None);
    assert_eq!(config.memory_config.kv_fraction, None);
    assert_eq!(config.trace_context.traceparent, None);
    assert!(is_generated(&config.worker_id));
}

#[test]
fn generated_worker_ids_differ() {
    assert_ne!(config().worker_id, config().worker_id);
}

#[test]
fn worker_id_takes_the_first_group() {
    assert_eq!(
        worker_id_from("936da01f-9abd-4d9d-80c7-02af85c822a8"),
        "vllm-rs-936da01f"
    );
    assert_eq!(worker_id_from("abc"), "vllm-rs-abc");
    assert_eq!(worker_id_from(""), "vllm-rs-");
}

#[test]
fn builders_set_one_thing_each() {
    let config = config()
        .with_memory_config(Some(1), Some(2), Some(0.5))
        .with_trace_context(Some("00-t-s-01".to_string()))
        .with_worker_id("me".to_string());
    assert_eq!(config.memory_config.max_model_len, Some(1));
    assert_eq!(config.memory_config.max_num_seqs, Some(2));
    assert_eq!(config.memory_config.kv_fraction, Some(0.5));
    assert_eq!(config.trace_context.trace_id.as_deref(), Some("t"));
    assert_eq!(config.trace_context.span_id.as_deref(), Some("s"));
    assert_eq!(config.worker_id, "me");
    assert_eq!(config.zenoh_peer, "tcp/a:1");

    let config = config.with_trace_context(None);
    assert_eq!(config.trace_context.traceparent.as_deref(), Some("00-t-s-01"));
}

#[test]
fn legacy_parameters_make_a_configuration() {
    let config: PathConfig = run_legacy(
        "p".to_string(),
        "m".to_string(),
        PathBuf::from("c"),
        Some(3),
        None,
        Some(0.9),
        Some("a-b-c".to_string()),
    );
    assert_eq!(config.zenoh_peer, "p");
    assert_eq!(config.model_name, "m");
    assert_eq!(config.cache_dir, PathBuf::from("c"));
    assert_eq!(config.memory_config.max_model_len, Some(3));
    assert_eq!(config.memory_config.max_num_seqs, None);
    assert_eq!(config.memory_config.kv_fraction, Some(0.9));
    assert_eq!(config.trace_context.span_id.as_deref(), Some("c"));
    assert!(is_generated(&config.worker_id));
}

#[test]
fn running_starts_a_client_with_the_configuration() {
    let launch = run::<PathBuf, u8, f32>(config().with_memory_config(Some(1), Some(2), Some(0.5)));
    assert_eq!(launch.peer, "tcp/a:1");
    assert_eq!(launch.model_name, "llama");
    assert_eq!(launch.client.weight_loader.cache_dir, PathBuf::from("cache"));
    assert_eq!(launch.client.model_engine.memory_config.kv_fraction, Some(0.5));
    assert!(!launch.client.model_engine.is_loaded());
    assert!(!launch.client.asset_tracker.all_received());
}

#[test]
fn failures_of_a_worker_are_told() {
    let cause = || ClientError::Connect("refused".to_string());
    assert_eq!(WorkerError::Create(cause()).message(), "Failed to create Zenoh client");
    assert_eq!(WorkerError::Run(cause()).message(), "Failed to run Zenoh client");
}
