use std::path::PathBuf;

use barm_worker::model_loader::{BuildFailure, LoadError, MemoryConfig};
use barm_worker::paths::CacheSnapshot;
use barm_worker::stream::InferenceError;
use barm_worker::weight_loader::AssetKind;
use barm_worker::zenoh_client::{
    AssetStep, AssetTracker, ClientError, DeviceType, Feed, InferenceEvent, InferenceRequest,
    InferenceStep, LoadEvent, LoadStep, ModelConfig, ModelLoadRequest, Received, ShardCount,
    WorkerRegistrationResponse, ZenohClient,
};

type Client = ZenohClient<PathBuf, u8, f32>;

fn client() -> Client {
    let mut client = Client::new(PathBuf::from("cache"), MemoryConfig::default());
    client.run("llama");
    client
}

fn receive_all(client: &mut Client) {
    let mut count = ShardCount { stored: 0 };
    client.config_stored(true);
    client.tokenizer_stored(true);
    assert!(client.weights_stored(&mut count, true).is_some());
}

fn loaded_client() -> Client {
    let mut client = client();
    receive_all(&mut client);
    client.finish_load(Ok(7)).unwrap();
    client
}

fn request(id: &str) -> InferenceRequest<f32> {
    InferenceRequest {
        request_id: id.to_string(),
        prompt: "hello".to_string(),
        max_tokens: None,
        temperature: None,
        top_p: None,
        top_k: None,
        stop_sequences: None,
    }
}

fn load_request() -> LoadEvent {
    LoadEvent::Request(ModelLoadRequest {
        model_name: "llama".to_string(),
        architecture: "LlamaForCausalLM".to_string(),
        overwrite: false,
    })
}

#[test]
fn running_subscribes_to_five_feeds() {
    let mut client = Client::new(PathBuf::from("cache"), MemoryConfig::default());
    let feeds: Vec<(Feed, String)> =
        client.run("llama").into_iter().map(|s| (s.feed, s.key)).collect();
    assert_eq!(
        feeds,
        vec![
            (Feed::Config, "barm/model/llama/config".to_string()),
            (Feed::Tokenizer, "barm/model/llama/tokenizer".to_string()),
            (Feed::Weights, "barm/model/llama/weights/**".to_string()),
            (Feed::ModelLoad, "barm/model/load".to_string()),
            (Feed::Inference, "barm/inference/llama".to_string()),
        ]
    );
    assert_eq!(client.model_name, "llama");
    assert_eq!(client.model_engine.model_name, "llama");
}

#[test]
fn running_keeps_the_memory_configuration_and_drops_the_engine() {
    let memory =
        MemoryConfig { max_model_len: Some(1), max_num_seqs: Some(2), kv_fraction: Some(0.5) };
    let mut client = Client::new(PathBuf::from("cache"), memory);
    client.run("a");
    receive_all(&mut client);
    client.finish_load(Ok(7)).unwrap();
    assert!(client.model_engine.is_loaded());
    client.run("b");
    assert!(!client.model_engine.is_loaded());
    assert_eq!(client.model_engine.memory_config.max_model_len, Some(1));
    assert_eq!(client.model_engine.memory_config.kv_fraction, Some(0.5));
}

#[test]
fn feeds_have_different_keys() {
    for model in ["", "load", "config", "barm/model/load", "a/b"] {
        let mut client = Client::new(PathBuf::from("cache"), MemoryConfig::default());
        let mut keys: Vec<String> = client.run(model).into_iter().map(|s| s.key).collect();
        keys.sort();
        keys.dedup();
        assert_eq!(keys.len(), 5);
    }
}

#[test]
fn keys_name_workers_and_requests() {
    let client = client();
    let result = client.submit_result("r-1", "text");
    assert_eq!(result.key, "barm/result/r-1");
    assert_eq!(result.payload, "text");
    let heartbeat = client.send_heartbeat("w-1");
    assert_eq!(heartbeat.key, "barm/worker/alive/w-1");
    assert_eq!(heartbeat.period_secs, 30);
    assert_eq!(client.subscribe_requests("w-1"), "barm/request/w-1");
    assert_ne!(client.submit_result("a", "").key, client.submit_result("b", "").key);
}

#[test]
fn registration_hands_the_answer_on() {
    let response = client().register(None);
    assert!(response.model_config.is_none());
    assert_eq!(response.worker_id.len(), 4);

    let config = ModelConfig {
        model_id: "llama".to_string(),
        device: DeviceType::Cuda,
        params: serde_json::Value::Bool(true),
    };
    let answer =
        WorkerRegistrationResponse { worker_id: "w-7".to_string(), model_config: Some(config) };
    let response = client().register(Some(answer));
    assert_eq!(response.worker_id, "w-7");
    let config = response.model_config.clone().unwrap();
    assert_eq!(config.model_id, "llama");
    assert_eq!(config.device, DeviceType::Cuda);
    assert_eq!(config.params, serde_json::Value::Bool(true));
}

#[test]
fn tracker_waits_for_every_kind() {
    for order in [[0, 1, 2], [0, 2, 1], [1, 0, 2], [1, 2, 0], [2, 0, 1], [2, 1, 0]] {
        let mut tracker = AssetTracker::new();
        for (n, kind) in order.into_iter().enumerate() {
            assert!(!tracker.all_received());
            for _ in 0..=n {
                match kind {
                    0 => tracker.mark_config_received(),
                    1 => tracker.mark_tokenizer_received(),
                    _ => tracker.mark_weights_received(),
                }
            }
        }
        assert!(tracker.all_received());
    }
    assert!(!AssetTracker::default().all_received());
}

#[test]
fn asset_messages_are_stored() {
    let client = client();
    match client.handle_config_subscriber(Received::Sample("k", b"c"), "llama") {
        AssetStep::Store(plan) => {
            assert_eq!(plan.kind, AssetKind::Config);
            assert_eq!(plan.dir.names, vec!["llama"]);
            assert_eq!(plan.file.names, vec!["llama", "config.json"]);
            assert_eq!(plan.data, b"c");
        }
        other => panic!("{:?}", other),
    }
    match client.handle_tokenizer_subscriber(Received::Sample("k", b"t"), "llama") {
        AssetStep::Store(plan) => {
            assert_eq!(plan.kind, AssetKind::Tokenizer);
            assert_eq!(plan.file.names, vec!["llama", "tokenizer.json"]);
            assert_eq!(plan.data, b"t");
        }
        other => panic!("{:?}", other),
    }
    for (key, file) in [
        ("barm/model/llama/weights/shard-012", "shard-012.safetensors"),
        ("barm/model/llama/weights/12", "shard-000.safetensors"),
        ("barm/model/llama/weights/shard-99999999999", "shard-000.safetensors"),
    ] {
        match client.handle_weights_subscriber(Received::Sample(key, b"w"), "llama") {
            AssetStep::Store(plan) => {
                assert_eq!(plan.kind, AssetKind::Weights);
                assert_eq!(plan.dir.names, vec!["llama", "weights"]);
                assert_eq!(plan.file.names, vec!["llama", "weights", file]);
                assert_eq!(plan.data, b"w");
            }
            other => panic!("{:?}", other),
        }
    }
}

#[test]
fn broken_feeds_stop_their_handlers() {
    let client = client();
    let failed = || "closed".to_string();
    let steps = vec![
        client.handle_config_subscriber(Received::Failed(failed()), "llama"),
        client.handle_tokenizer_subscriber(Received::Failed(failed()), "llama"),
        client.handle_weights_subscriber(Received::Failed(failed()), "llama"),
    ];
    let texts: Vec<String> = steps
        .iter()
        .map(|step| match step {
            AssetStep::Stop(e) => e.message(),
            other => panic!("{:?}", other),
        })
        .collect();
    assert_eq!(
        texts,
        vec![
            "Config subscriber error: closed",
            "Tokenizer subscriber error: closed",
            "Weights subscriber error: closed",
        ]
    );
    match client.handle_model_load_subscriber(LoadEvent::Failed(failed())) {
        LoadStep::Stop(e) => assert_eq!(e.message(), "Model load subscriber error: closed"),
        other => panic!("{:?}", other),
    }
    match client.handle_inference_requests(InferenceEvent::Failed(failed()), 1.0) {
        InferenceStep::Stop(e) => assert_eq!(e.message(), "Inference subscriber error: closed"),
        other => panic!("{:?}", other),
    }
}

#[test]
fn model_is_loaded_after_the_last_asset() {
    let mut client = client();
    let mut count = ShardCount { stored: 0 };
    assert!(client.config_stored(false).is_none());
    assert!(!client.asset_tracker.config_received);
    assert!(client.config_stored(true).is_none());
    assert!(client.weights_stored(&mut count, false).is_none());
    assert_eq!(count.stored, 0);
    assert!(!client.asset_tracker.weights_received);
    assert!(client.weights_stored(&mut count, true).is_none());
    assert_eq!(count.stored, 1);
    assert!(client.check_and_load_model().is_none());
    assert!(matches!(client.handle_model_load_subscriber(load_request()), LoadStep::Wait));
    assert_eq!(client.tokenizer_stored(true).unwrap().names, vec!["llama"]);

    // every further asset, and every request, loads the model again
    assert!(client.weights_stored(&mut count, true).is_some());
    assert_eq!(count.stored, 2);
    assert!(client.config_stored(true).is_some());
    assert!(client.config_stored(false).is_none());
    match client.handle_model_load_subscriber(load_request()) {
        LoadStep::Load(dir) => assert_eq!(dir.names, vec!["llama"]),
        other => panic!("{:?}", other),
    }
    assert!(matches!(client.handle_model_load_subscriber(LoadEvent::Malformed), LoadStep::Wait));
}

#[test]
fn loading_needs_configuration_and_tokenizer() {
    let client = client();
    let mut disk = CacheSnapshot::new();
    assert!(matches!(client.begin_load(&disk), Err(LoadError::ConfigMissing(_))));
    disk.note(client.weight_loader.config_file("llama"));
    assert!(matches!(client.begin_load(&disk), Err(LoadError::TokenizerMissing(_))));
    disk.note(client.weight_loader.tokenizer_file("llama"));
    let config = client.begin_load(&disk).unwrap();
    assert_eq!(config.weight_dir.names, vec!["llama"]);
    assert_eq!(config.max_model_len, 512);
}

#[test]
fn failed_build_leaves_the_client_as_it_was() {
    let mut client = client();
    receive_all(&mut client);
    assert!(client.finish_load(Err(BuildFailure::Task("gone".to_string()))).is_err());
    assert!(client.finish_load(Err(BuildFailure::Engine("bad".to_string()))).is_err());
    assert!(!client.model_engine.is_loaded());
}

#[test]
fn test_inference_follows_loading() {
    assert!(client().run_test_inference(0.7).is_none());
    let client = loaded_client();
    let job = client.run_test_inference(0.7).unwrap();
    assert_eq!(job.messages[0].content, "what is the capital of China");
    assert_eq!(job.sampling.max_tokens, Some(100));
    assert_eq!(job.sampling.temperature, Some(0.7));
    let result = client.test_inference_done(Ok(("Beijing".to_string(), 2))).unwrap();
    assert_eq!(result.key, "barm/result/test-001");
    assert_eq!(result.payload, "Beijing");
    assert!(client.test_inference_done(Err(InferenceError::TaskFailed)).is_none());
}

#[test]
fn request_before_loading_is_answered_with_an_error() {
    match client().handle_inference_requests(InferenceEvent::Request(request("r\"1")), 1.0) {
        InferenceStep::Answer(p) => {
            assert_eq!(p.key, "barm/result/r\"1");
            assert_eq!(p.payload, r#"{"error":"Model not loaded yet","request_id":"r\"1"}"#);
        }
        other => panic!("{:?}", other),
    }
    assert!(matches!(
        client().handle_inference_requests(InferenceEvent::Malformed, 1.0),
        InferenceStep::Wait
    ));
}

#[test]
fn request_after_loading_is_given_to_the_engine() {
    let client = loaded_client();
    match client.handle_inference_requests(InferenceEvent::Request(request("r-1")), 1.0) {
        InferenceStep::Infer(id, job) => {
            assert_eq!(id, "r-1");
            assert_eq!(job.messages[0].content, "hello");
            assert_eq!(job.sampling.max_tokens, Some(1024));
            assert_eq!(job.sampling.temperature, Some(1.0));
        }
        other => panic!("{:?}", other),
    }
    let mut asked = request("r-2");
    asked.max_tokens = Some(5);
    asked.temperature = Some(0.1);
    match client.handle_inference_requests(InferenceEvent::Request(asked), 1.0) {
        InferenceStep::Infer(_, job) => {
            assert_eq!(job.sampling.max_tokens, Some(5));
            assert_eq!(job.sampling.temperature, Some(0.1));
        }
        other => panic!("{:?}", other),
    }
}

#[test]
fn outcome_of_an_inference_is_published() {
    let client = loaded_client();
    let p = client.inference_done("r-1", Ok(("Beijing".to_string(), 2)));
    assert_eq!(p.key, "barm/result/r-1");
    assert_eq!(p.payload, "Beijing");
    let p = client.inference_done("r-1", Err("Inference task failed\n".to_string()));
    assert_eq!(p.key, "barm/result/r-1");
    assert_eq!(p.payload, r#"{"error":"Inference task failed\n","request_id":"r-1"}"#);
}

#[test]
fn shutdown_ends_every_handler() {
    for mut client in [client(), loaded_client()] {
        assert!(!client.shutdown.requested);
        client.shutdown();
        assert!(client.shutdown.requested);
        for _ in 0..2 {
            let sample = || Received::Sample("barm/model/llama/weights/shard-1", b"x");
            let failed = || Received::Failed("closed".to_string());
            for received in [sample(), failed()] {
                let step = client.handle_config_subscriber(received, "llama");
                assert!(matches!(step, AssetStep::Ended));
            }
            for received in [sample(), failed()] {
                let step = client.handle_tokenizer_subscriber(received, "llama");
                assert!(matches!(step, AssetStep::Ended));
            }
            for received in [sample(), failed()] {
                let step = client.handle_weights_subscriber(received, "llama");
                assert!(matches!(step, AssetStep::Ended));
            }
            for event in [load_request(), LoadEvent::Malformed, LoadEvent::Failed("x".to_string())]
            {
                let step = client.handle_model_load_subscriber(event);
                assert!(matches!(step, LoadStep::Ended));
            }
            for event in [
                InferenceEvent::Request(request("r-1")),
                InferenceEvent::Malformed,
                InferenceEvent::Failed("x".to_string()),
            ] {
                let step = client.handle_inference_requests(event, 1.0);
                assert!(matches!(step, InferenceStep::Ended));
            }
            // the signal outlasts whatever else happens
            client.config_stored(true);
            client.run("other");
        }
    }
}

#[test]
fn assets_go_to_the_model_of_their_feed() {
    let mut client = client();
    client.run("other");
    match client.handle_config_subscriber(Received::Sample("k", b"c"), "llama") {
        AssetStep::Store(plan) => assert_eq!(plan.file.names, vec!["llama", "config.json"]),
        other => panic!("{:?}", other),
    }
}

#[test]
fn errors_are_told_in_words() {
    let c = || "x".to_string();
    for (error, text) in [
        (ClientError::Config(c()), "Failed to create config: x"),
        (ClientError::Connect(c()), "Failed to connect to Zenoh: x"),
        (ClientError::Publisher(c()), "Failed to declare publisher: x"),
        (ClientError::Publish(c()), "Failed to publish result: x"),
        (ClientError::Token(c()), "Failed to declare liveliness token: x"),
        (ClientError::RequestSubscriber(c()), "Failed to declare subscriber: x"),
        (ClientError::Subscriber(Feed::Config, c()), "Failed to declare config subscriber: x"),
        (
            ClientError::Subscriber(Feed::Tokenizer, c()),
            "Failed to declare tokenizer subscriber: x",
        ),
        (ClientError::Subscriber(Feed::Weights, c()), "Failed to declare weights subscriber: x"),
        (
            ClientError::Subscriber(Feed::ModelLoad, c()),
            "Failed to declare model load subscriber: x",
        ),
        (
            ClientError::Subscriber(Feed::Inference, c()),
            "Failed to declare inference subscriber: x",
        ),
    ] {
        assert_eq!(error.message(), text);
    }
}
