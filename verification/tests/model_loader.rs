use barm_worker::model_loader::{
    detect_device, device_name, get_model_architecture, ArchitectureError, ArchitectureFields,
    BuildFailure, ConfigFile, LoadError, MemoryConfig, ModelEngine, StreamStart,
};
use barm_worker::paths::{CachePath, CacheSnapshot};
use barm_worker::stream::{InferenceError, StreamItem};

type Engine = ModelEngine<u8, f32>;

fn model_dir() -> CachePath {
    CachePath::top("test")
}

fn complete_disk() -> CacheSnapshot {
    let mut disk = CacheSnapshot::new();
    disk.note(model_dir());
    disk.note(model_dir().join("config.json"));
    disk.note(model_dir().join("tokenizer.json"));
    disk
}

#[test]
fn test_model_engine_creation() {
    let engine = Engine::new("test-model".to_string());
    assert!(!engine.is_loaded());
    assert_eq!(engine.model_name, "test-model");
}

#[test]
fn test_model_engine_with_memory_config() {
    let config = MemoryConfig {
        max_model_len: Some(1024),
        max_num_seqs: Some(8),
        kv_fraction: Some(0.8),
    };
    let engine = Engine::with_memory_config("test-model".to_string(), config);
    assert!(!engine.is_loaded());
    assert_eq!(engine.memory_config.max_model_len, Some(1024));
    assert_eq!(engine.memory_config.max_num_seqs, Some(8));
    assert_eq!(engine.memory_config.kv_fraction, Some(0.8));
}

#[test]
fn test_memory_config_defaults() {
    let config = MemoryConfig::<f32>::default();
    assert!(config.max_model_len.is_none());
    assert!(config.max_num_seqs.is_none());
    assert!(config.kv_fraction.is_none());
}

#[test]
fn test_set_memory_config() {
    let mut engine = Engine::new("test".to_string());
    let config = MemoryConfig {
        max_model_len: Some(2048),
        max_num_seqs: Some(4),
        kv_fraction: None,
    };
    engine.set_memory_config(config);
    assert_eq!(engine.memory_config.max_model_len, Some(2048));
}

#[test]
fn test_engine_shutdown() {
    let mut engine = Engine::new("test".to_string());
    engine.shutdown();
    assert!(!engine.is_loaded());
}

#[test]
fn test_load_model_missing_config() {
    let engine = Engine::new("test".to_string());

    // Try to load without config.json
    let result = engine.load_model(&model_dir(), &CacheSnapshot::new());
    assert!(result.is_err());
    assert!(result.unwrap_err().message().contains("Config file not found"));
}

#[test]
fn test_load_model_missing_tokenizer() {
    // Create only config.json
    let mut disk = CacheSnapshot::new();
    disk.note(model_dir().join("config.json"));

    let engine = Engine::new("test".to_string());
    let result = engine.load_model(&model_dir(), &disk);
    assert!(result.is_err());
    assert!(result.unwrap_err().message().contains("Tokenizer file not found"));
}

fn parsed(architecture: Option<&str>, architectures: Option<Vec<&str>>) -> ConfigFile {
    ConfigFile::Parsed(ArchitectureFields {
        architecture: architecture.map(|s| s.to_string()),
        architectures: architectures.map(|v| v.iter().map(|s| s.to_string()).collect()),
    })
}

#[test]
fn test_get_model_architecture_with_architecture_field() {
    let result = get_model_architecture(parsed(Some("Qwen2ForCausalLM"), None));
    assert!(result.is_ok());
    assert_eq!(result.unwrap(), "Qwen2ForCausalLM");
}

#[test]
fn test_get_model_architecture_with_architectures_field() {
    let result = get_model_architecture(parsed(None, Some(vec!["LlamaForCausalLM"])));
    assert!(result.is_ok());
    assert_eq!(result.unwrap(), "LlamaForCausalLM");
}

#[test]
fn test_get_model_architecture_no_field() {
    let result = get_model_architecture(parsed(None, None));
    assert!(result.is_err());
    assert_eq!(
        result.unwrap_err().message(),
        "Could not determine model architecture from config"
    );
}

#[test]
fn test_detect_device() {
    let device = detect_device();
    // Should return a valid device string
    assert!(device == "metal" || device == "cuda" || device == "cpu");
}

#[test]
fn single_architecture_goes_before_the_list() {
    let result = get_model_architecture(parsed(Some("A"), Some(vec!["B", "C"])));
    assert_eq!(result.unwrap(), "A");
    let result = get_model_architecture(parsed(None, Some(vec!["B", "C"])));
    assert_eq!(result.unwrap(), "B");
    let result = get_model_architecture(parsed(None, Some(vec![])));
    assert_eq!(result.unwrap(), "Unknown");
}

#[test]
fn unusable_configuration_files_are_told() {
    let result = get_model_architecture(ConfigFile::Unreadable("gone".to_string()));
    match result {
        Err(e) => {
            assert_eq!(e.message(), "Failed to read config file");
            assert!(matches!(e, ArchitectureError::Unreadable(cause) if cause == "gone"));
        }
        Ok(_) => panic!(),
    }
    let result = get_model_architecture(ConfigFile::Malformed("odd".to_string()));
    match result {
        Err(e) => {
            assert_eq!(e.message(), "Failed to parse config JSON");
            assert!(matches!(e, ArchitectureError::Malformed(cause) if cause == "odd"));
        }
        Ok(_) => panic!(),
    }
}

#[test]
fn metal_goes_before_cuda() {
    assert_eq!(device_name(true, true), "metal");
    assert_eq!(device_name(true, false), "metal");
    assert_eq!(device_name(false, true), "cuda");
    assert_eq!(device_name(false, false), "cpu");
}

#[test]
fn settings_fall_back_to_defaults() {
    let engine = Engine::new("test".to_string());
    let config = engine.load_model(&model_dir(), &complete_disk()).unwrap();
    assert_eq!(config.weight_dir.names, vec!["test"]);
    assert_eq!(config.max_num_seqs, 4);
    assert_eq!(config.max_model_len, 512);
    assert_eq!(config.max_tokens, 1024);
    assert_eq!(config.num_shards, 1);
    assert!(!config.server_mode);
    assert_eq!(config.kv_fraction, None);
}

#[test]
fn settings_follow_the_memory_configuration() {
    let memory =
        MemoryConfig { max_model_len: Some(9), max_num_seqs: Some(3), kv_fraction: Some(0.5) };
    let engine = Engine::with_memory_config("test".to_string(), memory);
    let config = engine.load_model(&model_dir(), &complete_disk()).unwrap();
    assert_eq!(config.max_num_seqs, 3);
    assert_eq!(config.max_model_len, 9);
    assert_eq!(config.kv_fraction, Some(0.5));
}

#[test]
fn engine_is_loaded_once_it_is_built() {
    let mut engine = Engine::new("test".to_string());
    match engine.finish_load(Err(BuildFailure::Task("a".to_string()))) {
        Err(e) => {
            assert_eq!(e.message(), "Failed to spawn blocking task for model loading");
            assert!(matches!(e, LoadError::TaskFailed(cause) if cause == "a"));
        }
        Ok(()) => panic!(),
    }
    match engine.finish_load(Err(BuildFailure::Engine("b".to_string()))) {
        Err(e) => {
            assert_eq!(e.message(), "Failed to load model");
            assert!(matches!(e, LoadError::EngineFailed(cause) if cause == "b"));
        }
        Ok(()) => panic!(),
    }
    assert!(!engine.is_loaded());
    assert!(engine.finish_load(Ok(7)).is_ok());
    assert!(engine.is_loaded());
    assert_eq!(engine.engine, Some(7));
    engine.shutdown();
    assert!(!engine.is_loaded());
}

#[test]
fn prompt_becomes_one_user_message() {
    let mut engine = Engine::new("test".to_string());
    engine.finish_load(Ok(7)).unwrap();
    let job = engine.complete("hello", 12, Some(0.25), 1.0).unwrap();
    assert_eq!(job.messages.len(), 1);
    assert_eq!(job.messages[0].role, "user");
    assert_eq!(job.messages[0].content, "hello");
    assert_eq!(job.messages[0].num_images, 0);
    assert_eq!(job.sampling.max_tokens, Some(12));
    assert_eq!(job.sampling.temperature, Some(0.25));

    let job = engine.complete("hello", 12, None, 1.0).unwrap();
    assert_eq!(job.sampling.temperature, Some(1.0));

    match engine.stream_complete("hi", 3, None, 1.0) {
        StreamStart::Run(job) => {
            assert_eq!(job.messages[0].content, "hi");
            assert_eq!(job.sampling.max_tokens, Some(3));
            assert_eq!(job.sampling.temperature, Some(1.0));
        }
        StreamStart::Only(item) => panic!("{:?}", item),
    }
}

#[test]
fn without_a_model_nothing_is_answered() {
    let engine = Engine::new("test".to_string());
    match engine.complete("hello", 12, None, 1.0) {
        Err(e) => {
            assert_eq!(e.message(), "Inference task failed");
            assert!(matches!(e, InferenceError::TaskFailed));
        }
        Ok(job) => panic!("{:?}", job),
    }
    match engine.stream_complete("hello", 12, None, 1.0) {
        StreamStart::Only(StreamItem::Error(text)) => assert_eq!(text, "Inference task failed"),
        other => panic!("{:?}", other),
    }
}
