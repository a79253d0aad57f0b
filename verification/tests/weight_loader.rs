use std::path::PathBuf;

use barm_worker::paths::{CachePath, CacheSnapshot};
use barm_worker::weight_loader::{
    AssetKind, CacheEntry, CacheError, Listing, StoreEvent, StorePlan, SubEntry, WeightLoader,
};

/// A cache directory that is kept in memory.
struct Disk {
    dirs: Vec<Vec<String>>,
    files: Vec<(Vec<String>, Vec<u8>)>,
}

impl Disk {
    fn new() -> Self {
        Disk { dirs: Vec::new(), files: Vec::new() }
    }

    fn make_dir(&mut self, path: &CachePath) {
        for n in 1..=path.names.len() {
            self.dirs.push(path.names[..n].to_vec());
        }
    }

    fn write(&mut self, path: &CachePath, data: &[u8]) {
        self.files.retain(|(names, _)| *names != path.names);
        self.files.push((path.names.clone(), data.to_vec()));
    }

    fn store(&mut self, plan: &StorePlan) -> CachePath {
        self.make_dir(&plan.dir);
        self.write(&plan.file, plan.data);
        plan.outcome(StoreEvent::Stored).unwrap()
    }

    fn read(&self, path: &CachePath) -> Option<Vec<u8>> {
        self.files.iter().find(|(names, _)| *names == path.names).map(|(_, data)| data.clone())
    }

    /// The listing of a directory directly below the cache directory.
    fn list(&self, top: &CachePath) -> Listing {
        if !self.dirs.contains(&top.names) {
            return None;
        }
        let mut entries: Vec<Result<CacheEntry, String>> = Vec::new();
        let mut inner: Vec<Result<SubEntry, String>> = Vec::new();
        for (names, data) in &self.files {
            if !names.starts_with(&top.names) {
                continue;
            }
            if names.len() == 2 {
                entries.push(Ok(CacheEntry::File(Ok(data.len() as u64))));
            } else {
                inner.push(Ok(SubEntry::File(Ok(data.len() as u64))));
            }
        }
        entries.push(Ok(CacheEntry::Dir(Ok(inner))));
        Some(Ok(entries))
    }

    fn remove(&mut self, dir: &CachePath) {
        self.dirs.retain(|names| !names.starts_with(&dir.names));
        self.files.retain(|(names, _)| !names.starts_with(&dir.names));
    }

    fn snapshot(&self) -> CacheSnapshot {
        let mut snapshot = CacheSnapshot::new();
        for names in self.dirs.iter().chain(self.files.iter().map(|(names, _)| names)) {
            snapshot.note(CachePath { names: names.clone() });
        }
        snapshot
    }
}

fn loader() -> WeightLoader<PathBuf> {
    WeightLoader::new(PathBuf::from("cache"), None)
}

#[test]
fn test_load_config() {
    let loader = loader();
    let mut disk = Disk::new();

    let config_data = r#"{"model_type": "llama", "hidden_size": 4096}"#;

    let plan = loader.load_config("test-model", config_data.as_bytes());
    let config_path = disk.store(&plan);
    assert!(disk.snapshot().has(&config_path));
    assert_eq!(config_path.names, vec!["test-model", "config.json"]);

    let saved_content = String::from_utf8(disk.read(&config_path).unwrap()).unwrap();
    assert_eq!(saved_content, config_data);
}

#[test]
fn test_load_tokenizer() {
    let loader = loader();
    let mut disk = Disk::new();

    let tokenizer_data = r#"{"version": "1.0", "tokens": []}"#;

    let plan = loader.load_tokenizer("test-model", tokenizer_data.as_bytes());
    let tokenizer_path = disk.store(&plan);
    assert!(disk.snapshot().has(&tokenizer_path));
    assert_eq!(tokenizer_path.names, vec!["test-model", "tokenizer.json"]);
}

#[test]
fn test_load_weights() {
    let loader = loader();
    let mut disk = Disk::new();

    let weight_data = b"safetensors header and weights data";

    let plan = loader.load_weights("test-model", "001", weight_data);
    let weight_path = disk.store(&plan);
    assert!(disk.snapshot().has(&weight_path));
    assert_eq!(weight_path.names.last().unwrap(), "shard-001.safetensors");
    assert_eq!(weight_path.names, vec!["test-model", "weights", "shard-001.safetensors"]);
    assert_eq!(plan.dir.names, vec!["test-model", "weights"]);
}

#[test]
fn test_is_model_cached() {
    let loader = loader();
    let mut disk = Disk::new();

    // Initially not cached
    assert!(!loader.is_cached("test-model", &disk.snapshot()));

    // Create config file
    disk.make_dir(&loader.model_dir("test-model"));
    assert!(!loader.is_cached("test-model", &disk.snapshot()));
    disk.write(&loader.model_dir("test-model").join("config.json"), b"{}");

    // Now should be cached
    assert!(loader.is_cached("test-model", &disk.snapshot()));
}

#[test]
fn test_cache_size() {
    let loader = loader();

    let listing = Some(Ok(vec![
        Ok(CacheEntry::File(Ok(2))),
        Ok(CacheEntry::File(Ok(2))),
    ]));

    let size = loader.cache_size("test-model", &listing).unwrap();
    assert!(size > 0);
    assert_eq!(size, 4);
}

#[test]
fn loader_keeps_its_cache_directory() {
    let loader = WeightLoader::new(PathBuf::from("somewhere"), Some("http://x".to_string()));
    assert_eq!(loader.cache_dir(), &PathBuf::from("somewhere"));
    assert_eq!(loader.remote_base_url.as_deref(), Some("http://x"));
}

#[test]
fn stored_model_is_cached() {
    let loader = loader();
    let mut disk = Disk::new();
    disk.store(&loader.load_config("m", b"c"));
    assert!(!loader.is_model_cached("m", 0, &disk.snapshot()));
    disk.store(&loader.load_tokenizer("m", b"t"));
    assert!(loader.is_model_cached("m", 0, &disk.snapshot()));
    assert!(!loader.is_model_cached("m", 1, &disk.snapshot()));
    disk.store(&loader.load_weights("m", "001", b"one"));
    assert!(!loader.is_model_cached("m", 2, &disk.snapshot()));
    disk.store(&loader.load_weights("m", "0", b"zero"));
    assert!(loader.is_model_cached("m", 2, &disk.snapshot()));
    assert!(loader.is_model_cached("m", 1, &disk.snapshot()));
    assert!(!loader.is_model_cached("m", 3, &disk.snapshot()));
    assert!(!loader.is_model_cached("other", 0, &disk.snapshot()));

    assert_eq!(disk.read(&loader.config_file("m")), Some(b"c".to_vec()));
    assert_eq!(disk.read(&loader.tokenizer_file("m")), Some(b"t".to_vec()));
    assert_eq!(disk.read(&loader.shard_file("m", 0)), Some(b"zero".to_vec()));
    assert_eq!(disk.read(&loader.shard_file("m", 1)), Some(b"one".to_vec()));
}

#[test]
fn model_without_a_tokenizer_is_not_fully_cached() {
    let loader = loader();
    let mut disk = Disk::new();
    disk.store(&loader.load_config("m", b"c"));
    disk.store(&loader.load_weights("m", "0", b"w"));
    assert!(loader.is_cached("m", &disk.snapshot()));
    assert!(!loader.is_model_cached("m", 1, &disk.snapshot()));
}

#[test]
fn index_that_is_no_number_is_stored_as_shard_zero() {
    let plan_file = loader().load_weights("m", "abc", b"w").file;
    assert_eq!(plan_file.names, vec!["m", "weights", "shard-000.safetensors"]);
}

#[test]
fn weights_directory_is_given_where_it_exists() {
    let loader = loader();
    let mut disk = Disk::new();
    let missing = loader.get_weights_dir("m", &disk.snapshot()).unwrap_err();
    assert_eq!(missing.message(), "Weights directory does not exist");
    match missing {
        CacheError::WeightsMissing(path) => assert_eq!(path.names, vec!["m", "weights"]),
        other => panic!("{:?}", other),
    }
    disk.store(&loader.load_weights("m", "0", b"w"));
    let dir = loader.get_weights_dir("m", &disk.snapshot()).unwrap();
    assert_eq!(dir.names, vec!["m", "weights"]);
}

#[test]
fn cleared_model_is_not_cached() {
    let loader = loader();
    let mut disk = Disk::new();
    assert!(loader.clear_cache("m", &disk.snapshot()).is_none());
    disk.store(&loader.load_config("m", b"c"));
    disk.store(&loader.load_config("n", b"d"));
    let plan = loader.clear_cache("m", &disk.snapshot()).unwrap();
    assert_eq!(plan.context, "Failed to clear cache for model: m");
    disk.remove(&plan.dir);
    assert!(!loader.is_cached("m", &disk.snapshot()));
    assert!(loader.is_cached("n", &disk.snapshot()));
    assert!(loader.clear_cache("m", &disk.snapshot()).is_none());
}

#[test]
fn failed_steps_are_told() {
    let loader = loader();
    let config = loader.load_config("m", b"c");
    let tokenizer = loader.load_tokenizer("m", b"t");
    let weights = loader.load_weights("m", "2", b"w");
    assert_eq!(config.kind, AssetKind::Config);
    for (plan, dir, file) in [
        (&config, "Failed to create model directory", "Failed to write config to"),
        (&tokenizer, "Failed to create model directory", "Failed to write tokenizer to"),
        (&weights, "Failed to create weights directory", "Failed to write weight shard to"),
    ] {
        let e = plan.outcome(StoreEvent::DirFailed("full".to_string())).unwrap_err();
        assert_eq!(e.context, dir);
        assert_eq!(e.path.names, plan.dir.names);
        assert_eq!(e.cause, "full");
        let e = plan.outcome(StoreEvent::WriteFailed("denied".to_string())).unwrap_err();
        assert_eq!(e.context, file);
        assert_eq!(e.path.names, plan.file.names);
        assert_eq!(e.cause, "denied");
    }
}

#[test]
fn cache_size_counts_files_two_levels_deep() {
    let loader = loader();
    assert_eq!(loader.cache_size("m", &None).unwrap(), 0);
    let listing = Some(Ok(vec![
        Ok(CacheEntry::File(Ok(10))),
        Ok(CacheEntry::Dir(Ok(vec![
            Ok(SubEntry::File(Ok(100))),
            Ok(SubEntry::Other),
            Ok(SubEntry::File(Ok(1000))),
        ]))),
        Ok(CacheEntry::Other),
        Ok(CacheEntry::File(Ok(5))),
    ]));
    assert!(WeightLoader::<PathBuf>::cache_size_fits(&listing));
    assert_eq!(loader.cache_size("m", &listing).unwrap(), 1115);
}

#[test]
fn cache_is_as_large_as_what_was_stored_last() {
    let loader = loader();
    let mut disk = Disk::new();
    let top = loader.model_dir("m");
    assert_eq!(loader.cache_size("m", &disk.list(&top)).unwrap(), 0);
    disk.store(&loader.load_config("m", b"first"));
    disk.store(&loader.load_tokenizer("m", b"1234567"));
    disk.store(&loader.load_weights("m", "0", b"abc"));
    disk.store(&loader.load_weights("m", "1", b"abcd"));
    disk.store(&loader.load_config("m", b"ab"));
    disk.store(&loader.load_weights("m", "001", b"x"));
    disk.store(&loader.load_config("n", b"other model"));
    assert_eq!(loader.cache_size("m", &disk.list(&top)).unwrap(), 2 + 7 + 3 + 1);
    let plan = loader.clear_cache("m", &disk.snapshot()).unwrap();
    disk.remove(&plan.dir);
    assert_eq!(loader.cache_size("m", &disk.list(&top)).unwrap(), 0);
}

#[test]
fn model_is_known_by_its_configuration() {
    let loader = loader();
    let mut disk = Disk::new();
    disk.store(&loader.load_tokenizer("m", b"t"));
    disk.store(&loader.load_weights("m", "0", b"w"));
    assert!(!loader.is_cached("m", &disk.snapshot()));
    assert!(!loader.is_model_cached("m", 0, &disk.snapshot()));
    disk.store(&loader.load_config("m", b"c"));
    assert!(loader.is_cached("m", &disk.snapshot()));
    assert!(loader.is_model_cached("m", 1, &disk.snapshot()));
}

#[test]
fn cache_size_tells_the_first_failure() {
    let loader = loader();
    let failed = loader.cache_size("m", &Some(Err("denied".to_string())));
    assert_eq!(
        failed.as_ref().unwrap_err().message(),
        "Failed to read cache directory for: m"
    );
    match failed {
        Err(CacheError::ListFailed { context, cause }) => {
            assert_eq!(context, "Failed to read cache directory for: m");
            assert_eq!(cause, "denied");
        }
        other => panic!("{:?}", other),
    }
    let failing: Vec<Result<CacheEntry, String>> = vec![
        Err("a".to_string()),
        Ok(CacheEntry::File(Err("a".to_string()))),
        Ok(CacheEntry::Dir(Err("a".to_string()))),
        Ok(CacheEntry::Dir(Ok(vec![Err("a".to_string())]))),
        Ok(CacheEntry::Dir(Ok(vec![Ok(SubEntry::File(Err("a".to_string())))]))),
    ];
    for entry in failing {
        let listing = Some(Ok(vec![
            Ok(CacheEntry::File(Ok(1))),
            entry,
            Ok(CacheEntry::File(Err("b".to_string()))),
        ]));
        let failed = loader.cache_size("m", &listing).unwrap_err();
        assert_eq!(failed.message(), "a");
        assert!(matches!(failed, CacheError::ReadFailed(cause) if cause == "a"));
    }
}

#[test]
fn sizes_that_do_not_fit_are_noticed() {
    let fits = Some(Ok(vec![
        Ok(CacheEntry::File(Ok(u64::MAX - 1))),
        Ok(CacheEntry::File(Ok(1))),
    ]));
    assert!(WeightLoader::<PathBuf>::cache_size_fits(&fits));
    let too_large = Some(Ok(vec![
        Ok(CacheEntry::File(Ok(u64::MAX))),
        Ok(CacheEntry::Dir(Ok(vec![Ok(SubEntry::File(Ok(1)))]))),
    ]));
    assert!(!WeightLoader::<PathBuf>::cache_size_fits(&too_large));
    let stops_before = Some(Ok(vec![
        Ok(CacheEntry::File(Ok(u64::MAX))),
        Err("a".to_string()),
        Ok(CacheEntry::File(Ok(1))),
    ]));
    assert!(WeightLoader::<PathBuf>::cache_size_fits(&stops_before));
}
