//! The inference engine of a worker: when it is loaded, with which settings,
//! and what it is asked.

use vstd::prelude::*;
use vstd::string::*;

use crate::paths::{CachePath, CacheSnapshot};
use crate::stream::{InferenceError, StreamItem};
use crate::stream::inference_error_text;

verus! {

/// Memory configuration for model loading
///
/// `F` is the type of the fraction.
#[derive(Clone, Debug)]
pub struct MemoryConfig<F> {
    /// Maximum model context length
    pub max_model_len: Option<usize>,
    /// Maximum concurrent sequences
    pub max_num_seqs: Option<usize>,
    /// KV cache memory fraction (0.0-1.0)
    pub kv_fraction: Option<F>,
}

impl<F> Default for MemoryConfig<F> {
    /// The configuration in which nothing is set.
    fn default() -> (r: Self)
        ensures
            r == (MemoryConfig::<F> { max_model_len: None, max_num_seqs: None, kv_fraction: None }),
    {
        MemoryConfig { max_model_len: None, max_num_seqs: None, kv_fraction: None }
    }
}

/// How many sequences run at a time where the configuration does not say.
pub const DEFAULT_NUM_SEQS: usize = 4;

/// How long a context may be where the configuration does not say.
pub const DEFAULT_MODEL_LEN: usize = 512;

/// How many tokens the engine generates at most for one request.
pub const ENGINE_MAX_TOKENS: usize = 1024;

/// The settings with which an engine is built from local files. Every setting
/// that has no field here is left unset.
#[derive(Debug)]
pub struct EngineConfig<F> {
    /// The model directory
    pub weight_dir: CachePath,
    /// Maximum concurrent sequences
    pub max_num_seqs: usize,
    /// Maximum model context length
    pub max_model_len: usize,
    /// Maximum tokens to generate
    pub max_tokens: usize,
    /// Over how many devices the model is spread
    pub num_shards: usize,
    /// Whether the engine runs as a server
    pub server_mode: bool,
    /// KV cache memory fraction
    pub kv_fraction: Option<F>,
}

/// The settings that a memory configuration asks for.
pub open spec fn engine_settings<F>(memory: MemoryConfig<F>, c: EngineConfig<F>) -> bool {
    &&& c.max_num_seqs == (match memory.max_num_seqs {
        Some(n) => n,
        None => 4,
    })
    &&& c.max_model_len == (match memory.max_model_len {
        Some(n) => n,
        None => 512,
    })
    &&& c.max_tokens == 1024
    &&& c.num_shards == 1
    &&& !c.server_mode
    &&& c.kv_fraction == memory.kv_fraction
}

/// Why no engine could be built.
#[derive(Debug)]
pub enum BuildFailure {
    /// The task that builds it did not run to its end
    Task(String),
    /// The engine refused the model
    Engine(String),
}

/// Why a model was not loaded.
#[derive(Debug)]
pub enum LoadError {
    /// The model directory has no configuration
    ConfigMissing(CachePath),
    /// The model directory has no tokenizer
    TokenizerMissing(CachePath),
    /// The task that builds the engine did not run to its end
    TaskFailed(String),
    /// The engine refused the model
    EngineFailed(String),
}

/// What is wrong, in words, without the place or the cause.
pub open spec fn load_error_text(e: LoadError) -> Seq<char> {
    match e {
        LoadError::ConfigMissing(_) => "Config file not found"@,
        LoadError::TokenizerMissing(_) => "Tokenizer file not found"@,
        LoadError::TaskFailed(_) => "Failed to spawn blocking task for model loading"@,
        LoadError::EngineFailed(_) => "Failed to load model"@,
    }
}

impl LoadError {
    /// What is wrong, in words. The place or the cause, which the error holds,
    /// is not part of it.
    pub fn message(&self) -> (r: String)
        ensures
            r@ == load_error_text(*self),
            match *self {
                LoadError::ConfigMissing(_) => r@ == "Config file not found"@,
                LoadError::TokenizerMissing(_) => r@ == "Tokenizer file not found"@,
                LoadError::TaskFailed(_) => r@
                    == "Failed to spawn blocking task for model loading"@,
                LoadError::EngineFailed(_) => r@ == "Failed to load model"@,
            },
    {
        match self {
            LoadError::ConfigMissing(_) => "Config file not found".to_owned(),
            LoadError::TokenizerMissing(_) => "Tokenizer file not found".to_owned(),
            LoadError::TaskFailed(_) => {
                "Failed to spawn blocking task for model loading".to_owned()
            },
            LoadError::EngineFailed(_) => "Failed to load model".to_owned(),
        }
    }
}

/// A chat message.
#[derive(Debug)]
pub struct Message {
    /// Who speaks
    pub role: String,
    /// What is said
    pub content: String,
    /// How many images come with it
    pub num_images: usize,
}

/// How an answer is sampled. Every setting that has no field here is left at
/// its default.
#[derive(Debug)]
pub struct SamplingParams<F> {
    /// Temperature for sampling
    pub temperature: Option<F>,
    /// Maximum tokens to generate
    pub max_tokens: Option<usize>,
}

/// What the engine is asked: a conversation and how to answer it.
#[derive(Debug)]
pub struct InferenceJob<F> {
    /// The conversation
    pub messages: Vec<Message>,
    /// How the answer is sampled
    pub sampling: SamplingParams<F>,
}

/// The job that a prompt asks for: one message of the user, without images,
/// answered within the given number of tokens, at the given temperature or,
/// where none is given, at the usual one.
pub open spec fn is_job<F>(
    job: InferenceJob<F>,
    prompt: Seq<char>,
    max_tokens: usize,
    temperature: Option<F>,
    usual: F,
) -> bool {
    &&& job.messages@.len() == 1
    &&& job.messages@[0].role@ == "user"@
    &&& job.messages@[0].content@ == prompt
    &&& job.messages@[0].num_images == 0
    &&& job.sampling.max_tokens == Some(max_tokens)
    &&& job.sampling.temperature == Some(
        match temperature {
            Some(t) => t,
            None => usual,
        },
    )
}

/// A job says what was asked: the one message that the engine gets is the
/// prompt, whole and character by character. So jobs for prompts that differ
/// are told apart by what the engine gets, and a longer prompt never gives a
/// shorter message.
pub proof fn law_job_says_the_prompt<F>(
    a: InferenceJob<F>,
    prompt_a: Seq<char>,
    b: InferenceJob<F>,
    prompt_b: Seq<char>,
    max_tokens: usize,
    temperature: Option<F>,
    usual: F,
)
    requires
        is_job(a, prompt_a, max_tokens, temperature, usual),
        is_job(b, prompt_b, max_tokens, temperature, usual),
    ensures
        a.messages@.len() == 1,
        a.messages@[0].content@.len() == prompt_a.len(),
        forall|i: int|
            0 <= i < prompt_a.len() ==> #[trigger] a.messages@[0].content@[i] == prompt_a[i],
        a.messages@[0].content@ == b.messages@[0].content@ <==> prompt_a == prompt_b,
{
}

/// A job is answered as was asked: within the number of tokens that was given,
/// and at the temperature that was given; the usual temperature is taken only
/// where none was given.
pub proof fn law_job_is_sampled_as_asked<F>(
    job: InferenceJob<F>,
    prompt: Seq<char>,
    max_tokens: usize,
    temperature: Option<F>,
    usual: F,
)
    requires
        is_job(job, prompt, max_tokens, temperature, usual),
    ensures
        job.sampling.max_tokens == Some(max_tokens),
        temperature is Some ==> job.sampling.temperature == temperature,
        temperature is None ==> job.sampling.temperature == Some(usual),
        job.messages@[0].role@ == "user"@,
        job.messages@[0].num_images == 0,
{
}

/// Whatever is configured is what the engine is built with, for every value;
/// a default is taken only where nothing is configured. So engines with
/// different configured values are built differently.
pub proof fn law_engine_is_built_as_configured<F>(
    memory: MemoryConfig<F>,
    c: EngineConfig<F>,
    model_len: usize,
    num_seqs: usize,
)
    requires
        engine_settings(memory, c),
    ensures
        memory.max_model_len == Some(model_len) ==> c.max_model_len == model_len,
        memory.max_num_seqs == Some(num_seqs) ==> c.max_num_seqs == num_seqs,
        c.kv_fraction == memory.kv_fraction,
        memory.max_model_len is None ==> c.max_model_len == 512,
        memory.max_num_seqs is None ==> c.max_num_seqs == 4,
        c.max_tokens == 1024,
        c.num_shards == 1,
        !c.server_mode,
{
}

/// How a streamed answer begins.
#[derive(Debug)]
pub enum StreamStart<F> {
    /// The engine is asked, and its items follow
    Run(InferenceJob<F>),
    /// This item is all that follows
    Only(StreamItem),
}

/// The inference engine of one model
///
/// It manages the lifecycle of the engine. `E` is the engine itself, `F` the
/// type of the memory fraction and of temperatures.
#[derive(Clone, Debug)]
pub struct ModelEngine<E, F> {
    /// The engine instance (None until model is loaded)
    pub engine: Option<E>,
    /// Model name
    pub model_name: String,
    /// Memory configuration
    pub memory_config: MemoryConfig<F>,
}

impl<E, F> ModelEngine<E, F> {
    /// Create a new ModelEngine; its engine is not loaded yet
    pub fn new(model_name: String) -> (r: Self)
        ensures
            r.engine is None,
            r.model_name == model_name,
            r.memory_config == (MemoryConfig::<F> {
                max_model_len: None,
                max_num_seqs: None,
                kv_fraction: None,
            }),
    {
        ModelEngine { engine: None, model_name, memory_config: MemoryConfig::default() }
    }

    /// Create a new ModelEngine with memory configuration
    pub fn with_memory_config(model_name: String, memory_config: MemoryConfig<F>) -> (r: Self)
        ensures
            r.engine is None,
            r.model_name == model_name,
            r.memory_config == memory_config,
    {
        ModelEngine { engine: None, model_name, memory_config }
    }

    /// Set memory configuration
    pub fn set_memory_config(&mut self, config: MemoryConfig<F>)
        ensures
            final(self).memory_config == config,
            final(self).engine == old(self).engine,
            final(self).model_name == old(self).model_name,
    {
        self.memory_config = config;
    }

    /// Check if model is loaded
    pub fn is_loaded(&self) -> (r: bool)
        ensures
            r == self.engine is Some,
    {
        self.engine.is_some()
    }

    /// Take over the engine that was built, or say why there is none
    pub fn finish_load(&mut self, built: Result<E, BuildFailure>) -> (r: Result<(), LoadError>)
        ensures
            final(self).model_name == old(self).model_name,
            final(self).memory_config == old(self).memory_config,
            match built {
                Ok(engine) => r is Ok && final(self).engine == Some(engine),
                Err(BuildFailure::Task(cause)) => {
                    &&& r == Err::<(), LoadError>(LoadError::TaskFailed(cause))
                    &&& final(self).engine == old(self).engine
                },
                Err(BuildFailure::Engine(cause)) => {
                    &&& r == Err::<(), LoadError>(LoadError::EngineFailed(cause))
                    &&& final(self).engine == old(self).engine
                },
            },
    {
        match built {
            Ok(engine) => {
                self.engine = Some(engine);
                Ok(())
            },
            Err(BuildFailure::Task(cause)) => Err(LoadError::TaskFailed(cause)),
            Err(BuildFailure::Engine(cause)) => Err(LoadError::EngineFailed(cause)),
        }
    }

    /// What the engine is asked to answer a prompt in one piece
    ///
    /// Without a loaded model the request fails. `usual` is the temperature
    /// that is taken where none is given.
    pub fn complete(
        &self,
        prompt: &str,
        max_tokens: usize,
        temperature: Option<F>,
        usual: F,
    ) -> (r: Result<InferenceJob<F>, InferenceError>)
        ensures
            r is Ok <==> self.engine is Some,
            r is Ok ==> is_job(r->Ok_0, prompt@, max_tokens, temperature, usual),
            r is Err ==> r->Err_0 is TaskFailed,
            r is Ok ==> {
                &&& r->Ok_0.messages@.len() == 1
                &&& r->Ok_0.messages@[0].role@ == "user"@
                &&& r->Ok_0.messages@[0].content@ == prompt@
                &&& r->Ok_0.messages@[0].num_images == 0
                &&& r->Ok_0.sampling.max_tokens == Some(max_tokens)
                &&& temperature is Some ==> r->Ok_0.sampling.temperature == temperature
                &&& temperature is None ==> r->Ok_0.sampling.temperature == Some(usual)
            },
    {
        if self.engine.is_some() {
            Ok(job_of(prompt, max_tokens, temperature, usual))
        } else {
            Err(InferenceError::TaskFailed)
        }
    }

    /// What the engine is asked to answer a prompt piece by piece
    ///
    /// Without a loaded model an error item is all that follows. `usual` is
    /// the temperature that is taken where none is given.
    pub fn stream_complete(
        &self,
        prompt: &str,
        max_tokens: usize,
        temperature: Option<F>,
        usual: F,
    ) -> (r: StreamStart<F>)
        ensures
            match r {
                StreamStart::Run(job) => self.engine is Some && is_job(
                    job,
                    prompt@,
                    max_tokens,
                    temperature,
                    usual,
                ),
                StreamStart::Only(item) => {
                    &&& self.engine is None
                    &&& item is Error
                    &&& item->Error_0@ == inference_error_text(InferenceError::TaskFailed)
                },
            },
            r is Run <==> self.engine is Some,
            r is Run ==> {
                &&& r->Run_0.messages@.len() == 1
                &&& r->Run_0.messages@[0].role@ == "user"@
                &&& r->Run_0.messages@[0].content@ == prompt@
                &&& r->Run_0.messages@[0].num_images == 0
                &&& r->Run_0.sampling.max_tokens == Some(max_tokens)
                &&& temperature is Some ==> r->Run_0.sampling.temperature == temperature
                &&& temperature is None ==> r->Run_0.sampling.temperature == Some(usual)
            },
            r is Only ==> r->Only_0 is Error && r->Only_0->Error_0@ == "Inference task failed"@,
    {
        if self.engine.is_some() {
            StreamStart::Run(job_of(prompt, max_tokens, temperature, usual))
        } else {
            StreamStart::Only(StreamItem::Error(InferenceError::TaskFailed.message()))
        }
    }

    /// Shutdown the engine and release resources
    pub fn shutdown(&mut self)
        ensures
            final(self).engine is None,
            final(self).model_name == old(self).model_name,
            final(self).memory_config == old(self).memory_config,
    {
        self.engine = None;
    }
}

impl<E, F: Copy> ModelEngine<E, F> {
    /// The settings for loading the model from cached assets
    ///
    /// `model_dir` has to hold the configuration and the tokenizer; the engine
    /// gets that very directory.
    pub fn load_model(&self, model_dir: &CachePath, disk: &CacheSnapshot) -> (r: Result<
        EngineConfig<F>,
        LoadError,
    >)
        ensures
            match r {
                Ok(c) => {
                    &&& disk@.contains(model_dir@.push("config.json"@))
                    &&& disk@.contains(model_dir@.push("tokenizer.json"@))
                    &&& c.weight_dir@ == model_dir@
                    &&& engine_settings(self.memory_config, c)
                },
                Err(LoadError::ConfigMissing(p)) => {
                    &&& !disk@.contains(model_dir@.push("config.json"@))
                    &&& p@ == model_dir@.push("config.json"@)
                },
                Err(LoadError::TokenizerMissing(p)) => {
                    &&& disk@.contains(model_dir@.push("config.json"@))
                    &&& !disk@.contains(model_dir@.push("tokenizer.json"@))
                    &&& p@ == model_dir@.push("tokenizer.json"@)
                },
                Err(_) => false,
            },
            r is Ok <==> disk@.contains(model_dir@.push("config.json"@)) && disk@.contains(
                model_dir@.push("tokenizer.json"@),
            ),
            r is Ok ==> {
                let c = r->Ok_0;
                let memory = self.memory_config;
                &&& memory.max_num_seqs is Some ==> c.max_num_seqs == memory.max_num_seqs->0
                &&& memory.max_num_seqs is None ==> c.max_num_seqs == 4
                &&& memory.max_model_len is Some ==> c.max_model_len == memory.max_model_len->0
                &&& memory.max_model_len is None ==> c.max_model_len == 512
                &&& c.kv_fraction == memory.kv_fraction
                &&& c.max_tokens == 1024
                &&& c.num_shards == 1
                &&& !c.server_mode
            },
    {
        let config_path = model_dir.join("config.json");
        let tokenizer_path = model_dir.join("tokenizer.json");
        if !disk.has(&config_path) {
            return Err(LoadError::ConfigMissing(config_path));
        }
        if !disk.has(&tokenizer_path) {
            return Err(LoadError::TokenizerMissing(tokenizer_path));
        }
        let max_num_seqs: usize = match self.memory_config.max_num_seqs {
            Some(n) => n,
            None => DEFAULT_NUM_SEQS,
        };
        let max_model_len: usize = match self.memory_config.max_model_len {
            Some(n) => n,
            None => DEFAULT_MODEL_LEN,
        };
        Ok(
            EngineConfig {
                weight_dir: model_dir.duplicate(),
                max_num_seqs,
                max_model_len,
                max_tokens: ENGINE_MAX_TOKENS,
                num_shards: 1,
                server_mode: false,
                kv_fraction: self.memory_config.kv_fraction,
            },
        )
    }
}

/// The job that a prompt asks for.
fn job_of<F>(prompt: &str, max_tokens: usize, temperature: Option<F>, usual: F) -> (r: InferenceJob<
    F,
>)
    ensures
        is_job(r, prompt@, max_tokens, temperature, usual),
{
    match temperature {
        Some(t) => job_at(prompt, max_tokens, t),
        None => job_at(prompt, max_tokens, usual),
    }
}

/// The job that a prompt asks for, at a given temperature.
pub(crate) fn job_at<F>(prompt: &str, max_tokens: usize, temperature: F) -> (r: InferenceJob<F>)
    ensures
        is_job(r, prompt@, max_tokens, Some(temperature), temperature),
{
    let mut messages: Vec<Message> = Vec::new();
    messages.push(
        Message { role: "user".to_owned(), content: prompt.to_owned(), num_images: 0 },
    );
    InferenceJob {
        messages,
        sampling: SamplingParams { temperature: Some(temperature), max_tokens: Some(max_tokens) },
    }
}

/// The fields of a model's configuration that name its architecture.
#[derive(Debug)]
pub struct ArchitectureFields {
    /// The architecture, by name
    pub architecture: Option<String>,
    /// The architectures, by name
    pub architectures: Option<Vec<String>>,
}

/// What became of a model's configuration file.
#[derive(Debug)]
pub enum ConfigFile {
    /// It could not be read
    Unreadable(String),
    /// It could not be parsed
    Malformed(String),
    /// It was parsed
    Parsed(ArchitectureFields),
}

/// Why the architecture of a model is not known.
#[derive(Debug)]
pub enum ArchitectureError {
    /// Failed to read config file
    Unreadable(String),
    /// Failed to parse config JSON
    Malformed(String),
    /// Could not determine model architecture from config
    Undetermined,
}

/// What is wrong, in words, without the cause.
pub open spec fn architecture_error_text(e: ArchitectureError) -> Seq<char> {
    match e {
        ArchitectureError::Unreadable(_) => "Failed to read config file"@,
        ArchitectureError::Malformed(_) => "Failed to parse config JSON"@,
        ArchitectureError::Undetermined => "Could not determine model architecture from config"@,
    }
}

impl ArchitectureError {
    /// What is wrong, in words. The cause, which the error holds, is not part
    /// of it.
    pub fn message(&self) -> (r: String)
        ensures
            r@ == architecture_error_text(*self),
            match *self {
                ArchitectureError::Unreadable(_) => r@ == "Failed to read config file"@,
                ArchitectureError::Malformed(_) => r@ == "Failed to parse config JSON"@,
                ArchitectureError::Undetermined => r@
                    == "Could not determine model architecture from config"@,
            },
    {
        match self {
            ArchitectureError::Unreadable(_) => "Failed to read config file".to_owned(),
            ArchitectureError::Malformed(_) => "Failed to parse config JSON".to_owned(),
            ArchitectureError::Undetermined => {
                "Could not determine model architecture from config".to_owned()
            },
        }
    }
}

/// The architecture that the fields name: the single one, if it is given; else
/// the first of the list, or `Unknown` where the list is empty.
pub open spec fn architecture_of(fields: ArchitectureFields) -> Option<Seq<char>> {
    match fields.architecture {
        Some(name) => Some(name@),
        None => match fields.architectures {
            Some(names) => if names@.len() > 0 {
                Some(names@[0]@)
            } else {
                Some("Unknown"@)
            },
            None => None,
        },
    }
}

/// Extract model architecture from config.json
pub fn get_model_architecture(file: ConfigFile) -> (r: Result<String, ArchitectureError>)
    ensures
        match file {
            ConfigFile::Unreadable(cause) => r == Err::<String, ArchitectureError>(
                ArchitectureError::Unreadable(cause),
            ),
            ConfigFile::Malformed(cause) => r == Err::<String, ArchitectureError>(
                ArchitectureError::Malformed(cause),
            ),
            ConfigFile::Parsed(fields) => match architecture_of(fields) {
                Some(name) => r is Ok && r->Ok_0@ == name,
                None => r == Err::<String, ArchitectureError>(ArchitectureError::Undetermined),
            },
        },
        file is Parsed ==> {
            let fields = file->Parsed_0;
            &&& r is Err <==> fields.architecture is None && fields.architectures is None
            &&& fields.architecture is Some ==> r->Ok_0@ == fields.architecture->0@
            &&& fields.architecture is None && fields.architectures is Some ==> r->Ok_0@ == if
                fields.architectures->0@.len() == 0 {
                "Unknown"@
            } else {
                fields.architectures->0@[0]@
            }
        },
{
    match file {
        ConfigFile::Unreadable(cause) => Err(ArchitectureError::Unreadable(cause)),
        ConfigFile::Malformed(cause) => Err(ArchitectureError::Malformed(cause)),
        ConfigFile::Parsed(fields) => {
            if let Some(name) = fields.architecture {
                Ok(name)
            } else if let Some(names) = &fields.architectures {
                if names.len() > 0 {
                    Ok(names[0].clone())
                } else {
                    Ok("Unknown".to_owned())
                }
            } else {
                Err(ArchitectureError::Undetermined)
            }
        },
    }
}

/// The device that a build with the given kinds of acceleration uses: Metal
/// goes before CUDA, and the CPU serves where there is neither.
pub fn device_name(metal: bool, cuda: bool) -> (r: &'static str)
    ensures
        metal ==> r@ == "metal"@,
        !metal && cuda ==> r@ == "cuda"@,
        !metal && !cuda ==> r@ == "cpu"@,
{
    if metal {
        "metal"
    } else if cuda {
        "cuda"
    } else {
        "cpu"
    }
}

/// The device type of a build without GPU acceleration, as this library is
pub fn detect_device() -> (r: &'static str)
    ensures
        r@ == "cpu"@,
{
    device_name(false, false)
}

} // verus!
