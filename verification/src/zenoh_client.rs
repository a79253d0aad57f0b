//! The conversation of a worker with the BARM coordinator: under which keys
//! they talk, what a message leads to, and what is answered.
//!
//! The client decides; it does not send, store or compute itself. Each method
//! takes what has happened and returns what has to be done.

use vstd::prelude::*;
use vstd::string::*;

use crate::model_loader::{
    BuildFailure, EngineConfig, InferenceJob, LoadError, MemoryConfig, ModelEngine,
};
use crate::model_loader::{engine_settings, is_job};
use crate::paths::{CachePath, CacheSnapshot};
use crate::reply::error_reply;
use crate::reply::{error_reply_text, json_object, law_error_reply_reads_one_way};
use crate::shard::extract_shard_index;
use crate::shard::{
    law_index_is_the_digits_behind_the_last_shard, law_index_names_the_shard_of_its_value,
    law_no_index_without_shard, law_published_shard_is_identified, shard_file, shard_index,
    shard_number,
};
use crate::stream::InferenceError;
use crate::text::{decimal, digits_value, law_decimal_notation, zero_padded};
use crate::weight_loader::{AssetKind, StorePlan, WeightLoader};
use crate::weight_loader::{
    config_file_of, model_dir_of, shard_file_of, tokenizer_file_of, weights_dir_of,
};

verus! {

/// A JSON value, as the `serde_json` crate holds it.
#[verifier::external_type_specification]
#[verifier::external_body]
pub struct ExValue(serde_json::Value);

/// Device type for model execution
#[derive(Debug, Clone, Copy, PartialEq, Eq, Structural)]
pub enum DeviceType {
    /// CPU execution
    Cpu,
    /// Metal GPU acceleration (Apple Silicon)
    Metal,
    /// CUDA GPU acceleration
    Cuda,
}

/// `serde_json::Value` clones to an equal value: its `Clone` is derived, and
/// copies the value part by part.
pub assume_specification[ <serde_json::Value as Clone>::clone ](v: &serde_json::Value) -> (r:
    serde_json::Value)
    ensures
        r == *v,
;

/// Model configuration from the coordinator
#[derive(Debug)]
pub struct ModelConfig {
    /// Model name or path
    pub model_id: String,
    /// Hardware acceleration type
    pub device: DeviceType,
    /// Additional model parameters
    pub params: serde_json::Value,
}

impl Clone for ModelConfig {
    /// The same configuration again.
    fn clone(&self) -> (r: Self)
        ensures
            r.model_id@ == self.model_id@,
            r.device == self.device,
            r.params == self.params,
    {
        ModelConfig {
            model_id: self.model_id.clone(),
            device: self.device,
            params: self.params.clone(),
        }
    }
}

/// Response from coordinator during worker registration
#[derive(Debug)]
pub struct WorkerRegistrationResponse {
    /// The assigned worker ID
    pub worker_id: String,
    /// The model configuration to load (if any)
    pub model_config: Option<ModelConfig>,
}

/// Request to load a model
#[derive(Debug, Clone)]
pub struct ModelLoadRequest {
    /// The model name
    pub model_name: String,
    /// Model architecture type
    pub architecture: String,
    /// Whether to overwrite existing files
    pub overwrite: bool,
}

/// Inference request from coordinator
///
/// `F` is the type of temperatures and probabilities.
#[derive(Debug, Clone)]
pub struct InferenceRequest<F> {
    /// Unique request ID
    pub request_id: String,
    /// The prompt to process
    pub prompt: String,
    /// Maximum tokens to generate
    pub max_tokens: Option<usize>,
    /// Sampling temperature
    pub temperature: Option<F>,
    /// Top-p sampling parameter
    pub top_p: Option<F>,
    /// Top-k sampling parameter
    pub top_k: Option<isize>,
    /// Stop sequences
    pub stop_sequences: Option<Vec<String>>,
}

/// The key under which the result of a request is published.
pub open spec fn result_key(request_id: Seq<char>) -> Seq<char> {
    "barm/result/"@ + request_id
}

/// The key under which a worker is alive.
pub open spec fn alive_key(worker_id: Seq<char>) -> Seq<char> {
    "barm/worker/alive/"@ + worker_id
}

/// The key under which a worker gets requests.
pub open spec fn request_key(worker_id: Seq<char>) -> Seq<char> {
    "barm/request/"@ + worker_id
}

/// The messages that a client listens to while it runs.
#[derive(Debug, Clone, Copy, PartialEq, Eq, Structural)]
pub enum Feed {
    /// Model configurations
    Config,
    /// Tokenizers
    Tokenizer,
    /// Weight shards
    Weights,
    /// Requests to load the model
    ModelLoad,
    /// Inference requests
    Inference,
}

/// The key expression of a feed, for the client of a model.
pub open spec fn feed_key(feed: Feed, model: Seq<char>) -> Seq<char> {
    match feed {
        Feed::Config => "barm/model/"@ + model + "/config"@,
        Feed::Tokenizer => "barm/model/"@ + model + "/tokenizer"@,
        Feed::Weights => "barm/model/"@ + model + "/weights/**"@,
        Feed::ModelLoad => "barm/model/load"@,
        Feed::Inference => "barm/inference/"@ + model,
    }
}

/// A feed that has to be subscribed to.
#[derive(Debug)]
pub struct Subscription {
    /// The feed
    pub feed: Feed,
    /// Its key expression
    pub key: String,
}

impl Subscription {
    /// Whether this is the subscription to a feed, for the client of a model.
    pub open spec fn is_to(self, feed: Feed, model: Seq<char>) -> bool {
        self.feed == feed && self.key@ == feed_key(feed, model)
    }
}

/// A message that has to be published.
#[derive(Debug)]
pub struct Publication {
    /// The key under which it is published
    pub key: String,
    /// What is published
    pub payload: String,
}

impl Publication {
    /// Whether this publishes a payload as the result of a request.
    pub open spec fn is_result(self, request_id: Seq<char>, payload: Seq<char>) -> bool {
        self.key@ == result_key(request_id) && self.payload@ == payload
    }
}

/// A liveliness token that has to be declared at once, and again in every
/// period.
#[derive(Debug)]
pub struct Heartbeat {
    /// The key of the token
    pub key: String,
    /// The seconds of a period
    pub period_secs: u64,
}

/// What went wrong in the conversation with the coordinator.
#[derive(Debug)]
pub enum ClientError {
    /// The configuration was rejected
    Config(String),
    /// No session could be opened
    Connect(String),
    /// No publisher could be declared
    Publisher(String),
    /// A result could not be published
    Publish(String),
    /// No liveliness token could be declared
    Token(String),
    /// The worker's requests could not be subscribed to
    RequestSubscriber(String),
    /// A feed could not be subscribed to
    Subscriber(Feed, String),
    /// A feed broke off
    Receive(Feed, String),
}

/// What went wrong, in words.
pub open spec fn client_error_text(e: ClientError) -> Seq<char> {
    match e {
        ClientError::Config(cause) => "Failed to create config: "@ + cause@,
        ClientError::Connect(cause) => "Failed to connect to Zenoh: "@ + cause@,
        ClientError::Publisher(cause) => "Failed to declare publisher: "@ + cause@,
        ClientError::Publish(cause) => "Failed to publish result: "@ + cause@,
        ClientError::Token(cause) => "Failed to declare liveliness token: "@ + cause@,
        ClientError::RequestSubscriber(cause) => "Failed to declare subscriber: "@ + cause@,
        ClientError::Subscriber(feed, cause) => match feed {
            Feed::Config => "Failed to declare config subscriber: "@ + cause@,
            Feed::Tokenizer => "Failed to declare tokenizer subscriber: "@ + cause@,
            Feed::Weights => "Failed to declare weights subscriber: "@ + cause@,
            Feed::ModelLoad => "Failed to declare model load subscriber: "@ + cause@,
            Feed::Inference => "Failed to declare inference subscriber: "@ + cause@,
        },
        ClientError::Receive(feed, cause) => match feed {
            Feed::Config => "Config subscriber error: "@ + cause@,
            Feed::Tokenizer => "Tokenizer subscriber error: "@ + cause@,
            Feed::Weights => "Weights subscriber error: "@ + cause@,
            Feed::ModelLoad => "Model load subscriber error: "@ + cause@,
            Feed::Inference => "Inference subscriber error: "@ + cause@,
        },
    }
}

/// The words of the errors of a feed, put together from their parts.
proof fn lemma_subscriber_words()
    ensures
        "Failed to declare config subscriber: "@ == "Failed to declare "@ + "config"@
            + " subscriber: "@,
        "Failed to declare tokenizer subscriber: "@ == "Failed to declare "@ + "tokenizer"@
            + " subscriber: "@,
        "Failed to declare weights subscriber: "@ == "Failed to declare "@ + "weights"@
            + " subscriber: "@,
        "Failed to declare model load subscriber: "@ == "Failed to declare "@ + "model load"@
            + " subscriber: "@,
        "Failed to declare inference subscriber: "@ == "Failed to declare "@ + "inference"@
            + " subscriber: "@,
        "Config subscriber error: "@ == "Config"@ + " subscriber error: "@,
        "Tokenizer subscriber error: "@ == "Tokenizer"@ + " subscriber error: "@,
        "Weights subscriber error: "@ == "Weights"@ + " subscriber error: "@,
        "Model load subscriber error: "@ == "Model load"@ + " subscriber error: "@,
        "Inference subscriber error: "@ == "Inference"@ + " subscriber error: "@,
{
    reveal_strlit("Failed to declare ");
    reveal_strlit(" subscriber: ");
    reveal_strlit(" subscriber error: ");
    reveal_strlit("config");
    reveal_strlit("tokenizer");
    reveal_strlit("weights");
    reveal_strlit("model load");
    reveal_strlit("inference");
    reveal_strlit("Config");
    reveal_strlit("Tokenizer");
    reveal_strlit("Weights");
    reveal_strlit("Model load");
    reveal_strlit("Inference");
    reveal_strlit("Failed to declare config subscriber: ");
    reveal_strlit("Failed to declare tokenizer subscriber: ");
    reveal_strlit("Failed to declare weights subscriber: ");
    reveal_strlit("Failed to declare model load subscriber: ");
    reveal_strlit("Failed to declare inference subscriber: ");
    reveal_strlit("Config subscriber error: ");
    reveal_strlit("Tokenizer subscriber error: ");
    reveal_strlit("Weights subscriber error: ");
    reveal_strlit("Model load subscriber error: ");
    reveal_strlit("Inference subscriber error: ");
}

impl ClientError {
    /// What went wrong, in words.
    pub fn message(&self) -> (r: String)
        ensures
            r@ == client_error_text(*self),
            match *self {
                ClientError::Config(cause) => r@ == "Failed to create config: "@ + cause@,
                ClientError::Connect(cause) => r@ == "Failed to connect to Zenoh: "@ + cause@,
                ClientError::Publisher(cause) => r@ == "Failed to declare publisher: "@ + cause@,
                ClientError::Publish(cause) => r@ == "Failed to publish result: "@ + cause@,
                ClientError::Token(cause) => r@ == "Failed to declare liveliness token: "@ + cause@,
                ClientError::RequestSubscriber(cause) => r@ == "Failed to declare subscriber: "@
                    + cause@,
                ClientError::Subscriber(feed, cause) => r@ == "Failed to declare "@ + (match feed {
                    Feed::Config => "config"@,
                    Feed::Tokenizer => "tokenizer"@,
                    Feed::Weights => "weights"@,
                    Feed::ModelLoad => "model load"@,
                    Feed::Inference => "inference"@,
                }) + " subscriber: "@ + cause@,
                ClientError::Receive(feed, cause) => r@ == (match feed {
                    Feed::Config => "Config"@,
                    Feed::Tokenizer => "Tokenizer"@,
                    Feed::Weights => "Weights"@,
                    Feed::ModelLoad => "Model load"@,
                    Feed::Inference => "Inference"@,
                }) + " subscriber error: "@ + cause@,
            },
    {
        proof {
            lemma_subscriber_words();
        }
        let (head, cause) = match self {
            ClientError::Config(cause) => ("Failed to create config: ", cause),
            ClientError::Connect(cause) => ("Failed to connect to Zenoh: ", cause),
            ClientError::Publisher(cause) => ("Failed to declare publisher: ", cause),
            ClientError::Publish(cause) => ("Failed to publish result: ", cause),
            ClientError::Token(cause) => ("Failed to declare liveliness token: ", cause),
            ClientError::RequestSubscriber(cause) => ("Failed to declare subscriber: ", cause),
            ClientError::Subscriber(feed, cause) => match feed {
                Feed::Config => ("Failed to declare config subscriber: ", cause),
                Feed::Tokenizer => ("Failed to declare tokenizer subscriber: ", cause),
                Feed::Weights => ("Failed to declare weights subscriber: ", cause),
                Feed::ModelLoad => ("Failed to declare model load subscriber: ", cause),
                Feed::Inference => ("Failed to declare inference subscriber: ", cause),
            },
            ClientError::Receive(feed, cause) => match feed {
                Feed::Config => ("Config subscriber error: ", cause),
                Feed::Tokenizer => ("Tokenizer subscriber error: ", cause),
                Feed::Weights => ("Weights subscriber error: ", cause),
                Feed::ModelLoad => ("Model load subscriber error: ", cause),
                Feed::Inference => ("Inference subscriber error: ", cause),
            },
        };
        let mut r = head.to_owned();
        r.append(cause.as_str());
        r
    }
}

/// Shutdown signal of a client
#[derive(Debug)]
pub struct ShutdownSignal {
    /// Whether shutdown was asked for
    pub requested: bool,
}

impl ShutdownSignal {
    /// A signal that was not given.
    pub fn new() -> (r: Self)
        ensures
            !r.requested,
    {
        ShutdownSignal { requested: false }
    }

    /// Give the signal.
    pub fn signal(&mut self)
        ensures
            final(self).requested,
    {
        self.requested = true;
    }
}

/// Track which model assets have been received
#[derive(Debug)]
pub struct AssetTracker {
    pub config_received: bool,
    pub tokenizer_received: bool,
    pub weights_received: bool,
}

/// The tracker of a client that has received nothing.
pub open spec fn nothing_received() -> AssetTracker {
    AssetTracker { config_received: false, tokenizer_received: false, weights_received: false }
}

/// Whether a model has everything that it needs.
pub open spec fn everything_received(t: AssetTracker) -> bool {
    t.config_received && t.tokenizer_received && t.weights_received
}

/// The tracker after an asset was received.
pub open spec fn with_received(t: AssetTracker, kind: AssetKind) -> AssetTracker {
    match kind {
        AssetKind::Config => AssetTracker { config_received: true, ..t },
        AssetKind::Tokenizer => AssetTracker { tokenizer_received: true, ..t },
        AssetKind::Weights => AssetTracker { weights_received: true, ..t },
    }
}

impl Default for AssetTracker {
    /// A tracker of nothing received.
    fn default() -> (r: Self)
        ensures
            r == nothing_received(),
            !r.config_received && !r.tokenizer_received && !r.weights_received,
    {
        AssetTracker::new()
    }
}

impl AssetTracker {
    /// A tracker of nothing received.
    pub fn new() -> (r: Self)
        ensures
            r == nothing_received(),
            !r.config_received && !r.tokenizer_received && !r.weights_received,
    {
        AssetTracker { config_received: false, tokenizer_received: false, weights_received: false }
    }

    /// Check if all assets are received
    pub fn all_received(&self) -> (r: bool)
        ensures
            r == everything_received(*self),
            r == (self.config_received && self.tokenizer_received && self.weights_received),
    {
        self.config_received && self.tokenizer_received && self.weights_received
    }

    /// Mark the configuration as received
    pub fn mark_config_received(&mut self)
        ensures
            *final(self) == with_received(*old(self), AssetKind::Config),
            final(self).config_received,
            final(self).tokenizer_received == old(self).tokenizer_received,
            final(self).weights_received == old(self).weights_received,
    {
        self.config_received = true;
    }

    /// Mark the tokenizer as received
    pub fn mark_tokenizer_received(&mut self)
        ensures
            *final(self) == with_received(*old(self), AssetKind::Tokenizer),
            final(self).tokenizer_received,
            final(self).config_received == old(self).config_received,
            final(self).weights_received == old(self).weights_received,
    {
        self.tokenizer_received = true;
    }

    /// Mark the weights as received
    pub fn mark_weights_received(&mut self)
        ensures
            *final(self) == with_received(*old(self), AssetKind::Weights),
            final(self).weights_received,
            final(self).config_received == old(self).config_received,
            final(self).tokenizer_received == old(self).tokenizer_received,
    {
        self.weights_received = true;
    }
}

/// What came from a feed of assets.
#[derive(Debug)]
pub enum Received<'a> {
    /// A message: its key and its content
    Sample(&'a str, &'a [u8]),
    /// The feed broke off
    Failed(String),
}

/// What to do with what came from a feed of assets.
#[derive(Debug)]
pub enum AssetStep<'a> {
    /// Store the asset
    Store(StorePlan<'a>),
    /// Listen no more, because shutdown was asked for
    Ended,
    /// Listen no more, because the feed broke off
    Stop(ClientError),
}

/// What came from the feed of load requests.
#[derive(Debug)]
pub enum LoadEvent {
    /// A request
    Request(ModelLoadRequest),
    /// A message that is no request
    Malformed,
    /// The feed broke off
    Failed(String),
}

/// What to do with what came from the feed of load requests.
#[derive(Debug)]
pub enum LoadStep {
    /// Load the model from this directory
    Load(CachePath),
    /// Wait for the next message
    Wait,
    /// Listen no more, because shutdown was asked for
    Ended,
    /// Listen no more, because the feed broke off
    Stop(ClientError),
}

/// What came from the feed of inference requests.
#[derive(Debug)]
pub enum InferenceEvent<F> {
    /// A request
    Request(InferenceRequest<F>),
    /// A message that is no request
    Malformed,
    /// The feed broke off
    Failed(String),
}

/// What to do with what came from the feed of inference requests.
#[derive(Debug)]
pub enum InferenceStep<F> {
    /// Publish this result
    Answer(Publication),
    /// Ask the engine, for the request of this ID
    Infer(String, InferenceJob<F>),
    /// Wait for the next message
    Wait,
    /// Listen no more, because shutdown was asked for
    Ended,
    /// Listen no more, because the feed broke off
    Stop(ClientError),
}

/// How many weight shards a client has stored.
#[derive(Debug)]
pub struct ShardCount {
    pub stored: i32,
}

/// The prompt of the test inference that follows the loading of a model.
pub const TEST_PROMPT: &'static str = "what is the capital of China";

/// The ID under which the result of the test inference is published.
pub const TEST_REQUEST_ID: &'static str = "test-001";

/// What a client goes through.
pub enum ClientStep {
    /// It is run for a model
    Run,
    /// An asset of this kind counts as received, because one was stored
    Stored(AssetKind),
    /// It takes over an engine that was built after everything was received
    Built,
    /// It is told to shut down
    Shutdown,
    /// Anything else
    Other,
}

/// Client for Zenoh-based communication with the BARM coordinator
///
/// `P` is the type of the cache directory, `E` that of the engine, `F` that of
/// fractions and temperatures. A client is not cloned: its handlers share one,
/// so that what one of them marks as received, and the shutdown signal, reach
/// all of them.
#[derive(Debug)]
pub struct ZenohClient<P, E, F> {
    /// Weight loader for handling received model assets
    pub weight_loader: WeightLoader<P>,
    /// Model engine for inference
    pub model_engine: ModelEngine<E, F>,
    /// Shutdown signal
    pub shutdown: ShutdownSignal,
    /// Asset tracker
    pub asset_tracker: AssetTracker,
    /// Model name
    pub model_name: String,
}

impl<P, E, F> ZenohClient<P, E, F> {
    /// What holds of a new client and what every method keeps: the engine of a
    /// client is that of its model, and a model is loaded only after all its
    /// assets were received.
    pub open spec fn wf(self) -> bool {
        &&& self.model_engine.model_name@ == self.model_name@
        &&& self.model_engine.engine is Some ==> everything_received(self.asset_tracker)
    }

    /// Whether the two clients differ in their trackers at most.
    pub open spec fn same_but_tracker(self, other: Self) -> bool {
        &&& self.weight_loader == other.weight_loader
        &&& self.model_engine == other.model_engine
        &&& self.shutdown == other.shutdown
        &&& self.model_name == other.model_name
    }

    /// What a step makes of the tracker, of the engine and of the shutdown
    /// signal.
    pub open spec fn changes_to(self, next: Self, step: ClientStep) -> bool {
        match step {
            ClientStep::Run => {
                &&& next.asset_tracker == self.asset_tracker
                &&& next.model_engine.engine is None
                &&& next.shutdown == self.shutdown
            },
            ClientStep::Stored(kind) => {
                &&& next.asset_tracker == with_received(self.asset_tracker, kind)
                &&& next.model_engine.engine == self.model_engine.engine
                &&& next.shutdown == self.shutdown
            },
            ClientStep::Built => {
                &&& everything_received(self.asset_tracker)
                &&& next.asset_tracker == self.asset_tracker
                &&& next.model_engine.engine is Some
                &&& next.shutdown == self.shutdown
            },
            ClientStep::Shutdown => {
                &&& next.asset_tracker == self.asset_tracker
                &&& next.model_engine.engine == self.model_engine.engine
                &&& next.shutdown.requested
            },
            ClientStep::Other => {
                &&& next.asset_tracker == self.asset_tracker
                &&& next.model_engine.engine == self.model_engine.engine
                &&& next.shutdown == self.shutdown
            },
        }
    }

    /// Create a new client, of no model yet
    pub fn new(cache_dir: P, memory_config: MemoryConfig<F>) -> (r: Self)
        ensures
            r.wf(),
            r.weight_loader.cache_dir == cache_dir,
            r.weight_loader.remote_base_url is None,
            r.model_engine.engine is None,
            r.model_engine.memory_config == memory_config,
            r.model_name@ == Seq::<char>::empty(),
            r.asset_tracker == nothing_received(),
            !r.asset_tracker.config_received,
            !r.asset_tracker.tokenizer_received,
            !r.asset_tracker.weights_received,
            !r.shutdown.requested,
    {
        ZenohClient {
            weight_loader: WeightLoader::new(cache_dir, None),
            model_engine: ModelEngine::with_memory_config(String::new(), memory_config),
            shutdown: ShutdownSignal::new(),
            asset_tracker: AssetTracker::new(),
            model_name: String::new(),
        }
    }

    /// Register this worker with the coordinator
    ///
    /// The response is what the coordinator answered. Where it was not asked,
    /// the worker has a placeholder for an ID, and no model.
    pub fn register(&self, answer: Option<WorkerRegistrationResponse>) -> (r:
        WorkerRegistrationResponse)
        ensures
            match answer {
                Some(response) => r == response,
                None => r.worker_id@ == "TODO"@ && r.model_config is None,
            },
    {
        match answer {
            Some(response) => response,
            None => WorkerRegistrationResponse {
                worker_id: "TODO".to_owned(),
                model_config: None,
            },
        }
    }

    /// Submit an inference result to the coordinator
    pub fn submit_result(&self, request_id: &str, result: &str) -> (r: Publication)
        ensures
            r.is_result(request_id@, result@),
            r.key@ == "barm/result/"@ + request_id@,
            r.payload@ == result@,
    {
        let mut key = "barm/result/".to_owned();
        key.append(request_id);
        Publication { key, payload: result.to_owned() }
    }

    /// Send a heartbeat signal periodically
    pub fn send_heartbeat(&self, worker_id: &str) -> (r: Heartbeat)
        ensures
            r.key@ == alive_key(worker_id@),
            r.key@ == "barm/worker/alive/"@ + worker_id@,
            r.period_secs == 30,
    {
        let mut key = "barm/worker/alive/".to_owned();
        key.append(worker_id);
        Heartbeat { key, period_secs: 30 }
    }

    /// The key under which this worker gets inference requests
    pub fn subscribe_requests(&self, worker_id: &str) -> (r: String)
        ensures
            r@ == request_key(worker_id@),
            r@ == "barm/request/"@ + worker_id@,
    {
        let mut key = "barm/request/".to_owned();
        key.append(worker_id);
        key
    }

    /// Subscribe to model config updates
    pub fn subscribe_config(&self, model_name: &str) -> (r: Subscription)
        ensures
            r.is_to(Feed::Config, model_name@),
            r.feed == Feed::Config,
            r.key@ == "barm/model/"@ + model_name@ + "/config"@,
    {
        let mut key = "barm/model/".to_owned();
        key.append(model_name);
        key.append("/config");
        Subscription { feed: Feed::Config, key }
    }

    /// Subscribe to tokenizer updates
    pub fn subscribe_tokenizer(&self, model_name: &str) -> (r: Subscription)
        ensures
            r.is_to(Feed::Tokenizer, model_name@),
            r.feed == Feed::Tokenizer,
            r.key@ == "barm/model/"@ + model_name@ + "/tokenizer"@,
    {
        let mut key = "barm/model/".to_owned();
        key.append(model_name);
        key.append("/tokenizer");
        Subscription { feed: Feed::Tokenizer, key }
    }

    /// Subscribe to weight updates (sharded safetensors)
    pub fn subscribe_weights(&self, model_name: &str) -> (r: Subscription)
        ensures
            r.is_to(Feed::Weights, model_name@),
            r.feed == Feed::Weights,
            r.key@ == "barm/model/"@ + model_name@ + "/weights/**"@,
    {
        let mut key = "barm/model/".to_owned();
        key.append(model_name);
        key.append("/weights/**");
        Subscription { feed: Feed::Weights, key }
    }

    /// Subscribe to model load requests
    pub fn subscribe_model_load(&self) -> (r: Subscription)
        ensures
            r.is_to(Feed::ModelLoad, self.model_name@),
            r.feed == Feed::ModelLoad,
            r.key@ == "barm/model/load"@,
    {
        Subscription { feed: Feed::ModelLoad, key: "barm/model/load".to_owned() }
    }

    /// Subscribe to inference requests for the model of this client
    pub fn subscribe_inference_requests(&self) -> (r: Subscription)
        ensures
            r.is_to(Feed::Inference, self.model_name@),
            r.feed == Feed::Inference,
            r.key@ == "barm/inference/"@ + self.model_name@,
    {
        let mut key = "barm/inference/".to_owned();
        key.append(self.model_name.as_str());
        Subscription { feed: Feed::Inference, key }
    }

    /// Run the client for a model, which it takes up with an engine that is
    /// not loaded: these are the feeds to subscribe to, in this order, before
    /// any of them is handled.
    pub fn run(&mut self, model_name: &str) -> (r: Vec<Subscription>)
        ensures
            old(self).changes_to(*final(self), ClientStep::Run),
            final(self).wf(),
            final(self).model_name@ == model_name@,
            final(self).model_engine.engine is None,
            final(self).model_engine.model_name@ == model_name@,
            final(self).model_engine.memory_config == old(self).model_engine.memory_config,
            final(self).weight_loader == old(self).weight_loader,
            final(self).asset_tracker == old(self).asset_tracker,
            final(self).shutdown == old(self).shutdown,
            r@.len() == 5,
            r@[0].is_to(Feed::Config, model_name@),
            r@[1].is_to(Feed::Tokenizer, model_name@),
            r@[2].is_to(Feed::Weights, model_name@),
            r@[3].is_to(Feed::ModelLoad, model_name@),
            r@[4].is_to(Feed::Inference, model_name@),
            r@[0].feed == Feed::Config && r@[0].key@ == "barm/model/"@ + model_name@ + "/config"@,
            r@[1].feed == Feed::Tokenizer && r@[1].key@ == "barm/model/"@ + model_name@
                + "/tokenizer"@,
            r@[2].feed == Feed::Weights && r@[2].key@ == "barm/model/"@ + model_name@
                + "/weights/**"@,
            r@[3].feed == Feed::ModelLoad && r@[3].key@ == "barm/model/load"@,
            r@[4].feed == Feed::Inference && r@[4].key@ == "barm/inference/"@ + model_name@,
    {
        self.model_name = model_name.to_owned();
        self.model_engine.engine = None;
        self.model_engine.model_name = model_name.to_owned();
        let mut r: Vec<Subscription> = Vec::new();
        r.push(self.subscribe_config(model_name));
        r.push(self.subscribe_tokenizer(model_name));
        r.push(self.subscribe_weights(model_name));
        r.push(self.subscribe_model_load());
        r.push(self.subscribe_inference_requests());
        r
    }

    /// The directory to load the model from, once all assets are received
    pub fn check_and_load_model(&self) -> (r: Option<CachePath>)
        ensures
            r is Some <==> everything_received(self.asset_tracker),
            r is Some ==> r->0@ == model_dir_of(self.model_name@),
            r is Some <==> self.asset_tracker.config_received
                && self.asset_tracker.tokenizer_received && self.asset_tracker.weights_received,
            r is Some ==> r->0@ == seq![self.model_name@],
    {
        if self.asset_tracker.all_received() {
            Some(self.weight_loader.model_dir(self.model_name.as_str()))
        } else {
            None
        }
    }

    /// Take over the engine that was built for the model, or say why there is
    /// none
    ///
    /// An engine is built only once all assets are received, as
    /// `check_and_load_model` says.
    pub fn finish_load(&mut self, built: Result<E, BuildFailure>) -> (r: Result<(), LoadError>)
        requires
            everything_received(old(self).asset_tracker),
        ensures
            old(self).wf() ==> final(self).wf(),
            old(self).changes_to(
                *final(self),
                if built is Ok {
                    ClientStep::Built
                } else {
                    ClientStep::Other
                },
            ),
            final(self).weight_loader == old(self).weight_loader,
            final(self).shutdown == old(self).shutdown,
            final(self).asset_tracker == old(self).asset_tracker,
            final(self).model_name == old(self).model_name,
            final(self).model_engine.model_name == old(self).model_engine.model_name,
            final(self).model_engine.memory_config == old(self).model_engine.memory_config,
            match built {
                Ok(engine) => r is Ok && final(self).model_engine.engine == Some(engine),
                Err(BuildFailure::Task(cause)) => {
                    &&& r == Err::<(), LoadError>(LoadError::TaskFailed(cause))
                    &&& final(self).model_engine.engine == old(self).model_engine.engine
                },
                Err(BuildFailure::Engine(cause)) => {
                    &&& r == Err::<(), LoadError>(LoadError::EngineFailed(cause))
                    &&& final(self).model_engine.engine == old(self).model_engine.engine
                },
            },
    {
        self.model_engine.finish_load(built)
    }

    /// What the engine is asked in the test inference; nothing where no model
    /// is loaded
    ///
    /// `temperature` is the one of the test.
    pub fn run_test_inference(&self, temperature: F) -> (r: Option<InferenceJob<F>>)
        ensures
            r is Some <==> self.model_engine.engine is Some,
            r is Some ==> is_job(
                r->0,
                "what is the capital of China"@,
                100,
                Some(temperature),
                temperature,
            ),
            r is Some ==> {
                &&& r->0.messages@.len() == 1
                &&& r->0.messages@[0].role@ == "user"@
                &&& r->0.messages@[0].content@ == "what is the capital of China"@
                &&& r->0.messages@[0].num_images == 0
                &&& r->0.sampling.max_tokens == Some(100usize)
                &&& r->0.sampling.temperature == Some(temperature)
            },
    {
        if self.model_engine.is_loaded() {
            Some(test_job(temperature))
        } else {
            None
        }
    }

    /// What to publish after the test inference: its text, if there is one
    pub fn test_inference_done(&self, outcome: Result<(String, usize), InferenceError>) -> (r:
        Option<Publication>)
        ensures
            match outcome {
                Ok(answer) => r is Some && r->0.is_result("test-001"@, answer.0@),
                Err(_) => r is None,
            },
            r is Some ==> r->0.key@ == "barm/result/"@ + "test-001"@ && r->0.payload@
                == outcome->Ok_0.0@,
    {
        match outcome {
            Ok(answer) => Some(self.submit_result(TEST_REQUEST_ID, answer.0.as_str())),
            Err(_) => None,
        }
    }

    /// Handle a config message: its content is the configuration of the model
    /// whose feed it came from
    pub fn handle_config_subscriber<'a>(&self, received: Received<'a>, model_name: &str) -> (r:
        AssetStep<'a>)
        ensures
            self.shutdown.requested ==> r is Ended,
            !self.shutdown.requested ==> match received {
                Received::Sample(_, content) => {
                    &&& r is Store
                    &&& r->Store_0.kind == AssetKind::Config
                    &&& r->Store_0.dir@ == model_dir_of(model_name@)
                    &&& r->Store_0.file@ == config_file_of(model_name@)
                    &&& r->Store_0.data@ == content@
                },
                Received::Failed(cause) => r == AssetStep::Stop(
                    ClientError::Receive(Feed::Config, cause),
                ),
            },
            !self.shutdown.requested && received is Sample ==> {
                &&& r is Store
                &&& r->Store_0.dir@ == seq![model_name@]
                &&& r->Store_0.file@ == seq![model_name@, "config.json"@]
            },
    {
        if self.shutdown.requested {
            return AssetStep::Ended;
        }
        match received {
            Received::Sample(_, content) => AssetStep::Store(
                self.weight_loader.load_config(model_name, content),
            ),
            Received::Failed(cause) => AssetStep::Stop(ClientError::Receive(Feed::Config, cause)),
        }
    }

    /// Handle a tokenizer message: its content is the tokenizer of the model
    /// whose feed it came from
    pub fn handle_tokenizer_subscriber<'a>(&self, received: Received<'a>, model_name: &str) -> (r:
        AssetStep<'a>)
        ensures
            self.shutdown.requested ==> r is Ended,
            !self.shutdown.requested ==> match received {
                Received::Sample(_, content) => {
                    &&& r is Store
                    &&& r->Store_0.kind == AssetKind::Tokenizer
                    &&& r->Store_0.dir@ == model_dir_of(model_name@)
                    &&& r->Store_0.file@ == tokenizer_file_of(model_name@)
                    &&& r->Store_0.data@ == content@
                },
                Received::Failed(cause) => r == AssetStep::Stop(
                    ClientError::Receive(Feed::Tokenizer, cause),
                ),
            },
            !self.shutdown.requested && received is Sample ==> {
                &&& r is Store
                &&& r->Store_0.dir@ == seq![model_name@]
                &&& r->Store_0.file@ == seq![model_name@, "tokenizer.json"@]
            },
    {
        if self.shutdown.requested {
            return AssetStep::Ended;
        }
        match received {
            Received::Sample(_, content) => AssetStep::Store(
                self.weight_loader.load_tokenizer(model_name, content),
            ),
            Received::Failed(cause) => AssetStep::Stop(
                ClientError::Receive(Feed::Tokenizer, cause),
            ),
        }
    }

    /// Handle a weight message (sharded safetensors): its content is the shard
    /// that its key names, of the model whose feed it came from
    pub fn handle_weights_subscriber<'a>(&self, received: Received<'a>, model_name: &str) -> (r:
        AssetStep<'a>)
        ensures
            self.shutdown.requested ==> r is Ended,
            !self.shutdown.requested ==> match received {
                Received::Sample(key, content) => {
                    &&& r is Store
                    &&& r->Store_0.kind == AssetKind::Weights
                    &&& r->Store_0.dir@ == weights_dir_of(model_name@)
                    &&& r->Store_0.file@ == shard_file_of(model_name@, keyed_shard(key@))
                    &&& r->Store_0.data@ == content@
                },
                Received::Failed(cause) => r == AssetStep::Stop(
                    ClientError::Receive(Feed::Weights, cause),
                ),
            },
            !self.shutdown.requested && received is Sample ==> {
                &&& r is Store
                &&& r->Store_0.dir@ == seq![model_name@, "weights"@]
                &&& r->Store_0.file@ == seq![
                    model_name@,
                    "weights"@,
                    shard_file(keyed_shard(received->Sample_0@)),
                ]
            },
    {
        if self.shutdown.requested {
            return AssetStep::Ended;
        }
        match received {
            Received::Sample(key, content) => {
                let index = match extract_shard_index(key) {
                    Some(index) => index,
                    None => "0".to_owned(),
                };
                proof {
                    if shard_index(key@) is None {
                        lemma_zero_names_shard_zero();
                    }
                }
                AssetStep::Store(
                    self.weight_loader.load_weights(
                        model_name,
                        index.as_str(),
                        content,
                    ),
                )
            },
            Received::Failed(cause) => AssetStep::Stop(ClientError::Receive(Feed::Weights, cause)),
        }
    }

    /// After a config message: mark the configuration as received if it was
    /// stored, and load the model if that was the last asset
    pub fn config_stored(&mut self, stored: bool) -> (r: Option<CachePath>)
        ensures
            old(self).wf() ==> final(self).wf(),
            old(self).changes_to(
                *final(self),
                if stored {
                    ClientStep::Stored(AssetKind::Config)
                } else {
                    ClientStep::Other
                },
            ),
            final(self).same_but_tracker(*old(self)),
            final(self).asset_tracker == if stored {
                with_received(old(self).asset_tracker, AssetKind::Config)
            } else {
                old(self).asset_tracker
            },
            r is Some <==> stored && everything_received(final(self).asset_tracker),
            r is Some ==> r->0@ == model_dir_of(final(self).model_name@),
            final(self).asset_tracker.config_received == (old(self).asset_tracker.config_received || stored),
            final(self).asset_tracker.tokenizer_received == old(self).asset_tracker.tokenizer_received,
            final(self).asset_tracker.weights_received == old(self).asset_tracker.weights_received,
            r is Some <==> stored && final(self).asset_tracker.config_received
                && final(self).asset_tracker.tokenizer_received
                && final(self).asset_tracker.weights_received,
            r is Some ==> r->0@ == seq![final(self).model_name@],
            final(self).model_engine == old(self).model_engine,
    {
        if !stored {
            return None;
        }
        self.asset_tracker.mark_config_received();
        self.check_and_load_model()
    }

    /// After a tokenizer message: mark the tokenizer as received if it was
    /// stored, and load the model if that was the last asset
    pub fn tokenizer_stored(&mut self, stored: bool) -> (r: Option<CachePath>)
        ensures
            old(self).wf() ==> final(self).wf(),
            old(self).changes_to(
                *final(self),
                if stored {
                    ClientStep::Stored(AssetKind::Tokenizer)
                } else {
                    ClientStep::Other
                },
            ),
            final(self).same_but_tracker(*old(self)),
            final(self).asset_tracker == if stored {
                with_received(old(self).asset_tracker, AssetKind::Tokenizer)
            } else {
                old(self).asset_tracker
            },
            r is Some <==> stored && everything_received(final(self).asset_tracker),
            r is Some ==> r->0@ == model_dir_of(final(self).model_name@),
            final(self).asset_tracker.tokenizer_received == (old(self).asset_tracker.tokenizer_received || stored),
            final(self).asset_tracker.config_received == old(self).asset_tracker.config_received,
            final(self).asset_tracker.weights_received == old(self).asset_tracker.weights_received,
            r is Some <==> stored && final(self).asset_tracker.config_received
                && final(self).asset_tracker.tokenizer_received
                && final(self).asset_tracker.weights_received,
            r is Some ==> r->0@ == seq![final(self).model_name@],
            final(self).model_engine == old(self).model_engine,
    {
        if !stored {
            return None;
        }
        self.asset_tracker.mark_tokenizer_received();
        self.check_and_load_model()
    }

    /// After a weight message: count the shard if it was stored, mark the
    /// weights as received after the first one, and load the model if all
    /// assets are received
    pub fn weights_stored(&mut self, count: &mut ShardCount, stored: bool) -> (r: Option<CachePath>)
        requires
            stored ==> old(count).stored < i32::MAX,
        ensures
            old(self).wf() ==> final(self).wf(),
            old(self).changes_to(
                *final(self),
                if stored && final(count).stored == 1 {
                    ClientStep::Stored(AssetKind::Weights)
                } else {
                    ClientStep::Other
                },
            ),
            final(self).same_but_tracker(*old(self)),
            final(count).stored == old(count).stored + if stored {
                1int
            } else {
                0int
            },
            final(self).asset_tracker == if stored && final(count).stored == 1 {
                with_received(old(self).asset_tracker, AssetKind::Weights)
            } else {
                old(self).asset_tracker
            },
            r is Some <==> stored && everything_received(final(self).asset_tracker),
            r is Some ==> r->0@ == model_dir_of(final(self).model_name@),
            final(self).asset_tracker.weights_received == (old(self).asset_tracker.weights_received
                || (stored && old(count).stored == 0)),
            final(self).asset_tracker.config_received == old(self).asset_tracker.config_received,
            final(self).asset_tracker.tokenizer_received
                == old(self).asset_tracker.tokenizer_received,
            r is Some <==> stored && final(self).asset_tracker.config_received
                && final(self).asset_tracker.tokenizer_received
                && final(self).asset_tracker.weights_received,
            r is Some ==> r->0@ == seq![final(self).model_name@],
            final(self).model_engine == old(self).model_engine,
    {
        if !stored {
            return None;
        }
        count.stored = count.stored + 1;
        if count.stored == 1 {
            self.asset_tracker.mark_weights_received();
        }
        self.check_and_load_model()
    }

    /// Handle a model load request: load the model if all assets are received
    pub fn handle_model_load_subscriber(&self, event: LoadEvent) -> (r: LoadStep)
        ensures
            self.shutdown.requested ==> r is Ended,
            !self.shutdown.requested ==> match event {
                LoadEvent::Request(_) => match r {
                    LoadStep::Load(dir) => everything_received(self.asset_tracker) && dir@
                        == model_dir_of(self.model_name@),
                    LoadStep::Wait => !everything_received(self.asset_tracker),
                    _ => false,
                },
                LoadEvent::Malformed => r is Wait,
                LoadEvent::Failed(cause) => r == LoadStep::Stop(
                    ClientError::Receive(Feed::ModelLoad, cause),
                ),
            },
            !self.shutdown.requested && event is Request ==> {
                &&& r is Load <==> self.asset_tracker.config_received
                    && self.asset_tracker.tokenizer_received && self.asset_tracker.weights_received
                &&& r is Load ==> r->Load_0@ == seq![self.model_name@]
                &&& !(r is Load) ==> r is Wait
            },
    {
        if self.shutdown.requested {
            return LoadStep::Ended;
        }
        match event {
            LoadEvent::Request(_) => match self.check_and_load_model() {
                Some(dir) => LoadStep::Load(dir),
                None => LoadStep::Wait,
            },
            LoadEvent::Malformed => LoadStep::Wait,
            LoadEvent::Failed(cause) => LoadStep::Stop(
                ClientError::Receive(Feed::ModelLoad, cause),
            ),
        }
    }

    /// Handle an inference request: ask the engine, or answer with an error
    /// where no model is loaded
    ///
    /// `usual` is the temperature that is taken where the request gives none.
    pub fn handle_inference_requests(&self, event: InferenceEvent<F>, usual: F) -> (r:
        InferenceStep<F>)
        ensures
            self.shutdown.requested ==> r is Ended,
            !self.shutdown.requested ==> match event {
                InferenceEvent::Request(request) => match r {
                    InferenceStep::Infer(id, job) => {
                        &&& self.model_engine.engine is Some
                        &&& id@ == request.request_id@
                        &&& is_job(
                            job,
                            request.prompt@,
                            tokens_asked(request.max_tokens),
                            request.temperature,
                            usual,
                        )
                    },
                    InferenceStep::Answer(p) => {
                        &&& self.model_engine.engine is None
                        &&& p.is_result(request.request_id@, not_loaded_reply(request.request_id@))
                    },
                    _ => false,
                },
                InferenceEvent::Malformed => r is Wait,
                InferenceEvent::Failed(cause) => r == InferenceStep::<F>::Stop(
                    ClientError::Receive(Feed::Inference, cause),
                ),
            },
            !self.shutdown.requested && event is Request ==> {
                let request = event->Request_0;
                &&& r is Infer <==> self.model_engine.engine is Some
                &&& r is Answer <==> self.model_engine.engine is None
                &&& r is Infer ==> {
                    &&& r->Infer_0@ == request.request_id@
                    &&& r->Infer_1.messages@.len() == 1
                    &&& r->Infer_1.messages@[0].role@ == "user"@
                    &&& r->Infer_1.messages@[0].content@ == request.prompt@
                    &&& r->Infer_1.messages@[0].num_images == 0
                    &&& r->Infer_1.sampling.max_tokens == Some(
                        match request.max_tokens {
                            Some(n) => n,
                            None => 1024,
                        },
                    )
                    &&& request.temperature is Some ==> r->Infer_1.sampling.temperature
                        == request.temperature
                    &&& request.temperature is None ==> r->Infer_1.sampling.temperature == Some(
                        usual,
                    )
                }
                &&& r is Answer ==> {
                    &&& r->Answer_0.key@ == "barm/result/"@ + request.request_id@
                    &&& r->Answer_0.payload@ == json_object(
                        "error"@,
                        "Model not loaded yet"@,
                        "request_id"@,
                        request.request_id@,
                    )
                }
            },
    {
        if self.shutdown.requested {
            return InferenceStep::Ended;
        }
        match event {
            InferenceEvent::Request(request) => {
                let max_tokens: usize = match request.max_tokens {
                    Some(n) => n,
                    None => 1024,
                };
                match self.model_engine.complete(
                    request.prompt.as_str(),
                    max_tokens,
                    request.temperature,
                    usual,
                ) {
                    Ok(job) => InferenceStep::Infer(request.request_id, job),
                    Err(_) => {
                        let reply = error_reply(
                            "Model not loaded yet",
                            request.request_id.as_str(),
                        );
                        InferenceStep::Answer(
                            self.submit_result(request.request_id.as_str(), reply.as_str()),
                        )
                    },
                }
            },
            InferenceEvent::Malformed => InferenceStep::Wait,
            InferenceEvent::Failed(cause) => InferenceStep::Stop(
                ClientError::Receive(Feed::Inference, cause),
            ),
        }
    }

    /// What to publish after an inference: its text, or an error reply
    ///
    /// `outcome` is the answer, or the full description of what went wrong.
    pub fn inference_done(&self, request_id: &str, outcome: Result<(String, usize), String>) -> (r:
        Publication)
        ensures
            match outcome {
                Ok(answer) => r.is_result(request_id@, answer.0@),
                Err(error) => r.is_result(request_id@, error_reply_text(error@, request_id@)),
            },
            r.key@ == "barm/result/"@ + request_id@,
            outcome is Ok ==> r.payload@ == outcome->Ok_0.0@,
            outcome is Err ==> r.payload@ == json_object(
                "error"@,
                outcome->Err_0@,
                "request_id"@,
                request_id@,
            ),
    {
        match outcome {
            Ok(answer) => self.submit_result(request_id, answer.0.as_str()),
            Err(error) => {
                let reply = error_reply(error.as_str(), request_id);
                self.submit_result(request_id, reply.as_str())
            },
        }
    }

    /// Signal shutdown to all handlers: from now on, whatever comes, each of
    /// them ends
    pub fn shutdown(&mut self)
        ensures
            old(self).wf() ==> final(self).wf(),
            old(self).changes_to(*final(self), ClientStep::Shutdown),
            final(self).shutdown.requested,
            final(self).weight_loader == old(self).weight_loader,
            final(self).model_engine == old(self).model_engine,
            final(self).asset_tracker == old(self).asset_tracker,
            final(self).model_name == old(self).model_name,
    {
        self.shutdown.signal();
    }
}

impl<P, E, F: Copy> ZenohClient<P, E, F> {
    /// The settings for loading the model of this client
    pub fn begin_load(&self, disk: &CacheSnapshot) -> (r: Result<EngineConfig<F>, LoadError>)
        ensures
            match r {
                Ok(c) => {
                    &&& disk@.contains(config_file_of(self.model_name@))
                    &&& disk@.contains(tokenizer_file_of(self.model_name@))
                    &&& c.weight_dir@ == model_dir_of(self.model_name@)
                    &&& engine_settings(self.model_engine.memory_config, c)
                },
                Err(LoadError::ConfigMissing(p)) => {
                    &&& !disk@.contains(config_file_of(self.model_name@))
                    &&& p@ == config_file_of(self.model_name@)
                },
                Err(LoadError::TokenizerMissing(p)) => {
                    &&& disk@.contains(config_file_of(self.model_name@))
                    &&& !disk@.contains(tokenizer_file_of(self.model_name@))
                    &&& p@ == tokenizer_file_of(self.model_name@)
                },
                Err(_) => false,
            },
            r is Ok <==> disk@.contains(seq![self.model_name@, "config.json"@]) && disk@.contains(
                seq![self.model_name@, "tokenizer.json"@],
            ),
            r is Ok ==> {
                let c = r->Ok_0;
                let memory = self.model_engine.memory_config;
                &&& c.weight_dir@ == seq![self.model_name@]
                &&& memory.max_num_seqs is Some ==> c.max_num_seqs == memory.max_num_seqs->0
                &&& memory.max_num_seqs is None ==> c.max_num_seqs == 4
                &&& memory.max_model_len is Some ==> c.max_model_len == memory.max_model_len->0
                &&& memory.max_model_len is None ==> c.max_model_len == 512
                &&& c.kv_fraction == memory.kv_fraction
                &&& c.max_tokens == 1024
                &&& c.num_shards == 1
                &&& !c.server_mode
            },
    {
        let model_dir = self.weight_loader.model_dir(self.model_name.as_str());
        assert(model_dir@.push("config.json"@) =~= config_file_of(self.model_name@));
        assert(model_dir@.push("tokenizer.json"@) =~= tokenizer_file_of(self.model_name@));
        self.model_engine.load_model(&model_dir, disk)
    }
}

/// The job of the test inference.
fn test_job<F>(temperature: F) -> (r: InferenceJob<F>)
    ensures
        is_job(r, "what is the capital of China"@, 100, Some(temperature), temperature),
{
    crate::model_loader::job_at(TEST_PROMPT, 100, temperature)
}

/// The shard that a message key names; shard zero where it names none.
pub open spec fn keyed_shard(key: Seq<char>) -> u32 {
    match shard_index(key) {
        Some(index) => shard_number(index),
        None => 0,
    }
}

/// The index `0` names shard zero.
proof fn lemma_zero_names_shard_zero()
    ensures
        shard_number("0"@) == 0,
{
    reveal_strlit("0");
    reveal_with_fuel(crate::text::digits_value, 2);
    assert("0"@.drop_last() =~= Seq::<char>::empty());
    assert(crate::text::digits_value("0"@) == 0);
}

/// How many tokens a request asks for; 1024 where it does not say.
pub open spec fn tokens_asked(max_tokens: Option<usize>) -> usize {
    match max_tokens {
        Some(n) => n,
        None => 1024,
    }
}

/// The reply to a request that comes before a model is loaded.
pub open spec fn not_loaded_reply(request_id: Seq<char>) -> Seq<char> {
    error_reply_text("Model not loaded yet"@, request_id)
}

/// The tracker of a client that has received these assets, in this order.
pub open spec fn tracker_after(kinds: Seq<AssetKind>) -> AssetTracker
    decreases kinds.len(),
{
    if kinds.len() == 0 {
        nothing_received()
    } else {
        with_received(tracker_after(kinds.drop_last()), kinds.last())
    }
}

/// The tracker knows exactly what came: a kind of asset counts as received if
/// and only if one of that kind came, in whatever order and however often.
pub proof fn law_tracker_knows_what_came(kinds: Seq<AssetKind>)
    ensures
        tracker_after(kinds).config_received == kinds.contains(AssetKind::Config),
        tracker_after(kinds).tokenizer_received == kinds.contains(AssetKind::Tokenizer),
        tracker_after(kinds).weights_received == kinds.contains(AssetKind::Weights),
        everything_received(tracker_after(kinds)) <==> forall|kind: AssetKind|
            #[trigger] kinds.contains(kind),
    decreases kinds.len(),
{
    if kinds.len() > 0 {
        let front = kinds.drop_last();
        law_tracker_knows_what_came(front);
        assert forall|kind: AssetKind| #[trigger] kinds.contains(kind) == (front.contains(kind)
            || kinds.last() == kind) by {
            if kinds.contains(kind) {
                let i = choose|i: int| 0 <= i < kinds.len() && kinds[i] == kind;
                if i < front.len() {
                    assert(front[i] == kind);
                }
            }
            if front.contains(kind) {
                let i = choose|i: int| 0 <= i < front.len() && front[i] == kind;
                assert(kinds[i] == kind);
            }
            if kinds.last() == kind {
                assert(kinds[kinds.len() - 1] == kind);
            }
        }
    }
    let all = tracker_after(kinds);
    assert(kinds.contains(AssetKind::Config) == all.config_received);
    assert(kinds.contains(AssetKind::Tokenizer) == all.tokenizer_received);
    assert(kinds.contains(AssetKind::Weights) == all.weights_received);
}

/// Whether these are the clients that a new one became, step by step.
pub open spec fn is_history<P, E, F>(
    clients: Seq<ZenohClient<P, E, F>>,
    steps: Seq<ClientStep>,
) -> bool {
    &&& clients.len() == steps.len() + 1
    &&& clients[0].asset_tracker == nothing_received()
    &&& clients[0].model_engine.engine is None
    &&& forall|i: int|
        0 <= i < steps.len() ==> (#[trigger] clients[i]).changes_to(clients[i + 1], steps[i])
}

/// A model is loaded only after an asset of every kind was stored: in every
/// history of a client that starts with a new one, by whatever steps, a client
/// whose model is loaded comes after steps that stored each kind.
pub proof fn law_loaded_only_after_all_assets<P, E, F>(
    clients: Seq<ZenohClient<P, E, F>>,
    steps: Seq<ClientStep>,
    kind: AssetKind,
)
    requires
        is_history(clients, steps),
        clients.last().model_engine.engine is Some,
    ensures
        everything_received(clients.last().asset_tracker),
        steps.contains(ClientStep::Stored(kind)),
{
    lemma_history(clients, steps);
}

/// Shutdown is final: in every history of a client, once it was told to shut
/// down, the signal stands, and so each of its handlers ends.
pub proof fn law_shutdown_is_final<P, E, F>(
    clients: Seq<ZenohClient<P, E, F>>,
    steps: Seq<ClientStep>,
    told: int,
    later: int,
)
    requires
        is_history(clients, steps),
        0 <= told < later < clients.len(),
        steps[told] == ClientStep::Shutdown,
    ensures
        clients[later].shutdown.requested,
    decreases later - told,
{
    if later > told + 1 {
        law_shutdown_is_final(clients, steps, told, later - 1);
    }
    assert(clients[later - 1].changes_to(clients[later - 1 + 1], steps[later - 1]));
}

/// In the history of a client, a kind of asset that counts as received was
/// stored, and a loaded model has received everything.
proof fn lemma_history<P, E, F>(clients: Seq<ZenohClient<P, E, F>>, steps: Seq<ClientStep>)
    requires
        is_history(clients, steps),
    ensures
        clients.last().model_engine.engine is Some ==> everything_received(
            clients.last().asset_tracker,
        ),
        clients.last().asset_tracker.config_received ==> steps.contains(
            ClientStep::Stored(AssetKind::Config),
        ),
        clients.last().asset_tracker.tokenizer_received ==> steps.contains(
            ClientStep::Stored(AssetKind::Tokenizer),
        ),
        clients.last().asset_tracker.weights_received ==> steps.contains(
            ClientStep::Stored(AssetKind::Weights),
        ),
    decreases steps.len(),
{
    if steps.len() > 0 {
        let front = steps.drop_last();
        let earlier = clients.drop_last();
        let last = steps.len() - 1;
        assert forall|i: int| 0 <= i < front.len() implies (#[trigger] earlier[i]).changes_to(
            earlier[i + 1],
            front[i],
        ) by {
            assert(clients[i].changes_to(clients[i + 1], steps[i]));
        }
        lemma_history(earlier, front);
        assert(clients[last].changes_to(clients[last + 1], steps[last]));
        assert(earlier.last() == clients[last]);
        assert forall|step: ClientStep|
            front.contains(step) || steps.last() == step implies #[trigger] steps.contains(step) by {
            if front.contains(step) {
                let i = choose|i: int| 0 <= i < front.len() && front[i] == step;
                assert(steps[i] == step);
            } else {
                assert(steps[last] == step);
            }
        }
    }
}

/// Results do not mix: the results of different requests are published under
/// different keys.
pub proof fn law_result_keys_are_distinct(a: Seq<char>, b: Seq<char>)
    requires
        a != b,
    ensures
        result_key(a) != result_key(b),
{
    let n = "barm/result/"@.len() as int;
    assert(result_key(a).skip(n) =~= a);
    assert(result_key(b).skip(n) =~= b);
}

/// Requests that are refused because no model is loaded get replies that tell
/// them apart.
pub proof fn law_refusals_name_their_requests(a: Seq<char>, b: Seq<char>)
    requires
        a != b,
    ensures
        not_loaded_reply(a) != not_loaded_reply(b),
{
    if not_loaded_reply(a) == not_loaded_reply(b) {
        law_error_reply_reads_one_way("Model not loaded yet"@, a, "Model not loaded yet"@, b);
    }
}

/// Feeds do not mix: the feeds of a client have different keys, whatever the
/// name of its model.
pub proof fn law_feed_keys_are_distinct(f: Feed, g: Feed, model: Seq<char>)
    requires
        f != g,
    ensures
        feed_key(f, model) != feed_key(g, model),
{
    reveal_strlit("barm/model/");
    reveal_strlit("barm/inference/");
    reveal_strlit("barm/model/load");
    reveal_strlit("/config");
    reveal_strlit("/tokenizer");
    reveal_strlit("/weights/**");
    assert(f == Feed::Inference ==> feed_key(f, model)[5] == 'i');
    assert(g == Feed::Inference ==> feed_key(g, model)[5] == 'i');
    assert(f != Feed::Inference ==> feed_key(f, model)[5] == 'm');
    assert(g != Feed::Inference ==> feed_key(g, model)[5] == 'm');
    assert(feed_key(Feed::Config, model).len() == model.len() + 18);
    assert(feed_key(Feed::Tokenizer, model).len() == model.len() + 21);
    assert(feed_key(Feed::Weights, model).len() == model.len() + 22);
    assert(feed_key(Feed::ModelLoad, model).len() == 15);
}

/// A published shard is stored as what it is: the key under which the shard of
/// a number is published, below the weights of any model, names that shard.
pub proof fn law_published_shard_goes_to_its_file(model: Seq<char>, n: u32)
    ensures
        keyed_shard(
            "barm/model/"@ + model + "/weights/"@ + "shard-"@ + zero_padded(decimal(n as nat), 3),
        ) == n,
{
    law_published_shard_is_identified("barm/model/"@ + model + "/weights/"@, n);
}

/// A message goes to the shard that its key names: under every key that ends
/// in `shard-` and a row of digits of a value, padded or not and of any length,
/// whatever stands in front and whatever else follows the digits, the shard of
/// that value is meant. A value that 32 bits cannot hold means shard zero.
pub proof fn law_key_means_the_shard_of_its_digits(
    prefix: Seq<char>,
    digits: Seq<char>,
    suffix: Seq<char>,
)
    requires
        digits.len() > 0,
        forall|i: int| 0 <= i < digits.len() ==> '0' <= #[trigger] digits[i] && digits[i] <= '9',
        suffix.len() > 0 ==> suffix[0] < '0' || suffix[0] > '9',
        forall|i: int|
            0 <= i <= suffix.len() - 6 ==> #[trigger] suffix.subrange(i, i + 6) != "shard-"@,
    ensures
        digits_value(digits) <= u32::MAX ==> keyed_shard(prefix + "shard-"@ + digits + suffix)
            == digits_value(digits),
        digits_value(digits) > u32::MAX ==> keyed_shard(prefix + "shard-"@ + digits + suffix) == 0,
{
    law_index_is_the_digits_behind_the_last_shard(prefix, digits, suffix);
    law_index_names_the_shard_of_its_value(digits);
}

/// A shard that is published under its plain number goes to its file, for
/// every number and whatever stands in front.
pub proof fn law_plain_number_means_its_shard(prefix: Seq<char>, n: u32)
    ensures
        keyed_shard(prefix + "shard-"@ + decimal(n as nat)) == n,
{
    let d = decimal(n as nat);
    law_decimal_notation(n as nat);
    law_key_means_the_shard_of_its_digits(prefix, d, seq![]);
    assert(prefix + "shard-"@ + d + Seq::<char>::empty() =~= prefix + "shard-"@ + d);
}

/// A key that names no shard, because `shard-` does not occur in it or no
/// digit follows its last occurrence, means shard zero.
pub proof fn law_key_without_a_number_means_shard_zero(
    path: Seq<char>,
    prefix: Seq<char>,
    suffix: Seq<char>,
)
    requires
        forall|i: int| 0 <= i <= path.len() - 6 ==> #[trigger] path.subrange(i, i + 6) != "shard-"@,
        suffix.len() > 0 ==> suffix[0] < '0' || suffix[0] > '9',
        forall|i: int|
            0 <= i <= suffix.len() - 6 ==> #[trigger] suffix.subrange(i, i + 6) != "shard-"@,
    ensures
        keyed_shard(path) == 0,
        keyed_shard(prefix + "shard-"@ + suffix) == 0,
{
    law_no_index_without_shard(path);
    let none = Seq::<char>::empty();
    law_index_is_the_digits_behind_the_last_shard(prefix, none, suffix);
    assert(prefix + "shard-"@ + none + suffix =~= prefix + "shard-"@ + suffix);
}

} // verus!
