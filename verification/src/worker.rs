//! The configuration of a worker, and what running it starts.

use vstd::prelude::*;
use vstd::string::*;

use crate::model_loader::MemoryConfig;
use crate::random::uuid_v4_text;
use crate::random::is_uuid_v4;
use crate::text::split_on;
use crate::text::{
    is_hex_digit, law_first_piece, lemma_next_index, lemma_next_index_is, pieces, pieces_from,
};
use crate::trace::TraceContext;
use crate::trace::{no_trace, trace_of};
use crate::zenoh_client::{ClientError, ZenohClient};
use crate::zenoh_client::nothing_received;

verus! {

/// Configuration for barm worker runtime
///
/// `P` is the type of the cache directory, `F` that of the memory fraction.
#[derive(Debug, Clone)]
pub struct BarmWorkerConfig<P, F> {
    /// Zenoh peer endpoint
    pub zenoh_peer: String,
    /// Model name
    pub model_name: String,
    /// Cache directory
    pub cache_dir: P,
    /// Memory configuration
    pub memory_config: MemoryConfig<F>,
    /// Trace context for distributed tracing
    pub trace_context: TraceContext,
    /// Worker ID for identification
    pub worker_id: String,
}

/// The worker ID that a text gives: a fixed prefix, then the text up to its
/// first hyphen.
pub open spec fn worker_id_of(text: Seq<char>) -> Seq<char> {
    "vllm-rs-"@ + pieces(text, '-')[0]
}

/// Whether a worker ID has the form of a generated one: the fixed prefix, then
/// eight lower-case hexadecimal digits.
pub open spec fn is_generated_worker_id(id: Seq<char>) -> bool {
    &&& id.len() == "vllm-rs-"@.len() + 8
    &&& id.take("vllm-rs-"@.len() as int) == "vllm-rs-"@
    &&& forall|i: int| "vllm-rs-"@.len() <= i < id.len() ==> is_hex_digit(#[trigger] id[i])
}

/// The worker ID that a text gives.
pub fn worker_id_from(text: &str) -> (r: String)
    ensures
        r@ == worker_id_of(text@),
        r@ == "vllm-rs-"@ + pieces(text@, '-')[0],
{
    let parts = split_on(text, '-');
    proof {
        lemma_next_index(text@, '-', 0);
        assert(pieces(text@, '-').len() > 0);
        assert(parts@.map_values(|t: String| t@).len() == parts@.len());
        assert(parts@.map_values(|t: String| t@)[0] == parts@[0]@);
    }
    let mut r = "vllm-rs-".to_owned();
    r.append(parts[0].as_str());
    r
}

/// A random identifier gives a worker ID of the generated form.
proof fn lemma_uuid_gives_worker_id(text: Seq<char>)
    requires
        is_uuid_v4(text),
    ensures
        is_generated_worker_id(worker_id_of(text)),
{
    assert forall|i: int| 0 <= i < 8 implies text[i] != '-' by {
        assert(is_hex_digit(text[i]));
    }
    assert(text[8] == '-');
    lemma_next_index_is(text, '-', 0, 8);
    let head = text.subrange(0, 8);
    assert(pieces(text, '-') == seq![head] + pieces_from(text, '-', 9));
    assert(pieces(text, '-')[0] == head);
    let prefix = "vllm-rs-"@;
    let id = worker_id_of(text);
    assert(id.take(prefix.len() as int) =~= prefix);
    assert forall|i: int| prefix.len() <= i < id.len() implies is_hex_digit(#[trigger] id[i]) by {
        assert(id[i] == text[i - prefix.len()]);
    }
}

impl<P, F> BarmWorkerConfig<P, F> {
    /// Create a new config with required parameters
    pub fn new(zenoh_peer: String, model_name: String, cache_dir: P) -> (r: Self)
        ensures
            r.zenoh_peer == zenoh_peer,
            r.model_name == model_name,
            r.cache_dir == cache_dir,
            r.memory_config == (MemoryConfig::<F> {
                max_model_len: None,
                max_num_seqs: None,
                kv_fraction: None,
            }),
            r.trace_context@ == no_trace(),
            r.trace_context.traceparent is None,
            is_generated_worker_id(r.worker_id@),
            r.worker_id@.len() == 16,
            r.worker_id@.take(8) == "vllm-rs-"@,
            forall|i: int|
                8 <= i < 16 ==> ('0' <= #[trigger] r.worker_id@[i] && r.worker_id@[i] <= '9') || (
                'a' <= r.worker_id@[i] && r.worker_id@[i] <= 'f'),
    {
        let id = uuid_v4_text();
        proof {
            reveal_strlit("vllm-rs-");
            lemma_uuid_gives_worker_id(id@);
        }
        BarmWorkerConfig {
            zenoh_peer,
            model_name,
            cache_dir,
            memory_config: MemoryConfig::default(),
            trace_context: TraceContext::default(),
            worker_id: worker_id_from(id.as_str()),
        }
    }

    /// Set memory configuration
    pub fn with_memory_config(
        self,
        max_model_len: Option<usize>,
        max_num_seqs: Option<usize>,
        kv_fraction: Option<F>,
    ) -> (r: Self)
        ensures
            r == (BarmWorkerConfig {
                memory_config: MemoryConfig { max_model_len, max_num_seqs, kv_fraction },
                ..self
            }),
    {
        let mut r = self;
        r.memory_config = MemoryConfig { max_model_len, max_num_seqs, kv_fraction };
        r
    }

    /// Set trace context, if a traceparent is given
    pub fn with_trace_context(self, traceparent: Option<String>) -> (r: Self)
        ensures
            r == (BarmWorkerConfig { trace_context: r.trace_context, ..self }),
            match traceparent {
                Some(tp) => r.trace_context@ == trace_of(tp@),
                None => r.trace_context == self.trace_context,
            },
            traceparent is Some ==> r.trace_context.traceparent is Some
                && r.trace_context.traceparent->0@ == traceparent->0@,
    {
        let mut r = self;
        if let Some(tp) = traceparent {
            r.trace_context = TraceContext::from_traceparent(tp.as_str());
        }
        r
    }

    /// Set worker ID
    pub fn with_worker_id(self, worker_id: String) -> (r: Self)
        ensures
            r == (BarmWorkerConfig { worker_id, ..self }),
    {
        let mut r = self;
        r.worker_id = worker_id;
        r
    }
}

/// What running a worker starts.
#[derive(Debug)]
pub struct Launch<P, E, F> {
    /// The peer to connect to
    pub peer: String,
    /// The model to run the client for
    pub model_name: String,
    /// The client
    pub client: ZenohClient<P, E, F>,
}

/// Run the barm worker with the given configuration: a client with the given
/// cache directory and memory configuration connects to the given peer and
/// runs for the given model.
pub fn run<P, E, F>(config: BarmWorkerConfig<P, F>) -> (r: Launch<P, E, F>)
    ensures
        r.peer == config.zenoh_peer,
        r.model_name == config.model_name,
        r.client.wf(),
        r.client.weight_loader.cache_dir == config.cache_dir,
        r.client.weight_loader.remote_base_url is None,
        r.client.model_engine.engine is None,
        r.client.model_engine.memory_config == config.memory_config,
        r.client.model_name@ == Seq::<char>::empty(),
        r.client.asset_tracker == nothing_received(),
        !r.client.asset_tracker.config_received,
        !r.client.asset_tracker.tokenizer_received,
        !r.client.asset_tracker.weights_received,
        !r.client.shutdown.requested,
{
    Launch {
        peer: config.zenoh_peer,
        model_name: config.model_name,
        client: ZenohClient::new(config.cache_dir, config.memory_config),
    }
}

/// The configuration that the legacy parameters stand for (for backward
/// compatibility)
pub fn run_legacy<P, F>(
    zenoh_peer: String,
    model_name: String,
    cache_dir: P,
    max_model_len: Option<usize>,
    max_num_seqs: Option<usize>,
    kv_fraction: Option<F>,
    traceparent: Option<String>,
) -> (r: BarmWorkerConfig<P, F>)
    ensures
        r.zenoh_peer == zenoh_peer,
        r.model_name == model_name,
        r.cache_dir == cache_dir,
        r.memory_config == (MemoryConfig { max_model_len, max_num_seqs, kv_fraction }),
        match traceparent {
            Some(tp) => r.trace_context@ == trace_of(tp@),
            None => r.trace_context@ == no_trace(),
        },
        is_generated_worker_id(r.worker_id@),
{
    BarmWorkerConfig::new(zenoh_peer, model_name, cache_dir).with_memory_config(
        max_model_len,
        max_num_seqs,
        kv_fraction,
    ).with_trace_context(traceparent)
}

/// Why a worker stopped.
#[derive(Debug)]
pub enum WorkerError {
    /// Its client could not be created
    Create(ClientError),
    /// Its client failed while running
    Run(ClientError),
}

/// What failed, in words, without the cause.
pub open spec fn worker_error_text(e: WorkerError) -> Seq<char> {
    match e {
        WorkerError::Create(_) => "Failed to create Zenoh client"@,
        WorkerError::Run(_) => "Failed to run Zenoh client"@,
    }
}

impl WorkerError {
    /// What failed, in words. The cause, which the error holds, is not part of
    /// it.
    pub fn message(&self) -> (r: String)
        ensures
            r@ == worker_error_text(*self),
            match *self {
                WorkerError::Create(_) => r@ == "Failed to create Zenoh client"@,
                WorkerError::Run(_) => r@ == "Failed to run Zenoh client"@,
            },
    {
        match self {
            WorkerError::Create(_) => "Failed to create Zenoh client".to_owned(),
            WorkerError::Run(_) => "Failed to run Zenoh client".to_owned(),
        }
    }
}

/// A worker ID is the fixed prefix and the text up to its first hyphen, whole;
/// the whole text where it has no hyphen.
pub proof fn law_worker_id_is_the_first_group(group: Seq<char>, rest: Seq<char>)
    requires
        forall|i: int| 0 <= i < group.len() ==> group[i] != '-',
    ensures
        worker_id_of(group) == "vllm-rs-"@ + group,
        worker_id_of(group + seq!['-'] + rest) == "vllm-rs-"@ + group,
{
    law_first_piece(group, '-', rest);
}

} // verus!
