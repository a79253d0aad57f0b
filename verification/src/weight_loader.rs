//! The cache of model assets: where each asset is stored, what makes a model
//! cached, and how large its cache is.

use vstd::prelude::*;
use vstd::string::*;

use crate::paths::{CachePath, CacheSnapshot};
use crate::shard::{shard_file_name, shard_number_of};
use crate::shard::{shard_file, shard_number};

verus! {

/// The directory of a model.
pub open spec fn model_dir_of(model: Seq<char>) -> Seq<Seq<char>> {
    seq![model]
}

/// The configuration file of a model.
pub open spec fn config_file_of(model: Seq<char>) -> Seq<Seq<char>> {
    seq![model, "config.json"@]
}

/// The tokenizer file of a model.
pub open spec fn tokenizer_file_of(model: Seq<char>) -> Seq<Seq<char>> {
    seq![model, "tokenizer.json"@]
}

/// The directory of a model's weight shards.
pub open spec fn weights_dir_of(model: Seq<char>) -> Seq<Seq<char>> {
    seq![model, "weights"@]
}

/// The file of one weight shard of a model.
pub open spec fn shard_file_of(model: Seq<char>, n: u32) -> Seq<Seq<char>> {
    seq![model, "weights"@, shard_file(n)]
}

/// Whether the configuration, the tokenizer and the shards with the numbers
/// below `expected_shards` are all there.
pub open spec fn model_is_cached(
    present: Set<Seq<Seq<char>>>,
    model: Seq<char>,
    expected_shards: u32,
) -> bool {
    &&& present.contains(config_file_of(model))
    &&& present.contains(tokenizer_file_of(model))
    &&& forall|n: u32| n < expected_shards ==> present.contains(#[trigger] shard_file_of(model, n))
}

/// Whether the directory and the configuration of a model are there.
pub open spec fn model_is_known(present: Set<Seq<Seq<char>>>, model: Seq<char>) -> bool {
    present.contains(model_dir_of(model)) && present.contains(config_file_of(model))
}

/// Which part of a model a file holds.
#[derive(Debug, Clone, Copy, PartialEq, Eq, Structural)]
pub enum AssetKind {
    /// The configuration
    Config,
    /// The tokenizer
    Tokenizer,
    /// One weight shard
    Weights,
}

/// What has to be done to store an asset: make the directory, with all its
/// parents, then write the data to the file.
#[derive(Debug)]
pub struct StorePlan<'a> {
    /// What is stored
    pub kind: AssetKind,
    /// The directory to be made
    pub dir: CachePath,
    /// The file to be written
    pub file: CachePath,
    /// Its content
    pub data: &'a [u8],
}

/// How far the storing of an asset came.
#[derive(Debug)]
pub enum StoreEvent {
    /// The file is written
    Stored,
    /// The directory could not be made
    DirFailed(String),
    /// The file could not be written
    WriteFailed(String),
}

/// Why an asset was not stored.
#[derive(Debug)]
pub struct StoreError {
    /// What was tried
    pub context: String,
    /// The place on which it was tried
    pub path: CachePath,
    /// The reason that the system gave
    pub cause: String,
}

/// What is tried when the directory of an asset is made.
pub open spec fn dir_context(kind: AssetKind) -> Seq<char> {
    match kind {
        AssetKind::Config => "Failed to create model directory"@,
        AssetKind::Tokenizer => "Failed to create model directory"@,
        AssetKind::Weights => "Failed to create weights directory"@,
    }
}

/// What is tried when the file of an asset is written.
pub open spec fn write_context(kind: AssetKind) -> Seq<char> {
    match kind {
        AssetKind::Config => "Failed to write config to"@,
        AssetKind::Tokenizer => "Failed to write tokenizer to"@,
        AssetKind::Weights => "Failed to write weight shard to"@,
    }
}

impl<'a> StorePlan<'a> {
    /// The result of storing the asset: the path of its file, or the error of
    /// the step that failed.
    pub fn outcome(&self, event: StoreEvent) -> (r: Result<CachePath, StoreError>)
        ensures
            match event {
                StoreEvent::Stored => r is Ok && r->Ok_0@ == self.file@,
                StoreEvent::DirFailed(cause) => {
                    &&& r is Err
                    &&& r->Err_0.context@ == dir_context(self.kind)
                    &&& r->Err_0.path@ == self.dir@
                    &&& r->Err_0.cause == cause
                },
                StoreEvent::WriteFailed(cause) => {
                    &&& r is Err
                    &&& r->Err_0.context@ == write_context(self.kind)
                    &&& r->Err_0.path@ == self.file@
                    &&& r->Err_0.cause == cause
                },
            },
            event is DirFailed ==> r->Err_0.context@ == match self.kind {
                AssetKind::Weights => "Failed to create weights directory"@,
                _ => "Failed to create model directory"@,
            },
            event is WriteFailed ==> r->Err_0.context@ == match self.kind {
                AssetKind::Config => "Failed to write config to"@,
                AssetKind::Tokenizer => "Failed to write tokenizer to"@,
                AssetKind::Weights => "Failed to write weight shard to"@,
            },
    {
        match event {
            StoreEvent::Stored => Ok(self.file.duplicate()),
            StoreEvent::DirFailed(cause) => {
                let context = match self.kind {
                    AssetKind::Config => "Failed to create model directory",
                    AssetKind::Tokenizer => "Failed to create model directory",
                    AssetKind::Weights => "Failed to create weights directory",
                };
                Err(StoreError { context: context.to_owned(), path: self.dir.duplicate(), cause })
            },
            StoreEvent::WriteFailed(cause) => {
                let context = match self.kind {
                    AssetKind::Config => "Failed to write config to",
                    AssetKind::Tokenizer => "Failed to write tokenizer to",
                    AssetKind::Weights => "Failed to write weight shard to",
                };
                Err(StoreError { context: context.to_owned(), path: self.file.duplicate(), cause })
            },
        }
    }
}

/// What has to be done to clear the cache of a model.
#[derive(Debug)]
pub struct ClearPlan {
    /// The directory to be removed, with all that is in it
    pub dir: CachePath,
    /// What was tried, should the removal fail
    pub context: String,
}

/// An entry of a model's directory.
#[derive(Debug)]
pub enum CacheEntry {
    /// A file, with its size or the reason why that could not be read
    File(Result<u64, String>),
    /// A directory, with its entries or the reason why they could not be read
    Dir(Result<Vec<Result<SubEntry, String>>, String>),
    /// Neither
    Other,
}

/// An entry of a directory inside a model's directory.
#[derive(Debug)]
pub enum SubEntry {
    /// A file, with its size or the reason why that could not be read
    File(Result<u64, String>),
    /// No file
    Other,
}

/// Why something about a model's cache cannot be told.
#[derive(Debug)]
pub enum CacheError {
    /// The model has no weights directory
    WeightsMissing(CachePath),
    /// The directory of the model could not be listed
    ListFailed { context: String, cause: String },
    /// An entry could not be read
    ReadFailed(String),
}

/// What is wrong, in words, without the place of a missing directory and
/// without the cause of a failed listing.
pub open spec fn cache_error_text(e: CacheError) -> Seq<char> {
    match e {
        CacheError::WeightsMissing(_) => "Weights directory does not exist"@,
        CacheError::ListFailed { context, cause } => context@,
        CacheError::ReadFailed(cause) => cause@,
    }
}

impl CacheError {
    /// What is wrong, in words. The place of a missing directory and the cause
    /// of a failed listing, which the error holds, are not part of it.
    pub fn message(&self) -> (r: String)
        ensures
            r@ == cache_error_text(*self),
            match *self {
                CacheError::WeightsMissing(_) => r@ == "Weights directory does not exist"@,
                CacheError::ListFailed { context, cause } => r@ == context@,
                CacheError::ReadFailed(cause) => r@ == cause@,
            },
    {
        match self {
            CacheError::WeightsMissing(_) => "Weights directory does not exist".to_owned(),
            CacheError::ListFailed { context, cause: _ } => context.clone(),
            CacheError::ReadFailed(cause) => cause.clone(),
        }
    }
}

/// How far a walk over directory entries came: the sizes of the files up to
/// the first failure, and that failure.
#[verifier::ext_equal]
pub struct Walk {
    pub size: nat,
    pub failure: Option<Seq<char>>,
}

/// The walk goes on with one more entry of an inner directory.
pub open spec fn sub_step(w: Walk, entry: Result<SubEntry, String>) -> Walk {
    if w.failure is Some {
        w
    } else {
        match entry {
            Err(cause) => Walk { failure: Some(cause@), ..w },
            Ok(SubEntry::File(Ok(n))) => Walk { size: w.size + n as nat, ..w },
            Ok(SubEntry::File(Err(cause))) => Walk { failure: Some(cause@), ..w },
            Ok(SubEntry::Other) => w,
        }
    }
}

/// The walk over the entries of an inner directory.
pub open spec fn sub_walk(entries: Seq<Result<SubEntry, String>>) -> Walk
    decreases entries.len(),
{
    if entries.len() == 0 {
        Walk { size: 0, failure: None }
    } else {
        sub_step(sub_walk(entries.drop_last()), entries.last())
    }
}

/// The walk goes on with one more entry of the model's directory.
pub open spec fn cache_step(w: Walk, entry: Result<CacheEntry, String>) -> Walk {
    if w.failure is Some {
        w
    } else {
        match entry {
            Err(cause) => Walk { failure: Some(cause@), ..w },
            Ok(CacheEntry::File(Ok(n))) => Walk { size: w.size + n as nat, ..w },
            Ok(CacheEntry::File(Err(cause))) => Walk { failure: Some(cause@), ..w },
            Ok(CacheEntry::Dir(Ok(entries))) => {
                let inner = sub_walk(entries@);
                Walk { size: w.size + inner.size, failure: inner.failure }
            },
            Ok(CacheEntry::Dir(Err(cause))) => Walk { failure: Some(cause@), ..w },
            Ok(CacheEntry::Other) => w,
        }
    }
}

/// The walk over the entries of the model's directory.
pub open spec fn cache_walk(entries: Seq<Result<CacheEntry, String>>) -> Walk
    decreases entries.len(),
{
    if entries.len() == 0 {
        Walk { size: 0, failure: None }
    } else {
        cache_step(cache_walk(entries.drop_last()), entries.last())
    }
}

/// A longer walk over an inner directory has seen at least as much.
proof fn lemma_sub_walk_grows(entries: Seq<Result<SubEntry, String>>, k: int)
    requires
        0 <= k <= entries.len(),
    ensures
        sub_walk(entries.take(k)).size <= sub_walk(entries).size,
    decreases entries.len(),
{
    if k == entries.len() {
        assert(entries.take(k) =~= entries);
    } else {
        lemma_sub_walk_grows(entries.drop_last(), k);
        assert(entries.drop_last().take(k) =~= entries.take(k));
    }
}

/// A longer walk has seen at least as much.
proof fn lemma_cache_walk_grows(entries: Seq<Result<CacheEntry, String>>, k: int)
    requires
        0 <= k <= entries.len(),
    ensures
        cache_walk(entries.take(k)).size <= cache_walk(entries).size,
    decreases entries.len(),
{
    if k == entries.len() {
        assert(entries.take(k) =~= entries);
    } else {
        lemma_cache_walk_grows(entries.drop_last(), k);
        assert(entries.drop_last().take(k) =~= entries.take(k));
    }
}

/// A walk that has failed stays as it is.
proof fn lemma_sub_walk_stops(entries: Seq<Result<SubEntry, String>>, k: int)
    requires
        0 <= k <= entries.len(),
        sub_walk(entries.take(k)).failure is Some,
    ensures
        sub_walk(entries) == sub_walk(entries.take(k)),
    decreases entries.len(),
{
    if k == entries.len() {
        assert(entries.take(k) =~= entries);
    } else {
        assert(entries.drop_last().take(k) =~= entries.take(k));
        lemma_sub_walk_stops(entries.drop_last(), k);
    }
}

/// A walk that has failed stays as it is.
proof fn lemma_cache_walk_stops(entries: Seq<Result<CacheEntry, String>>, k: int)
    requires
        0 <= k <= entries.len(),
        cache_walk(entries.take(k)).failure is Some,
    ensures
        cache_walk(entries) == cache_walk(entries.take(k)),
    decreases entries.len(),
{
    if k == entries.len() {
        assert(entries.take(k) =~= entries);
    } else {
        assert(entries.drop_last().take(k) =~= entries.take(k));
        lemma_cache_walk_stops(entries.drop_last(), k);
    }
}

/// Walks over an inner directory; `None` where the sizes do not fit.
fn walk_inner(entries: &Vec<Result<SubEntry, String>>) -> (r: Option<(u64, Option<String>)>)
    ensures
        match r {
            Some((size, failure)) => {
                &&& sub_walk(entries@).size == size
                &&& sub_walk(entries@).failure == crate::trace::text_of(failure)
            },
            None => sub_walk(entries@).size > u64::MAX,
        },
{
    let mut total: u64 = 0;
    for i in 0..entries.len()
        invariant
            i <= entries@.len(),
            sub_walk(entries@.take(i as int)) == (Walk { size: total as nat, failure: None }),
    {
        let ghost longer = entries@.take(i + 1);
        proof {
            assert(longer.drop_last() =~= entries@.take(i as int));
            assert(longer.last() == entries@[i as int]);
        }
        match &entries[i] {
            Ok(SubEntry::File(Ok(n))) => {
                match total.checked_add(*n) {
                    Some(sum) => {
                        total = sum;
                    },
                    None => {
                        proof {
                            lemma_sub_walk_grows(entries@, i + 1);
                        }
                        return None;
                    },
                }
            },
            Ok(SubEntry::File(Err(cause))) => {
                proof {
                    lemma_sub_walk_stops(entries@, i + 1);
                }
                return Some((total, Some(cause.clone())));
            },
            Ok(SubEntry::Other) => {},
            Err(cause) => {
                proof {
                    lemma_sub_walk_stops(entries@, i + 1);
                }
                return Some((total, Some(cause.clone())));
            },
        }
    }
    assert(entries@.take(entries@.len() as int) =~= entries@);
    Some((total, None))
}

/// Walks over a model's directory; `None` where the sizes do not fit.
fn walk_cache(entries: &Vec<Result<CacheEntry, String>>) -> (r: Option<(u64, Option<String>)>)
    ensures
        match r {
            Some((size, failure)) => {
                &&& cache_walk(entries@).size == size
                &&& cache_walk(entries@).failure == crate::trace::text_of(failure)
            },
            None => cache_walk(entries@).size > u64::MAX,
        },
{
    let mut total: u64 = 0;
    for i in 0..entries.len()
        invariant
            i <= entries@.len(),
            cache_walk(entries@.take(i as int)) == (Walk { size: total as nat, failure: None }),
    {
        let ghost longer = entries@.take(i + 1);
        proof {
            assert(longer.drop_last() =~= entries@.take(i as int));
            assert(longer.last() == entries@[i as int]);
        }
        match &entries[i] {
            Ok(CacheEntry::File(Ok(n))) => {
                match total.checked_add(*n) {
                    Some(sum) => {
                        total = sum;
                    },
                    None => {
                        proof {
                            lemma_cache_walk_grows(entries@, i + 1);
                        }
                        return None;
                    },
                }
            },
            Ok(CacheEntry::File(Err(cause))) => {
                proof {
                    lemma_cache_walk_stops(entries@, i + 1);
                }
                return Some((total, Some(cause.clone())));
            },
            Ok(CacheEntry::Dir(Ok(inner))) => {
                let (size, failure) = match walk_inner(inner) {
                    Some(found) => found,
                    None => {
                        proof {
                            lemma_cache_walk_grows(entries@, i + 1);
                        }
                        return None;
                    },
                };
                match total.checked_add(size) {
                    Some(sum) => {
                        total = sum;
                    },
                    None => {
                        proof {
                            lemma_cache_walk_grows(entries@, i + 1);
                        }
                        return None;
                    },
                }
                if failure.is_some() {
                    proof {
                        lemma_cache_walk_stops(entries@, i + 1);
                    }
                    return Some((total, failure));
                }
            },
            Ok(CacheEntry::Dir(Err(cause))) => {
                proof {
                    lemma_cache_walk_stops(entries@, i + 1);
                }
                return Some((total, Some(cause.clone())));
            },
            Ok(CacheEntry::Other) => {},
            Err(cause) => {
                proof {
                    lemma_cache_walk_stops(entries@, i + 1);
                }
                return Some((total, Some(cause.clone())));
            },
        }
    }
    assert(entries@.take(entries@.len() as int) =~= entries@);
    Some((total, None))
}

/// The listing of a model's directory: `None` where there is no such
/// directory, the reason where it could not be listed, else its entries.
pub type Listing = Option<Result<Vec<Result<CacheEntry, String>>, String>>;

/// The walk over a listing; there is nothing to walk over where there is no
/// directory.
pub open spec fn listing_walk(listing: Listing) -> Walk {
    match listing {
        None => Walk { size: 0, failure: None },
        Some(Err(reason)) => Walk { size: 0, failure: Some(reason@) },
        Some(Ok(entries)) => cache_walk(entries@),
    }
}

/// Whether 64 bits can hold the size that a listing adds up to.
pub open spec fn size_fits(listing: Listing) -> bool {
    listing_walk(listing).size <= u64::MAX
}

/// Loader for model weights from various sources
///
/// It says where the assets of a model are stored below the cache directory,
/// and reads from what is there whether the model is cached.
#[derive(Debug, Clone)]
pub struct WeightLoader<P> {
    /// Local cache directory for weights
    pub cache_dir: P,
    /// Remote storage base URL (optional)
    pub remote_base_url: Option<String>,
}

impl<P> WeightLoader<P> {
    /// Create a new WeightLoader
    pub fn new(cache_dir: P, remote_base_url: Option<String>) -> (r: Self)
        ensures
            r.cache_dir == cache_dir,
            r.remote_base_url == remote_base_url,
    {
        WeightLoader { cache_dir, remote_base_url }
    }

    /// Get the model directory for a specific model
    pub fn model_dir(&self, model_name: &str) -> (r: CachePath)
        ensures
            r@ == model_dir_of(model_name@),
            r@ == seq![model_name@],
    {
        CachePath::top(model_name)
    }

    /// Get the weights directory for a specific model
    pub fn weights_dir(&self, model_name: &str) -> (r: CachePath)
        ensures
            r@ == weights_dir_of(model_name@),
            r@ == seq![model_name@, "weights"@],
    {
        let r = self.model_dir(model_name).join("weights");
        assert(r@ =~= weights_dir_of(model_name@));
        r
    }

    /// Get the configuration file of a specific model
    pub fn config_file(&self, model_name: &str) -> (r: CachePath)
        ensures
            r@ == config_file_of(model_name@),
            r@ == seq![model_name@, "config.json"@],
    {
        let r = self.model_dir(model_name).join("config.json");
        assert(r@ =~= config_file_of(model_name@));
        r
    }

    /// Get the tokenizer file of a specific model
    pub fn tokenizer_file(&self, model_name: &str) -> (r: CachePath)
        ensures
            r@ == tokenizer_file_of(model_name@),
            r@ == seq![model_name@, "tokenizer.json"@],
    {
        let r = self.model_dir(model_name).join("tokenizer.json");
        assert(r@ =~= tokenizer_file_of(model_name@));
        r
    }

    /// Get the file of one weight shard of a specific model
    pub fn shard_file(&self, model_name: &str, n: u32) -> (r: CachePath)
        ensures
            r@ == shard_file_of(model_name@, n),
            r@ == seq![model_name@, "weights"@, shard_file(n)],
    {
        let name = shard_file_name(n);
        let r = self.weights_dir(model_name).join(name.as_str());
        assert(r@ =~= shard_file_of(model_name@, n));
        r
    }

    /// Store a model configuration: the data goes, as it is, to the
    /// configuration file of the model.
    pub fn load_config<'a>(&self, model_name: &str, config_data: &'a [u8]) -> (r: StorePlan<'a>)
        ensures
            r.kind == AssetKind::Config,
            r.dir@ == model_dir_of(model_name@),
            r.file@ == config_file_of(model_name@),
            r.dir@ == seq![model_name@],
            r.file@ == seq![model_name@, "config.json"@],
            r.data@ == config_data@,
    {
        StorePlan {
            kind: AssetKind::Config,
            dir: self.model_dir(model_name),
            file: self.config_file(model_name),
            data: config_data,
        }
    }

    /// Store a tokenizer: the data goes, as it is, to the tokenizer file of
    /// the model.
    pub fn load_tokenizer<'a>(&self, model_name: &str, tokenizer_data: &'a [u8]) -> (r: StorePlan<
        'a,
    >)
        ensures
            r.kind == AssetKind::Tokenizer,
            r.dir@ == model_dir_of(model_name@),
            r.file@ == tokenizer_file_of(model_name@),
            r.dir@ == seq![model_name@],
            r.file@ == seq![model_name@, "tokenizer.json"@],
            r.data@ == tokenizer_data@,
    {
        StorePlan {
            kind: AssetKind::Tokenizer,
            dir: self.model_dir(model_name),
            file: self.tokenizer_file(model_name),
            data: tokenizer_data,
        }
    }

    /// Store a weight shard: the data goes, as it is, to the file of the shard
    /// that the index (e.g., "001") names.
    pub fn load_weights<'a>(
        &self,
        model_name: &str,
        shard_index: &str,
        weight_data: &'a [u8],
    ) -> (r: StorePlan<'a>)
        ensures
            r.kind == AssetKind::Weights,
            r.dir@ == weights_dir_of(model_name@),
            r.file@ == shard_file_of(model_name@, shard_number(shard_index@)),
            r.dir@ == seq![model_name@, "weights"@],
            r.file@ == seq![
                model_name@,
                "weights"@,
                shard_file(shard_number(shard_index@)),
            ],
            r.data@ == weight_data@,
    {
        let n: u32 = shard_number_of(shard_index);
        StorePlan {
            kind: AssetKind::Weights,
            dir: self.weights_dir(model_name),
            file: self.shard_file(model_name, n),
            data: weight_data,
        }
    }

    /// Get the weights directory of a model, if it exists
    pub fn get_weights_dir(&self, model_name: &str, disk: &CacheSnapshot) -> (r: Result<
        CachePath,
        CacheError,
    >)
        ensures
            r is Ok <==> disk@.contains(weights_dir_of(model_name@)),
            r is Ok ==> r->Ok_0@ == weights_dir_of(model_name@),
            r is Err ==> r->Err_0 is WeightsMissing && r->Err_0->WeightsMissing_0@
                == weights_dir_of(model_name@),
            r is Ok <==> disk@.contains(seq![model_name@, "weights"@]),
            r is Ok ==> r->Ok_0@ == seq![model_name@, "weights"@],
    {
        let weights_dir = self.weights_dir(model_name);
        if !disk.has(&weights_dir) {
            return Err(CacheError::WeightsMissing(weights_dir));
        }
        Ok(weights_dir)
    }

    /// Check if all model assets are cached
    ///
    /// `expected_shards` is the expected number of weight shards.
    pub fn is_model_cached(
        &self,
        model_name: &str,
        expected_shards: u32,
        disk: &CacheSnapshot,
    ) -> (r: bool)
        ensures
            r == model_is_cached(disk@, model_name@, expected_shards),
            r <==> {
                &&& disk@.contains(seq![model_name@, "config.json"@])
                &&& disk@.contains(seq![model_name@, "tokenizer.json"@])
                &&& forall|n: u32|
                    n < expected_shards ==> disk@.contains(
                        seq![model_name@, "weights"@, #[trigger] shard_file(n)],
                    )
            },
    {
        proof {
            law_cached_means_every_asset_is_there(disk@, model_name@, expected_shards);
        }
        if !disk.has(&self.config_file(model_name)) {
            return false;
        }
        if !disk.has(&self.tokenizer_file(model_name)) {
            return false;
        }
        for i in 0..expected_shards
            invariant
                forall|n: u32|
                    n < i ==> disk@.contains(#[trigger] shard_file_of(model_name@, n)),
        {
            if !disk.has(&self.shard_file(model_name, i)) {
                return false;
            }
        }
        true
    }

    /// Check if a model is already cached: its directory and its configuration
    /// exist.
    pub fn is_cached(&self, model_name: &str, disk: &CacheSnapshot) -> (r: bool)
        ensures
            r == model_is_known(disk@, model_name@),
            r <==> disk@.contains(seq![model_name@]) && disk@.contains(
                seq![model_name@, "config.json"@],
            ),
    {
        disk.has(&self.model_dir(model_name)) && disk.has(&self.config_file(model_name))
    }

    /// Clear cached assets of a specific model: its directory goes, if it
    /// exists.
    pub fn clear_cache(&self, model_name: &str, disk: &CacheSnapshot) -> (r: Option<ClearPlan>)
        ensures
            r is Some <==> disk@.contains(model_dir_of(model_name@)),
            r is Some ==> r->0.dir@ == model_dir_of(model_name@),
            r is Some <==> disk@.contains(seq![model_name@]),
            r is Some ==> r->0.dir@ == seq![model_name@],
            r is Some ==> r->0.context@ == "Failed to clear cache for model: "@ + model_name@,
    {
        let dir = self.model_dir(model_name);
        if disk.has(&dir) {
            let mut context = "Failed to clear cache for model: ".to_owned();
            context.append(model_name);
            Some(ClearPlan { dir, context })
        } else {
            None
        }
    }

    /// Whether 64 bits can hold the size that a listing adds up to.
    pub fn cache_size_fits(listing: &Listing) -> (r: bool)
        ensures
            r == size_fits(*listing),
            match *listing {
                Some(Ok(entries)) => r == (cache_walk(entries@).size <= u64::MAX),
                _ => r,
            },
    {
        match listing {
            Some(Ok(entries)) => walk_cache(entries).is_some(),
            _ => true,
        }
    }

    /// Get the total size of the cached assets of a model, in bytes: of the
    /// files in its directory and in the directories there.
    pub fn cache_size(&self, model_name: &str, listing: &Listing) -> (r: Result<u64, CacheError>)
        requires
            size_fits(*listing),
        ensures
            match listing_walk(*listing).failure {
                None => r is Ok && r->Ok_0 == listing_walk(*listing).size,
                Some(reason) => match r {
                    Ok(_) => false,
                    Err(CacheError::ListFailed { context, cause }) => {
                        &&& *listing matches Some(Err(_))
                        &&& context@ == "Failed to read cache directory for: "@ + model_name@
                        &&& cause@ == reason
                    },
                    Err(CacheError::ReadFailed(cause)) => {
                        &&& *listing matches Some(Ok(_))
                        &&& cause@ == reason
                    },
                    Err(CacheError::WeightsMissing(_)) => false,
                },
            },
            *listing is None ==> r == Ok::<u64, CacheError>(0),
            *listing matches Some(Err(_)) ==> r is Err,
            *listing matches Some(Ok(entries)) ==> {
                &&& r is Ok <==> cache_walk(entries@).failure is None
                &&& r is Ok ==> r->Ok_0 == cache_walk(entries@).size
            },
    {
        match listing {
            None => Ok(0),
            Some(Err(reason)) => {
                let mut context = "Failed to read cache directory for: ".to_owned();
                context.append(model_name);
                Err(CacheError::ListFailed { context, cause: reason.clone() })
            },
            Some(Ok(entries)) => match walk_cache(entries) {
                Some((_, Some(reason))) => Err(CacheError::ReadFailed(reason)),
                Some((size, None)) => Ok(size),
                // not reached: the sizes fit
                None => Ok(0),
            },
        }
    }

    /// Get cache directory path
    pub fn cache_dir(&self) -> (r: &P)
        ensures
            *r == self.cache_dir,
    {
        &self.cache_dir
    }
}

/// A model that is cached with some number of shards is cached with every
/// smaller number, and stays cached when more files appear.
pub proof fn law_cached_model_stays_cached(
    present: Set<Seq<Seq<char>>>,
    later: Set<Seq<Seq<char>>>,
    model: Seq<char>,
    shards: u32,
    fewer: u32,
)
    requires
        model_is_cached(present, model, shards),
        present.subset_of(later),
        fewer <= shards,
    ensures
        model_is_cached(later, model, fewer),
{
}

/// A model counts as cached with a number of shards if and only if its
/// configuration, its tokenizer and every single one of these shards is there.
pub proof fn law_cached_means_every_asset_is_there(
    present: Set<Seq<Seq<char>>>,
    model: Seq<char>,
    shards: u32,
)
    ensures
        model_is_cached(present, model, shards) <==> {
            &&& present.contains(seq![model, "config.json"@])
            &&& present.contains(seq![model, "tokenizer.json"@])
            &&& forall|n: u32|
                n < shards ==> present.contains(
                    seq![model, "weights"@, #[trigger] shard_file(n)],
                )
        },
{
    if model_is_cached(present, model, shards) {
        assert forall|n: u32| n < shards implies present.contains(
            seq![model, "weights"@, #[trigger] shard_file(n)],
        ) by {
            assert(present.contains(shard_file_of(model, n)));
        }
    }
    if forall|n: u32|
        n < shards ==> present.contains(seq![model, "weights"@, #[trigger] shard_file(n)]) {
        assert forall|n: u32| n < shards implies present.contains(
            #[trigger] shard_file_of(model, n),
        ) by {
            assert(present.contains(seq![model, "weights"@, shard_file(n)]));
        }
    }
}

/// One missing asset is enough: without its configuration, without its
/// tokenizer, or without any one of the expected shards, a model is not
/// cached.
pub proof fn law_one_missing_asset_is_enough(
    present: Set<Seq<Seq<char>>>,
    model: Seq<char>,
    shards: u32,
    n: u32,
)
    requires
        !present.contains(seq![model, "config.json"@]) || !present.contains(
            seq![model, "tokenizer.json"@],
        ) || (n < shards && !present.contains(seq![model, "weights"@, shard_file(n)])),
    ensures
        !model_is_cached(present, model, shards),
{
    law_cached_means_every_asset_is_there(present, model, shards);
}

/// The size of a cache is the sum of the sizes of all files in the model's
/// directory and in the directories there; what is neither counts nothing.
pub proof fn law_cache_size_adds_every_file(entries: Seq<Result<CacheEntry, String>>)
    requires
        forall|i: int|
            0 <= i < entries.len() ==> match #[trigger] entries[i] {
                Ok(CacheEntry::File(size)) => size is Ok,
                Ok(CacheEntry::Dir(Ok(inner))) => forall|j: int|
                    0 <= j < inner@.len() ==> match #[trigger] inner@[j] {
                        Ok(SubEntry::File(size)) => size is Ok,
                        Ok(SubEntry::Other) => true,
                        Err(_) => false,
                    },
                Ok(CacheEntry::Dir(Err(_))) => false,
                Ok(CacheEntry::Other) => true,
                Err(_) => false,
            },
    ensures
        cache_walk(entries).failure is None,
        cache_walk(entries).size == entries.fold_left(
            0nat,
            |sum: nat, entry: Result<CacheEntry, String>|
                sum + match entry {
                    Ok(CacheEntry::File(Ok(n))) => n as nat,
                    Ok(CacheEntry::Dir(Ok(inner))) => inner@.fold_left(
                        0nat,
                        |part: nat, e: Result<SubEntry, String>|
                            part + match e {
                                Ok(SubEntry::File(Ok(n))) => n as nat,
                                _ => 0,
                            },
                    ),
                    _ => 0,
                },
        ),
    decreases entries.len(),
{
    if entries.len() > 0 {
        let front = entries.drop_last();
        assert forall|i: int| 0 <= i < front.len() implies #[trigger] front[i] == entries[i] by {}
        law_cache_size_adds_every_file(front);
        assert(entries[entries.len() - 1] == entries.last());
        if let Ok(CacheEntry::Dir(Ok(inner))) = entries.last() {
            lemma_inner_size_adds_every_file(inner@);
        }
    }
}

/// The same of an inner directory.
proof fn lemma_inner_size_adds_every_file(entries: Seq<Result<SubEntry, String>>)
    requires
        forall|j: int|
            0 <= j < entries.len() ==> match #[trigger] entries[j] {
                Ok(SubEntry::File(size)) => size is Ok,
                Ok(SubEntry::Other) => true,
                Err(_) => false,
            },
    ensures
        sub_walk(entries).failure is None,
        sub_walk(entries).size == entries.fold_left(
            0nat,
            |part: nat, e: Result<SubEntry, String>|
                part + match e {
                    Ok(SubEntry::File(Ok(n))) => n as nat,
                    _ => 0,
                },
        ),
    decreases entries.len(),
{
    if entries.len() > 0 {
        let front = entries.drop_last();
        assert forall|i: int| 0 <= i < front.len() implies #[trigger] front[i] == entries[i] by {}
        lemma_inner_size_adds_every_file(front);
        assert(entries[entries.len() - 1] == entries.last());
    }
}

/// The first failure is the one that is told, and nothing behind it counts:
/// where everything before an entry was read and the entry itself fails, its
/// cause is that of the whole.
pub proof fn law_first_failure_is_told(
    before: Seq<Result<CacheEntry, String>>,
    entry: Result<CacheEntry, String>,
    behind: Seq<Result<CacheEntry, String>>,
    cause: String,
)
    requires
        cache_walk(before).failure is None,
        entry == Err::<CacheEntry, String>(cause) || entry == Ok::<CacheEntry, String>(
            CacheEntry::File(Err(cause)),
        ) || entry == Ok::<CacheEntry, String>(CacheEntry::Dir(Err(cause))),
    ensures
        cache_walk(before.push(entry) + behind) == (Walk {
            size: cache_walk(before).size,
            failure: Some(cause@),
        }),
{
    let all = before.push(entry) + behind;
    let k = before.len() + 1;
    assert(all.take(k as int) =~= before.push(entry));
    assert(before.push(entry).drop_last() =~= before);
    lemma_cache_walk_stops(all, k as int);
}

/// A failure inside an inner directory is told like any other: the first one
/// there, if everything before was read.
pub proof fn law_inner_failure_is_told(
    before: Seq<Result<CacheEntry, String>>,
    inner: Vec<Result<SubEntry, String>>,
    at: int,
    behind: Seq<Result<CacheEntry, String>>,
    cause: String,
)
    requires
        cache_walk(before).failure is None,
        0 <= at < inner@.len(),
        sub_walk(inner@.take(at)).failure is None,
        inner@[at] == Err::<SubEntry, String>(cause) || inner@[at] == Ok::<SubEntry, String>(
            SubEntry::File(Err(cause)),
        ),
    ensures
        cache_walk(
            before.push(Ok::<CacheEntry, String>(CacheEntry::Dir(Ok(inner)))) + behind,
        ) == (Walk {
            size: cache_walk(before).size + sub_walk(inner@.take(at)).size,
            failure: Some(cause@),
        }),
{
    let entry = Ok::<CacheEntry, String>(CacheEntry::Dir(Ok(inner)));
    let all = before.push(entry) + behind;
    let k = before.len() + 1;
    assert(inner@.take(at + 1).drop_last() =~= inner@.take(at));
    assert(inner@.take(at + 1).last() == inner@[at]);
    lemma_sub_walk_stops(inner@, at + 1);
    assert(all.take(k as int) =~= before.push(entry));
    assert(before.push(entry).drop_last() =~= before);
    lemma_cache_walk_stops(all, k as int);
}

/// Every asset of a model has its own place, under the model's name as it is
/// spelled.
pub proof fn law_places_have_the_name_of_their_model(model: Seq<char>, n: u32)
    ensures
        model_dir_of(model) == seq![model],
        config_file_of(model) == seq![model, "config.json"@],
        tokenizer_file_of(model) == seq![model, "tokenizer.json"@],
        weights_dir_of(model) == seq![model, "weights"@],
        shard_file_of(model, n) == seq![model, "weights"@, shard_file(n)],
{
}

} // verus!
