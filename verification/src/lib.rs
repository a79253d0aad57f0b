//! Worker side of a BARM deployment: a worker receives the assets of a model
//! from a coordinator, stores them, loads the model once they are complete, and
//! answers inference requests.
//!
//! The library holds what a worker decides; it opens no session, touches no
//! file and runs no model. Its functions take what has happened and return what
//! has to be done.

pub mod connect;
pub mod disk;
pub mod model_loader;
pub mod paths;
pub mod random;
pub mod reply;
pub mod shard;
pub mod stream;
pub mod sums;
pub mod telemetry;
pub mod text;
pub mod trace;
pub mod weight_loader;
pub mod worker;
pub mod zenoh_client;
