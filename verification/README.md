# barm_worker

The worker side of a BARM deployment. A worker connects to a coordinator over
Zenoh, receives the configuration, the tokenizer and the weight shards of a
model, stores them in a cache directory, loads the model once all of them are
there, and answers inference requests.

- `src/` decides. It opens no session, touches no file and runs no model: its
  functions take what has happened and return what has to be done. Verus
  proves the contract of every function, but for the few that wrap a call into
  another crate: those contracts it believes, and each says in its comment what
  is claimed. Properties that span several functions stand as public proof
  functions named `law_...`.
- `app/` performs what `src/` decides: the session, the files, the engine and
  the telemetry. The engine is anything that implements `engine::Backend`.
- `tests/` runs the library on concrete values.

Floating-point values (temperatures, fractions, sampling rates), the cache
directory and the engine are type parameters of the library, which only hands
them on.
