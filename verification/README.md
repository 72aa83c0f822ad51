# tensorlane

A server that feeds training runs with batches of speech samples and takes
their metrics, artifacts and checkpoints back, and the client side that hands
the batches to the training processes.

`src/` holds the rules of both sides as a Verus library. It does no input or
output: what happens outside comes in as values, and what is to be done goes
out as values. Every function states its result in its contract, and the
`law_` functions state what holds across functions: that batches are served in
order, that frames read back, that the budget of batches is kept, that a failed
start leaves nothing behind.

| Part | Modules |
| --- | --- |
| Texts, numbers, identifiers | `text`, `wire`, `ids`, `hashing`, `order`, `status` |
| Samples and audio | `symbols`, `sampling`, `audio`, `pcm`, `loader`, `prefetch` |
| Runs | `config`, `run_manager`, `run_state`, `run`, `initialize`, `http`, `grpc`, `shutdown` |
| Results of a run | `metrics`, `uploads` |
| Client | `worker`, `data`, `semaphore`, `ipc`, `pipeline`, `assets`, `artifacts`, `reports`, `checkpoints`, `upload_session` |

Floating-point numbers are carried as their bits, paths as strings and run
identifiers as 128-bit numbers.

A few calls go to other crates: `uuid` for the text of identifiers, `hound` for
wave files, `blake2` and `sha2` for digests, `mime_guess` for media types,
`time` for the range of timestamps, and the length-delimited codec of
`tokio-util` with the buffers of `bytes`. Each stands behind a small function
whose contract is taken as given; its comment says what that contract claims.

`app/` is the program around the library: arguments, sockets, the database, the
object store, the Python module and everything that computes with floats.
`tests/` runs the library on concrete values.
