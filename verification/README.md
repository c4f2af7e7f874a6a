# sidecar

A tracing sidecar whose logic is verified with Verus.

- `src/` is the library: lists of strings for `execve`, trace contexts in environments, handles
  and the channels that carry them between processes, framing, the collection of spans into
  traces, and what is sent to a backend. It is verified but for the items below.
- `app/` is the rest: sockets, processes, the clock, serialisation and HTTP. It performs what the
  library decides.
- `tests/` runs the library.

A handle does not own a descriptor by itself. It names a cell of a `HandleTable`, and is passed the
table whenever it is used. The table collects the descriptors that are to be closed; whoever holds
the table closes them.

## What is trusted

These items of `src/` are not proved. Their contracts say what is believed of the functions that
they stand for.

| Item | Stands for |
|---|---|
| `text`: `String::push` | the function of std |
| `c_string::from_utf8_lossy`, `replaced_utf8` | `String::from_utf8_lossy` |
| `c_string::string_from_utf8` | `String::from_utf8` |
| `exec_vec::Slots`, `contents` | `smallvec::SmallVec`, and what it holds |
| `exec_vec::slots_new`, `slots_push`, `slots_resize`, `slots_insert`, `slots_as_slice`, `slots_as_mut_slice` | the methods of `SmallVec` |
| `id::hash_str`, `hashed_str` | `str::hash` |
| `id::random_u64` | `rand::thread_rng` and `Rng::gen` |
| `frame::encode_frame`, `decode_frame` | `tokio_util::codec::LengthDelimitedCodec` |
| `rpc::current_context` | `tarpc::context::current` |
| `collector::new_runtime_id` | `uuid::Uuid::new_v4` |
| `uploader::check_header_name` | `hyper::header::HeaderName::from_bytes` |
| `uploader::check_header_value` | `hyper::header::HeaderValue::from_bytes` |
| `uploader::ExHeaderMap`, `ExHeaderValue`, `header_contents` | `hyper::header::HeaderMap` and `HeaderValue`, and what a map holds |
| `uploader::no_headers`, `append_header` | `HeaderMap::new`, `HeaderMap::try_append` |
| `uploader::check_uri`, `is_uri` | `hyper::Uri::try_from` |
