//! A tracing sidecar.
//!
//! Processes are started with lists of strings: their command and their environment
//! ([`exec_vec`], [`clist`], [`matcher`], [`java`]). The environment carries the trace that a
//! process belongs to ([`trace_context`]). A process tells the sidecar of its span
//! ([`span_start`], [`ipc`]) over a channel that carries descriptors too ([`typed`],
//! [`untyped`]). The sidecar puts the spans of a trace together ([`collector`]) and sends them to
//! a backend ([`uploader`]).
//!
//! Descriptors are owned by the cells of a table ([`handle_table`]). A handle names a cell; the
//! table says which descriptor a cell owns, how many handles share it, and which descriptors are to
//! be closed.

// text and bytes
pub mod c_string;
pub mod text;

// commands and environments
pub mod clist;
pub mod dl_path;
pub mod exec_vec;
pub mod java;
pub mod matcher;

// descriptors, and channels that carry them
pub mod frame;
pub mod handle_error;
pub mod handle_table;
pub mod rpc;
pub mod typed;
pub mod untyped;

// traces
pub mod assoc;
pub mod collector;
pub mod id;
pub mod pb;
pub mod span_start;
pub mod trace_context;
pub mod trace_events;
pub mod uploader;

// the agents
pub mod agent;
pub mod ipc;
