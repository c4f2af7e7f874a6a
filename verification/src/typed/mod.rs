//! Transfer of descriptors between processes, over handles that know the kind of their object.
pub mod blocking;
pub mod channel;
pub mod handle;
pub mod metadata;
pub mod ownership;
pub mod rpc;
pub mod transfer;
