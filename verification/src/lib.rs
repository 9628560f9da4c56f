//! A producer-side encoder for batched tree-mutation commands.
//!
//! A sequence of mutation operations (create node, set attribute, move
//! cursor, clone subtree, ...) is turned into a compact binary instruction
//! stream plus a separate text stream, for a remote interpreter that
//! applies the mutations to a live document tree. Tags are packed four to
//! a four-byte group with up to three boolean flags in the top bits of
//! each tag byte; text payloads travel out of line, length-prefixed.
//!
//! The wire format is specified as a mathematical state machine, every
//! encoding method is proved to produce exactly that machine's bytes, and
//! a reference decoder is proved to read every finalized stream back to
//! the encoded operations.

mod batch;
mod channel;
pub mod decode;
pub mod element;
mod ids;
pub mod roundtrip;
pub mod wire;
mod writable;

pub use batch::Batch;
pub use batch::FinalizedBatch;
pub use channel::BufferAddrs;
pub use channel::ChannelError;
pub use channel::ChannelRegistry;
pub use channel::MetaUpdate;
pub use channel::MsgChannel;
pub use decode::decode_streams;
pub use decode::Operation;
pub use element::AttrName;
pub use element::ElementBuilder;
pub use element::TagName;
pub use ids::MaybeId;
pub use ids::NodeId;
pub use wire::OpView;
pub use writable::WritableText;
