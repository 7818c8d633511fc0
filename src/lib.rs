//! Self-sovereign identity core: signed hash chains of identity cards,
//! per-topic registries, anchors and profile streams.

pub mod anchor;
pub mod codec;
pub mod crypto;
pub mod error;
pub mod groups;
pub mod identity;
pub mod stream;
