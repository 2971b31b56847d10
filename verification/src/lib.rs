//! Key material for a universal, pairing-based proof system: the per-circuit
//! proving and verifying keys, how they are built from a constraint system
//! and a structured reference string, and their byte-exact wire form.
//!
//! - [`circuit`]: the constraint system and the sizes that follow from it.
//! - [`srs`]: the universal parameters, the committer key trimmed from
//!   them, and the committer key's native byte form.
//! - [`randomness`]: the sources of blinding scalars.
//! - [`indexer`]: from circuit and parameters to the two keys.
//! - [`keys`]: the keys and what makes them valid.
//! - [`codec`] and [`codec_laws`]: the byte form of the keys, and what
//!   holds of it.
//! - [`elements`], [`wire`], [`encoding`]: scalars, points and numbers on
//!   the wire.
//! - [`curve`]: the boundary to the curve library.
//! - [`conversion`]: the rules of the instructions that make a value from
//!   bytes.
//! - [`metrics`]: an explicit collector of counters and timers.

pub mod circuit;
pub mod codec;
pub mod codec_laws;
pub mod conversion;
pub mod curve;
pub mod elements;
pub mod encoding;
pub mod indexer;
pub mod keys;
pub mod metrics;
pub mod randomness;
pub mod srs;
pub mod wire;
