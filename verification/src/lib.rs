//! Password-sealed single-file containers.
//!
//! A container is `salt ‖ base nonce ‖ sealed stream`. The sealed stream is a
//! chain of ChaCha20-Poly1305 frames in the STREAM construction: every frame
//! carries at most [`frame::CHUNK_SIZE`] bytes of plaintext and a 16-byte tag,
//! frames are numbered from zero, and only the closing frame has the
//! last-frame flag set. The plaintext under the seal is a length-prefixed
//! header followed by the compressed payload.

pub mod compress;
pub mod container;
pub mod error;
pub mod frame;
pub mod head;
pub mod header;
pub mod kdf;
pub mod reader;
pub mod stream;
pub mod wipe;
pub mod writer;
