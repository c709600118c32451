//! A temporal synchronization and compositing engine for independently
//! arriving video streams.
//!
//! Each input stream delivers discrete timestamped frames; the compositor
//! buffers them per stream, decides for every output tick which frame of each
//! stream (if any) is drawn, orders the streams back to front by their `z`
//! key, applies a per-stream chain of geometric transformations, and manages
//! the stream lifecycle (attach, reconfigure, detach, end-of-stream
//! draining). The GPU work itself — texture upload, shader dispatch, surface
//! readback — is an external collaborator and is driven by the embedding
//! application from the draw plan this library produces.

pub mod compositor;
pub mod errors;
pub mod registry;
pub mod framebuffers;
pub mod math;
pub mod texture_transformations;
pub mod videos;
