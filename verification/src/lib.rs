//! A client-side transform library for robots: it maintains a dynamic directed
//! graph of timestamped rigid-body transforms between named coordinate frames
//! and answers transform queries between arbitrary pairs of frames at
//! arbitrary instants, interpolating between cached samples where needed.
//!
//! The pieces, leaves first:
//!
//! - [`msg`] — times, durations, and stamped transforms; every transform
//!   component is stored as the bit pattern of a 64-bit IEEE-754 number, so
//!   the cache and graph logic can be reasoned about exactly;
//! - [`transforms`] — the rigid-body algebra: inversion, composition,
//!   chaining and interpolation, built on a handful of trusted calls into a
//!   linear-algebra library;
//! - [`frames`] — the per-edge caches: a timed history with interpolation and
//!   bounded retention, a static single-sample cache, and visitors over the
//!   two;
//! - [`chain`] — an alternative per-edge history bounded by a sample count;
//! - [`graph`], [`errors`] — edge keys, error kinds, diagnostics, and the
//!   query traits;
//! - [`buffer`] — the graph of edges with breadth-first path discovery and
//!   the lookup engine that composes a path of per-edge samples into one
//!   transform;
//! - [`utils`] — small helpers around stamped transforms.

pub mod buffer;
pub mod chain;
pub mod errors;
pub mod frames;
pub mod graph;
pub mod msg;
pub mod transforms;
pub mod utils;
