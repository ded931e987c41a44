//! A signal-timeline engine for a waveform-debugging workstation.
//!
//! The crate owns the shared waveform store and its signal load/unload
//! lifecycle, the compositor that maps a sparse time-indexed change series
//! onto a bounded set of non-overlapping screen-space blocks for an
//! arbitrary zoom and viewport, and the registries of sandboxed decoder
//! and diagram-connector components.  The waveform file parser and the
//! sandbox runtime are external collaborators: the store takes their data
//! as plain values, and component invocation is driven through an explicit
//! step protocol so that every decision the engine makes is verified.

pub mod compositor;
pub mod context;
pub mod connectors;
pub mod decoders;
pub mod errors;
pub mod store;
pub mod timeline;
