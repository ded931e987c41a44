use vstd::prelude::*;

verus! {

/// Every failure the engine reports.
#[derive(Debug)]
pub enum CoreError {
    /// An operation needed an open waveform and none is open.
    NoWaveformLoaded,
    /// The waveform was replaced while the request was in flight; the
    /// request's signal references belong to the previous waveform and
    /// must be discarded.
    WaveformReplaced,
    /// `get_signal` was called before `load_signal`, or the signal
    /// reference is unknown to the open waveform.
    SignalNotLoaded,
    /// The viewport cannot be mapped to a time range (zero zoom or zero
    /// width).  Rendering reports this as an empty timeline instead.
    InvalidViewport,
    /// The backend could not parse or deliver waveform data.
    LoadFailure,
    /// A component source was rejected by the sandbox; during a batch
    /// add the item is skipped and only the returned count reflects it.
    ComponentLoadFailure,
    /// A sandboxed component trapped while it was invoked; `index` is its
    /// position in the chain and `cause` the sandbox's report.
    ComponentInvocationTrap { index: usize, cause: String },
    /// No diagram connector of the given name is registered.
    ConnectorNotFound,
}

} // verus!
