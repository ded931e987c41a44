use vstd::prelude::*;
use crate::connectors::DiagramConnectorRegistry;
use crate::decoders::DecoderRegistry;
use crate::store::WaveformStore;

verus! {

/// The explicit context every request handler works against: the waveform
/// store and the two component registries.  There are no ambient globals;
/// the context's lifetime bounds the lifetime of everything it owns.  The
/// three parts are independent — a driver may guard each with its own
/// reader/writer discipline — so they are exposed as plain fields.
pub struct EngineContext {
    pub store: WaveformStore,
    pub decoders: DecoderRegistry,
    pub connectors: DiagramConnectorRegistry,
}

impl EngineContext {
    pub open spec fn wf(self) -> bool {
        &&& self.store.wf()
        &&& self.decoders.wf()
        &&& self.connectors.wf()
    }

    /// A fresh context: no waveform open, no components loaded.
    pub fn new() -> (c: EngineContext)
        ensures
            c.wf(),
            c.store.waveform is None,
            c.store.generation == 0,
            c.decoders.model() == Seq::<Seq<char>>::empty(),
            c.connectors.model() == Seq::<Seq<char>>::empty(),
    {
        EngineContext {
            store: WaveformStore::new(),
            decoders: DecoderRegistry::new(),
            connectors: DiagramConnectorRegistry::new(),
        }
    }
}

} // verus!
