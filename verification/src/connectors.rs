use vstd::prelude::*;
use crate::decoders::{spec_add_key, spec_has_key, spec_keys_unique};
use crate::errors::CoreError;

verus! {

/// A component-scoped text-change event exchanged with a diagram
/// connector.  The component identifiers are routing keys passed through,
/// never stored.
#[derive(Debug, Clone)]
pub enum DiagramConnectorMessage {
    ListenForComponentTextChanges { diagram_connector_name: String, component_id: String },
    SetComponentText { component_id: String, text: String },
}

/// The named collection of sandboxed diagram-connector components.  Names
/// are unique; the registry routes events to them and keeps no state about
/// the components they address.
pub struct DiagramConnectorRegistry {
    pub names: Vec<String>,
}

impl DiagramConnectorRegistry {
    /// The registry's abstract content: its connector names, in load
    /// order.
    pub open spec fn model(self) -> Seq<Seq<char>> {
        self.names@.map_values(|n: String| n@)
    }

    pub open spec fn wf(self) -> bool {
        spec_keys_unique(self.model())
    }

    /// An empty registry.
    pub fn new() -> (r: DiagramConnectorRegistry)
        ensures
            r.model() == Seq::<Seq<char>>::empty(),
            r.wf(),
    {
        let r = DiagramConnectorRegistry { names: Vec::new() };
        proof {
            assert(r.model() =~= Seq::<Seq<char>>::empty());
        }
        r
    }

    /// How many connectors are loaded.
    pub fn count(&self) -> (n: usize)
        ensures
            n == self.model().len(),
    {
        self.names.len()
    }

    /// Whether a connector of this name is loaded.
    pub fn contains_name(&self, name: &String) -> (b: bool)
        ensures
            b == spec_has_key(self.model(), name@),
    {
        let mut i: usize = 0;
        while i < self.names.len()
            invariant
                i <= self.names@.len(),
                forall|a: int| 0 <= a < i ==> self.names@[a]@ != name@,
            decreases self.names@.len() - i,
        {
            if self.names[i].eq(name) {
                proof {
                    assert(self.model()[i as int] == name@);
                }
                return true;
            }
            i = i + 1;
        }
        proof {
            assert forall|a: int| 0 <= a < self.model().len() implies self.model()[a]
                != name@ by {
                assert(self.model()[a] == self.names@[a]@);
            }
        }
        false
    }

    /// One step of a batch add, keyed by the component's name: a
    /// component whose load failed or whose name is already registered is
    /// skipped (not an error), any other is appended.  A batch's result is
    /// the count of adds that returned true.
    pub fn add_connector(&mut self, name: String, load_succeeded: bool) -> (added: bool)
        requires
            old(self).wf(),
        ensures
            final(self).wf(),
            added == (load_succeeded && !spec_has_key(old(self).model(), name@)),
            final(self).model() == spec_add_key(old(self).model(), name@, load_succeeded),
    {
        if !load_succeeded {
            return false;
        }
        if self.contains_name(&name) {
            return false;
        }
        proof {
            let m = self.model();
            assert forall|i: int, j: int|
                0 <= i < j < m.push(name@).len() implies m.push(name@)[i] != m.push(
                name@,
            )[j] by {
                if j < m.len() {
                } else {
                    assert(m.push(name@)[j] == name@);
                    assert(m.push(name@)[i] == m[i]);
                    assert(!spec_has_key(m, name@));
                }
            }
        }
        let ghost before = self.model();
        self.names.push(name);
        proof {
            assert(self.model() =~= before.push(self.names@.last()@));
        }
        true
    }

    /// Evicts every loaded connector and reports how many there were.
    pub fn remove_all(&mut self) -> (n: usize)
        ensures
            n == old(self).model().len(),
            final(self).model() == Seq::<Seq<char>>::empty(),
            final(self).wf(),
    {
        let n = self.names.len();
        self.names = Vec::new();
        proof {
            assert(self.model() =~= Seq::<Seq<char>>::empty());
        }
        n
    }

    /// Routes a text-change notification.  If a connector of the given
    /// name is loaded, the result names its position in the registry and
    /// the message to deliver to it — fire-and-forget: the connector
    /// updates its own component, the registry tracks nothing.  An
    /// unknown name is refused with `ConnectorNotFound`.
    pub fn route_text_change(
        &self,
        connector_name: &String,
        component_id: String,
        text: String,
    ) -> (r: Result<(usize, DiagramConnectorMessage), CoreError>)
        ensures
            match r {
                Ok(p) => {
                    &&& 0 <= p.0 < self.model().len()
                    &&& self.model()[p.0 as int] == connector_name@
                    &&& p.1 matches DiagramConnectorMessage::SetComponentText {
                        component_id: c,
                        text: t,
                    } && c@ == component_id@ && t@ == text@
                },
                Err(e) => {
                    &&& e is ConnectorNotFound
                    &&& !spec_has_key(self.model(), connector_name@)
                },
            },
    {
        let mut i: usize = 0;
        while i < self.names.len()
            invariant
                i <= self.names@.len(),
                forall|a: int| 0 <= a < i ==> self.names@[a]@ != connector_name@,
            decreases self.names@.len() - i,
        {
            if self.names[i].eq(connector_name) {
                proof {
                    assert(self.model()[i as int] == connector_name@);
                }
                return Ok((i, DiagramConnectorMessage::SetComponentText { component_id, text }));
            }
            i = i + 1;
        }
        proof {
            assert forall|a: int| 0 <= a < self.model().len() implies self.model()[a]
                != connector_name@ by {
                assert(self.model()[a] == self.names@[a]@);
            }
        }
        Err(CoreError::ConnectorNotFound)
    }
}

} // verus!
