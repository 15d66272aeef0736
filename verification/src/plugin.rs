//! The plugin capability contract: the interface every extension module
//! and the default handler implement, and a scripted handler that gives
//! tests and examples a concrete, verified implementation of it.

use vstd::prelude::*;

use crate::buffer::PacketBuffer;
use crate::errors::ErrorKind;

verus! {

/// The capability contract of a protocol handler — the default protocol
/// and every plugin alike. A handler's verdict on a packet is a function
/// of the packet id alone (`spec_process`); which bytes it consumes from
/// the buffer and what it does to the connection are its own affair. The
/// connection type `C` is opaque to the dispatch machinery: it is passed
/// through unmodified and never inspected.
///
/// The lifecycle hooks run exactly once each around the handler's active
/// period: `on_protocol_load` demands a handler not yet loaded,
/// `on_protocol_unload` one currently loaded, so a verified caller can
/// never run either twice in a row.
pub trait FalconPlugin<C>: Sized {
    /// The handler's diagnostic name.
    spec fn spec_name(&self) -> String;

    /// The handler's ordering key; lower sorts earlier.
    spec fn spec_priority(&self) -> i32;

    /// Whether `on_protocol_load` has run and `on_protocol_unload` has not.
    spec fn spec_loaded(&self) -> bool;

    /// The handler's verdict on a packet id: `Ok(Some(()))` handled,
    /// `Ok(None)` not handled, `Err(..)` a failure.
    spec fn spec_process(&self, packet_id: i32) -> Result<Option<()>, ErrorKind>;

    /// Identifier for diagnostics.
    fn name(&self) -> (r: &str)
        ensures
            r@ == self.spec_name()@,
    ;

    /// The ordering key the manager sorts by.
    fn get_priority(&self) -> (r: i32)
        ensures
            r == self.spec_priority(),
    ;

    /// Lifecycle hook: runs once, right after the plugin is constructed.
    /// Loading changes neither the priority nor any verdict.
    fn on_protocol_load(&mut self)
        requires
            !old(self).spec_loaded(),
        ensures
            final(self).spec_loaded(),
            final(self).spec_priority() == old(self).spec_priority(),
            final(self).spec_name() == old(self).spec_name(),
            forall|id: i32| final(self).spec_process(id) == old(self).spec_process(id),
    ;

    /// Lifecycle hook: runs once, when the manager tears the plugin down.
    fn on_protocol_unload(&mut self)
        requires
            old(self).spec_loaded(),
        ensures
            !final(self).spec_loaded(),
    ;

    /// Handles one packet: may read fields from `buffer` and act on
    /// `connection`; the verdict is `spec_process(packet_id)`.
    fn process_packet(&self, packet_id: i32, buffer: &mut PacketBuffer, connection: &mut C) -> (r:
        Result<Option<()>, ErrorKind>)
        requires
            old(buffer).wf(),
        ensures
            final(buffer).wf(),
            r == self.spec_process(packet_id),
    ;
}

/// A handler with scripted verdicts: *handled* for the ids on one list,
/// a failure for the ids on another, *not handled* for the rest. It
/// stands in for a real protocol handler wherever one is needed with a
/// known behaviour — fixtures for tests, and the examples of this crate.
pub struct ScriptedHandler {
    /// Diagnostic name.
    pub name: String,
    /// Ordering key; lower dispatches earlier.
    pub priority: i32,
    /// Ids this handler reports as handled.
    pub handled_ids: Vec<i32>,
    /// Ids this handler fails on. It reports `NoMoreBytes`, as a handler
    /// whose field read ran past the packet's end would.
    pub error_ids: Vec<i32>,
    /// Whether the load hook has run and the unload hook has not yet.
    pub loaded: bool,
}

/// Whether `ids` holds `id`.
fn contains_id(ids: &Vec<i32>, id: i32) -> (r: bool)
    ensures
        r == ids@.contains(id),
{
    let mut i: usize = 0;
    while i < ids.len()
        invariant
            i <= ids@.len(),
            forall|k: int| 0 <= k < i ==> ids@[k] != id,
        decreases ids@.len() - i,
    {
        if ids[i] == id {
            return true;
        }
        i = i + 1;
    }
    false
}

impl ScriptedHandler {
    /// A fresh, not yet loaded handler with the given script.
    pub fn new(name: String, priority: i32, handled_ids: Vec<i32>, error_ids: Vec<i32>) -> (r:
        ScriptedHandler)
        ensures
            r.name@ == name@,
            r.priority == priority,
            r.handled_ids@ == handled_ids@,
            r.error_ids@ == error_ids@,
            !r.loaded,
    {
        ScriptedHandler { name, priority, handled_ids, error_ids, loaded: false }
    }
}

impl<C> FalconPlugin<C> for ScriptedHandler {
    open spec fn spec_name(&self) -> String {
        self.name
    }

    open spec fn spec_priority(&self) -> i32 {
        self.priority
    }

    open spec fn spec_loaded(&self) -> bool {
        self.loaded
    }

    open spec fn spec_process(&self, packet_id: i32) -> Result<Option<()>, ErrorKind> {
        if self.error_ids@.contains(packet_id) {
            Err(ErrorKind::NoMoreBytes)
        } else if self.handled_ids@.contains(packet_id) {
            Ok(Some(()))
        } else {
            Ok(None)
        }
    }

    fn name(&self) -> (r: &str) {
        self.name.as_str()
    }

    fn get_priority(&self) -> (r: i32) {
        self.priority
    }

    fn on_protocol_load(&mut self) {
        self.loaded = true;
    }

    fn on_protocol_unload(&mut self) {
        self.loaded = false;
    }

    fn process_packet(&self, packet_id: i32, buffer: &mut PacketBuffer, connection: &mut C) -> (r:
        Result<Option<()>, ErrorKind>) {
        if contains_id(&self.error_ids, packet_id) {
            Err(ErrorKind::NoMoreBytes)
        } else if contains_id(&self.handled_ids, packet_id) {
            Ok(Some(()))
        } else {
            Ok(None)
        }
    }
}

} // verus!
