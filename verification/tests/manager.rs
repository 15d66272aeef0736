use std::cell::RefCell;
use std::rc::Rc;

use falcon_protocol::buffer::PacketBuffer;
use falcon_protocol::errors::ErrorKind;
use falcon_protocol::manager::{ModuleLoadOutcome, ProtocolPluginManager};
use falcon_protocol::plugin::{FalconPlugin, ScriptedHandler};

fn scripted(name: &str, priority: i32, handled: Vec<i32>, errors: Vec<i32>) -> ScriptedHandler {
    ScriptedHandler::new(String::from(name), priority, handled, errors)
}

fn ready_manager(
    default: ScriptedHandler,
    plugins: Vec<ScriptedHandler>,
) -> ProtocolPluginManager<ScriptedHandler, u32, ()> {
    let mut manager: ProtocolPluginManager<ScriptedHandler, u32, ()> =
        ProtocolPluginManager::new(default);
    let mut handle: u32 = 0;
    for plugin in plugins {
        handle += 1;
        manager
            .load_plugin(format!("plugin-{}", handle), ModuleLoadOutcome::Loaded(handle, plugin))
            .unwrap();
    }
    manager.finish_loading();
    manager
}

#[test]
fn dispatch_chaining() {
    let default = scripted("default", 0, vec![1], vec![]);
    let plugin_p = scripted("P", 1, vec![2], vec![]);
    let manager = ready_manager(default, vec![plugin_p]);
    assert!(manager.is_ready());

    let mut conn = ();
    let mut buf = PacketBuffer::new();
    assert_eq!(manager.process_packet(1, &mut buf, &mut conn), Ok(Some(())));
    assert_eq!(manager.process_packet(2, &mut buf, &mut conn), Ok(Some(())));
    assert_eq!(manager.process_packet(3, &mut buf, &mut conn), Ok(None));
}

#[test]
fn dispatch_error_propagates() {
    let default = scripted("default", 0, vec![1], vec![]);
    let plugin_p = scripted("P", 1, vec![], vec![2]);
    let manager = ready_manager(default, vec![plugin_p]);

    let mut conn = ();
    let mut buf = PacketBuffer::new();
    let r = manager.process_packet(2, &mut buf, &mut conn);
    assert!(matches!(r, Err(ErrorKind::NoMoreBytes)));
    // A handler failure concerns that packet alone; the manager dispatches on.
    assert_eq!(manager.process_packet(1, &mut buf, &mut conn), Ok(Some(())));
}

#[test]
fn load_ordering_by_priority() {
    let default = scripted("default", 0, vec![], vec![]);
    let plugin_a = scripted("A", 5, vec![], vec![]);
    let plugin_b = scripted("B", 1, vec![], vec![]);
    // Discovered A first, B second; B's lower priority dispatches first.
    let manager = ready_manager(default, vec![plugin_a, plugin_b]);
    assert_eq!(manager.plugin_names(), vec![String::from("B"), String::from("A")]);
    assert_eq!(manager.plugin_priorities(), vec![1, 5]);
}

#[test]
fn load_ordering_ties_keep_discovery_order() {
    let default = scripted("default", 0, vec![], vec![]);
    let first = scripted("first", 3, vec![], vec![]);
    let second = scripted("second", 3, vec![], vec![]);
    let third = scripted("third", 1, vec![], vec![]);
    let manager = ready_manager(default, vec![first, second, third]);
    assert_eq!(
        manager.plugin_names(),
        vec![String::from("third"), String::from("first"), String::from("second")]
    );
    assert_eq!(manager.plugin_priorities(), vec![1, 3, 3]);
}

#[test]
fn load_plugin_not_a_library() {
    let default = scripted("default", 0, vec![], vec![]);
    let mut manager: ProtocolPluginManager<ScriptedHandler, u32, ()> =
        ProtocolPluginManager::new(default);
    let r = manager.load_plugin(String::from("./protocols/not_a_lib"), ModuleLoadOutcome::NotALibrary);
    match r {
        Err(ErrorKind::LibraryLoadingError(path, reason)) => {
            assert_eq!(path, "./protocols/not_a_lib");
            assert_eq!(reason, "not recognized as plugin library");
        }
        other => panic!("expected LibraryLoadingError, got {:?}", other),
    }
    assert_eq!(manager.plugin_count(), 0);
    assert_eq!(manager.library_count(), 0);
}

#[test]
fn load_plugin_missing_entry_keeps_handle() {
    let default = scripted("default", 0, vec![], vec![]);
    let mut manager: ProtocolPluginManager<ScriptedHandler, u32, ()> =
        ProtocolPluginManager::new(default);
    let r = manager.load_plugin(String::from("./protocols/no_entry"), ModuleLoadOutcome::MissingEntry(11));
    match r {
        Err(ErrorKind::LibraryLoadingError(path, reason)) => {
            assert_eq!(path, "./protocols/no_entry");
            assert_eq!(reason, "entry symbol not found");
        }
        other => panic!("expected LibraryLoadingError, got {:?}", other),
    }
    // The failed module still consumed a native handle slot.
    assert_eq!(manager.plugin_count(), 0);
    assert_eq!(manager.library_count(), 1);
}

#[test]
fn unload_empties_both_lists() {
    let default = scripted("default", 0, vec![], vec![]);
    let plugin = scripted("P", 1, vec![], vec![]);
    let mut manager = ready_manager(default, vec![plugin]);
    assert_eq!(manager.plugin_count(), 1);
    assert_eq!(manager.library_count(), 1);
    manager.unload();
    assert_eq!(manager.plugin_count(), 0);
    assert_eq!(manager.library_count(), 0);
    assert!(!manager.is_ready());
}

/// A handler that journals every call it receives, so tests can observe
/// dispatch and teardown order across the manager boundary.
struct RecordingPlugin {
    name: String,
    priority: i32,
    handled: Vec<i32>,
    fails: Vec<i32>,
    log: Rc<RefCell<Vec<String>>>,
}

impl RecordingPlugin {
    fn new(name: &str, priority: i32, handled: Vec<i32>, fails: Vec<i32>, log: &Rc<RefCell<Vec<String>>>) -> Self {
        RecordingPlugin { name: String::from(name), priority, handled, fails, log: Rc::clone(log) }
    }
}

impl FalconPlugin<()> for RecordingPlugin {
    // The spec members of the trait carry no runtime behaviour; outside
    // verification they are never called.
    fn spec_name(&self) -> String {
        unreachable!()
    }

    fn spec_priority(&self) -> i32 {
        unreachable!()
    }

    fn spec_loaded(&self) -> bool {
        unreachable!()
    }

    fn spec_process(&self, _packet_id: i32) -> Result<Option<()>, ErrorKind> {
        unreachable!()
    }

    fn name(&self) -> &str {
        &self.name
    }

    fn get_priority(&self) -> i32 {
        self.priority
    }

    fn on_protocol_load(&mut self) {
        self.log.borrow_mut().push(format!("load {}", self.name));
    }

    fn on_protocol_unload(&mut self) {
        self.log.borrow_mut().push(format!("unload {}", self.name));
    }

    fn process_packet(
        &self,
        packet_id: i32,
        _buffer: &mut PacketBuffer,
        _connection: &mut (),
    ) -> Result<Option<()>, ErrorKind> {
        self.log.borrow_mut().push(format!("process {} {}", self.name, packet_id));
        if self.fails.contains(&packet_id) {
            Err(ErrorKind::NoMoreBytes)
        } else if self.handled.contains(&packet_id) {
            Ok(Some(()))
        } else {
            Ok(None)
        }
    }
}

fn count_of(log: &Rc<RefCell<Vec<String>>>, entry: &str) -> usize {
    log.borrow().iter().filter(|e| e.as_str() == entry).count()
}

#[test]
fn every_handler_observes_every_packet() {
    let log: Rc<RefCell<Vec<String>>> = Rc::new(RefCell::new(Vec::new()));
    let default = RecordingPlugin::new("default", 0, vec![1], vec![], &log);
    let p = RecordingPlugin::new("P", 1, vec![2], vec![], &log);
    let q = RecordingPlugin::new("Q", 2, vec![2], vec![], &log);
    let mut manager: ProtocolPluginManager<RecordingPlugin, u32, ()> =
        ProtocolPluginManager::new(default);
    manager.load_plugin(String::from("p"), ModuleLoadOutcome::Loaded(1, p)).unwrap();
    manager.load_plugin(String::from("q"), ModuleLoadOutcome::Loaded(2, q)).unwrap();
    manager.finish_loading();

    let mut conn = ();
    let mut buf = PacketBuffer::new();
    // Handled by P does not skip Q: every handler sees the packet.
    assert_eq!(manager.process_packet(2, &mut buf, &mut conn), Ok(Some(())));
    assert_eq!(count_of(&log, "process default 2"), 1);
    assert_eq!(count_of(&log, "process P 2"), 1);
    assert_eq!(count_of(&log, "process Q 2"), 1);
}

#[test]
fn error_skips_handlers_after_the_failing_one() {
    let log: Rc<RefCell<Vec<String>>> = Rc::new(RefCell::new(Vec::new()));
    let default = RecordingPlugin::new("default", 0, vec![1], vec![], &log);
    let p = RecordingPlugin::new("P", 1, vec![], vec![2], &log);
    let q = RecordingPlugin::new("Q", 2, vec![2], vec![], &log);
    let mut manager: ProtocolPluginManager<RecordingPlugin, u32, ()> =
        ProtocolPluginManager::new(default);
    manager.load_plugin(String::from("p"), ModuleLoadOutcome::Loaded(1, p)).unwrap();
    manager.load_plugin(String::from("q"), ModuleLoadOutcome::Loaded(2, q)).unwrap();
    manager.finish_loading();

    let mut conn = ();
    let mut buf = PacketBuffer::new();
    let r = manager.process_packet(2, &mut buf, &mut conn);
    assert!(matches!(r, Err(ErrorKind::NoMoreBytes)));
    assert_eq!(count_of(&log, "process default 2"), 1);
    assert_eq!(count_of(&log, "process P 2"), 1);
    // Q stands after P in priority order and must not have been invoked.
    assert_eq!(count_of(&log, "process Q 2"), 0);
}

#[test]
fn teardown_runs_each_hook_once() {
    let log: Rc<RefCell<Vec<String>>> = Rc::new(RefCell::new(Vec::new()));
    let default = RecordingPlugin::new("default", 0, vec![], vec![], &log);
    let a = RecordingPlugin::new("A", 5, vec![], vec![], &log);
    let b = RecordingPlugin::new("B", 1, vec![], vec![], &log);
    let mut manager: ProtocolPluginManager<RecordingPlugin, u32, ()> =
        ProtocolPluginManager::new(default);
    manager.load_plugin(String::from("a"), ModuleLoadOutcome::Loaded(1, a)).unwrap();
    manager.load_plugin(String::from("b"), ModuleLoadOutcome::Loaded(2, b)).unwrap();
    manager.finish_loading();

    assert_eq!(count_of(&log, "load A"), 1);
    assert_eq!(count_of(&log, "load B"), 1);

    manager.unload();
    assert_eq!(count_of(&log, "unload A"), 1);
    assert_eq!(count_of(&log, "unload B"), 1);

    // A second teardown finds both lists empty and does nothing.
    manager.unload();
    assert_eq!(count_of(&log, "unload A"), 1);
    assert_eq!(count_of(&log, "unload B"), 1);
    assert_eq!(manager.plugin_count(), 0);
    assert_eq!(manager.library_count(), 0);
}
