use std::cell::RefCell;
use std::rc::Rc;

use nmos_node::node::{EventHandler, Node, NodeBuilder};
use nmos_node::registry::{Candidate, DiscoveryEvent, EventOutcome};
use nmos_node::resource::{Format, Transport};
use nmos_node::tai::TaiTime;

struct Recorder {
    seen: Rc<RefCell<Vec<Option<String>>>>,
}

impl EventHandler for Recorder {
    fn registry_changed(&self, active: Option<&Candidate>) {
        self.seen.borrow_mut().push(active.map(|c| c.name.clone()));
    }
}

#[test]
fn build_populates_the_model() {
    let node: Node<Recorder> = NodeBuilder::new().build();
    let m = node.resources();
    assert_eq!(m.nodes().len(), 1);
    assert_eq!(m.devices().len(), 1);
    assert_eq!(m.receivers().len(), 1);
    assert!(m.senders().is_empty());
    assert_eq!(m.nodes()[0].label, "Test");
    assert_eq!(m.devices()[0].type_, "devicetype");
    assert_eq!(m.devices()[0].node_id, m.nodes()[0].id);
    assert_eq!(m.nodes()[0].devices, vec![m.devices()[0].id]);
    assert_eq!(m.devices()[0].receivers, vec![m.receivers()[0].id]);
    assert_eq!(m.receivers()[0].format, Format::Video);
    assert_eq!(m.receivers()[0].transport, Transport::RtpMulticast);
}

#[test]
fn handler_hears_of_selection_changes() {
    let seen = Rc::new(RefCell::new(Vec::new()));
    let handler = Recorder { seen: seen.clone() };
    let mut node = Node::builder().event_handler(handler).build();
    let now = TaiTime::new(1, 0).unwrap();
    let ev = DiscoveryEvent::Resolved {
        name: "reg".to_string(),
        host: "h".to_string(),
        port: 3210,
        txt: vec![("pri".to_string(), "1".to_string()), ("api_ver".to_string(), "v1.1".to_string())],
    };
    assert_eq!(node.handle_discovery(ev, now), EventOutcome::ActiveChanged);
    assert_eq!(
        node.handle_discovery(DiscoveryEvent::Lost("reg".to_string()), now),
        EventOutcome::ActiveChanged
    );
    assert!(node.registries().candidates().is_empty());
    assert_eq!(*seen.borrow(), vec![Some("reg".to_string()), None]);
    let (model, _, discovery) = node.into_parts();
    assert_eq!(model.nodes().len(), 1);
    assert!(discovery.registries().candidates().is_empty());
}
