use nmos_node::model::{Model, ModelError};
use nmos_node::resource::{Device, Format, Node, NodeBuilder, Receiver, Sender, Transport};
use nmos_node::tai::{TaiTime, TimeSource};

fn populated() -> (Model, u128, u128, u128, u128) {
    let mut clock = TimeSource::new();
    let mut m = Model::new();
    let node = NodeBuilder::new("node".to_string()).build(&mut clock);
    let device = Device::builder(&node, "generic".to_string()).label("dev".to_string()).build(&mut clock);
    let sender = Sender::builder(&device, 7, Transport::Rtp).build(&mut clock);
    let receiver = Receiver::builder(&device, Format::Audio, Transport::RtpUnicast).build(&mut clock);
    let ids = (node.id, device.id, sender.id, receiver.id);
    m.insert_node(node).unwrap();
    m.insert_device(device).unwrap();
    m.insert_sender(sender).unwrap();
    m.insert_receiver(receiver).unwrap();
    (m, ids.0, ids.1, ids.2, ids.3)
}

#[test]
fn builders_fill_fields_and_default_label() {
    let mut clock = TimeSource::new();
    let node = Node::builder("n".to_string()).build(&mut clock);
    assert_eq!(node.label, "n");
    let device = Device::builder(&node, "t".to_string()).build(&mut clock);
    assert_eq!(device.label, "");
    assert_eq!(device.type_, "t");
    assert_eq!(device.node_id, node.id);
    assert!(device.senders.is_empty() && device.receivers.is_empty());
    assert!(device.version.nanoseconds < 1_000_000_000);
    let receiver = Receiver::builder(&device, Format::Video, Transport::RtpMulticast)
        .label("rx".to_string())
        .build(&mut clock);
    assert_eq!(receiver.label, "rx");
    assert_eq!(receiver.device_id, device.id);
    assert_eq!(receiver.format, Format::Video);
    assert_eq!(receiver.transport, Transport::RtpMulticast);
}

#[test]
fn repeated_builds_give_distinct_identifiers() {
    let mut clock = TimeSource::new();
    let node = Node::builder("n".to_string()).build(&mut clock);
    let mut ids: Vec<u128> = (0..1000)
        .map(|_| Device::builder(&node, "t".to_string()).build(&mut clock).id)
        .collect();
    ids.push(node.id);
    let n = ids.len();
    ids.sort();
    ids.dedup();
    assert_eq!(ids.len(), n);
    let v = uuid::Uuid::from_u128(node.id);
    assert_eq!(v.get_version_num(), 4);
}

#[test]
fn insert_lists_children_on_their_device() {
    let (m, node_id, device_id, sender_id, receiver_id) = populated();
    let d = m.get_device(device_id).unwrap();
    assert_eq!(d.node_id, node_id);
    assert_eq!(d.senders, vec![sender_id]);
    assert_eq!(d.receivers, vec![receiver_id]);
    assert_eq!(m.get_sender(sender_id).unwrap().device_id, device_id);
    assert_eq!(m.get_receiver(receiver_id).unwrap().device_id, device_id);
    assert_eq!(m.get_node(node_id).unwrap().label, "node");
    assert_eq!(m.devices()[0].label, "dev");
}

#[test]
fn insert_with_missing_parent_is_refused() {
    let mut clock = TimeSource::new();
    let mut m = Model::new();
    let node = NodeBuilder::new("n".to_string()).build(&mut clock);
    let device = Device::builder(&node, "t".to_string()).build(&mut clock);
    let sender = Sender::builder(&device, 1, Transport::Rtp).build(&mut clock);
    assert_eq!(m.insert_device(device), Err(ModelError::Constraint));
    assert_eq!(m.insert_sender(sender), Err(ModelError::Constraint));
    assert!(m.devices().is_empty() && m.senders().is_empty());
}

#[test]
fn insert_with_taken_identifier_is_refused() {
    let (mut m, node_id, _, _, _) = populated();
    let again = Node {
        id: node_id,
        version: TaiTime::new(0, 0).unwrap(),
        label: String::new(),
        devices: Vec::new(),
    };
    assert_eq!(m.insert_node(again), Err(ModelError::Constraint));
    assert_eq!(m.nodes().len(), 1);
}

#[test]
fn lookups_of_unknown_identifiers() {
    let (mut m, _, _, _, _) = populated();
    assert!(m.get_node(1).is_none());
    assert!(m.get_device(1).is_none());
    assert_eq!(m.remove_sender(1), Err(ModelError::NotFound));
    assert_eq!(m.remove_device(1, true), Err(ModelError::NotFound));
    assert_eq!(m.remove_node(1, true), Err(ModelError::NotFound));
    assert_eq!(
        m.relabel_device(1, "x".to_string(), TaiTime::now()),
        Err(ModelError::NotFound)
    );
}

#[test]
fn removing_parents_with_children() {
    let (mut m, node_id, device_id, sender_id, receiver_id) = populated();
    assert_eq!(m.remove_node(node_id, false), Err(ModelError::Constraint));
    assert_eq!(m.remove_device(device_id, false), Err(ModelError::Constraint));
    assert_eq!(m.devices().len(), 1);
    m.remove_sender(sender_id).unwrap();
    assert!(m.get_device(device_id).unwrap().senders.is_empty());
    assert_eq!(m.get_device(device_id).unwrap().receivers, vec![receiver_id]);
    m.remove_device(device_id, true).unwrap();
    assert!(m.receivers().is_empty() && m.devices().is_empty());
    m.remove_node(node_id, false).unwrap();
    assert!(m.nodes().is_empty());
}

#[test]
fn relabel_moves_version_forward_only() {
    let (mut m, _, device_id, _, _) = populated();
    let before = m.get_device(device_id).unwrap().version;
    let earlier = TaiTime::new(0, 5).unwrap();
    m.relabel_device(device_id, "again".to_string(), earlier).unwrap();
    let d = m.get_device(device_id).unwrap();
    assert_eq!(d.label, "again");
    assert_eq!(d.version, before);
    let later = TaiTime::new(before.seconds + 1, 0).unwrap();
    m.relabel_device(device_id, "later".to_string(), later).unwrap();
    assert_eq!(m.get_device(device_id).unwrap().version, later);
    assert!(before.is_before(&later));
}

#[test]
fn version_advance_and_bump() {
    let a = TaiTime::new(5, 10).unwrap();
    let b = TaiTime::new(5, 11).unwrap();
    assert_eq!(a.advanced_to(b), b);
    assert_eq!(b.advanced_to(a), b);
    assert!(!a.is_before(&a));
    assert!(TaiTime::new(1, 1_000_000_000).is_none());
    let bumped = a.bump();
    assert!(!bumped.is_before(&a));
}

#[test]
fn a_second_node_is_refused() {
    let (mut m, node_id, _, _, _) = populated();
    let mut clock = TimeSource::new();
    let other = NodeBuilder::new("other".to_string()).build(&mut clock);
    assert_eq!(m.insert_node(other), Err(ModelError::Constraint));
    assert_eq!(m.nodes().len(), 1);
    assert_eq!(m.nodes()[0].id, node_id);
}

#[test]
fn node_lists_its_devices() {
    let (mut m, node_id, device_id, _, _) = populated();
    assert_eq!(m.get_node(node_id).unwrap().devices, vec![device_id]);
    m.remove_device(device_id, true).unwrap();
    assert!(m.get_node(node_id).unwrap().devices.is_empty());
}

#[test]
fn cascading_node_removal_takes_the_whole_subtree() {
    let (mut m, node_id, device_id, sender_id, receiver_id) = populated();
    let mut clock = TimeSource::new();
    let second = Device::builder(m.get_node(node_id).unwrap(), "t".to_string()).build(&mut clock);
    let second_sender = Sender::builder(&second, 3, Transport::Dash).build(&mut clock);
    m.insert_device(second).unwrap();
    m.insert_sender(second_sender).unwrap();
    assert_eq!(m.devices().len(), 2);
    m.remove_node(node_id, true).unwrap();
    assert!(m.get_node(node_id).is_none());
    assert!(m.get_device(device_id).is_none());
    assert!(m.get_sender(sender_id).is_none());
    assert!(m.get_receiver(receiver_id).is_none());
    assert!(m.nodes().is_empty() && m.devices().is_empty());
    assert!(m.senders().is_empty() && m.receivers().is_empty());
}

#[test]
fn builds_never_stamp_an_earlier_version() {
    let mut clock = TimeSource::new();
    let later = TaiTime::new(u64::MAX, 0).unwrap();
    assert_eq!(clock.stamp_at(later), later);
    let node = NodeBuilder::new("n".to_string()).build(&mut clock);
    assert_eq!(node.version, later);
    let earlier = TaiTime::new(5, 0).unwrap();
    assert_eq!(clock.stamp_at(earlier), later);
    let mut fresh = TimeSource::new();
    let a = fresh.stamp();
    let b = fresh.stamp();
    assert!(!b.is_before(&a));
}

#[test]
fn unreadable_clock_gives_the_epoch() {
    assert_eq!(TaiTime::from_reading(None), TaiTime::new(0, 0).unwrap());
    assert_eq!(TaiTime::from_reading(Some((3, 4))), TaiTime::new(3, 4).unwrap());
}

#[test]
fn clock_reads_present_time() {
    let now = TaiTime::now();
    assert!(now.seconds > 1_600_000_000);
    assert!(now.nanoseconds < 1_000_000_000);
}
