use vstd::prelude::*;

use crate::ids::{random_id, uuid_variant, uuid_version};
use crate::tai::{TaiTime, TimeSource};

verus! {

/// The kind of media that a receiver takes in.
#[derive(Clone, Copy, Debug, PartialEq, Eq, Structural)]
pub enum Format {
    Video,
    Audio,
    Data,
}

/// The transport that a sender or receiver uses.
#[derive(Clone, Copy, Debug, PartialEq, Eq, Structural)]
pub enum Transport {
    Rtp,
    RtpUnicast,
    RtpMulticast,
    Dash,
}

/// The root resource: the node that runs this software; it lists its devices by
/// identifier.
#[derive(Debug)]
pub struct Node {
    pub id: u128,
    pub version: TaiTime,
    pub label: String,
    pub devices: Vec<u128>,
}

/// A functional unit of a node; it lists its senders and receivers by identifier.
#[derive(Debug)]
pub struct Device {
    pub id: u128,
    pub version: TaiTime,
    pub label: String,
    pub type_: String,
    pub node_id: u128,
    pub senders: Vec<u128>,
    pub receivers: Vec<u128>,
}

/// An outbound stream endpoint of a device.
#[derive(Debug)]
pub struct Sender {
    pub id: u128,
    pub version: TaiTime,
    pub label: String,
    pub flow_id: u128,
    pub device_id: u128,
    pub transport: Transport,
}

/// An inbound stream endpoint of a device.
#[derive(Debug)]
pub struct Receiver {
    pub id: u128,
    pub version: TaiTime,
    pub label: String,
    pub format: Format,
    pub device_id: u128,
    pub transport: Transport,
}

/// The text of an optional label: the label, or empty where none was given.
pub open spec fn label_text(label: Option<String>) -> Seq<char> {
    match label {
        Some(l) => l@,
        None => Seq::empty(),
    }
}

fn take_label(label: Option<String>) -> (r: String)
    ensures
        r@ == label_text(label),
{
    match label {
        Some(l) => l,
        None => String::new(),
    }
}

impl Node {
    pub fn builder(label: String) -> (r: NodeBuilder)
        ensures
            r.label@ == label@,
    {
        NodeBuilder::new(label)
    }
}

/// Builds a `Node`; identity and version are fixed by `build`, the version taken
/// from a time source that never moves back.
pub struct NodeBuilder {
    pub label: String,
}

impl NodeBuilder {
    pub fn new(label: String) -> (r: NodeBuilder)
        ensures
            r.label@ == label@,
    {
        NodeBuilder { label }
    }

    pub fn build(self, clock: &mut TimeSource) -> (r: Node)
        ensures
            r.label@ == self.label@,
            r.devices@.len() == 0,
            r.version.wf(),
            r.version == final(clock).last(),
            old(clock).last().le(r.version),
            uuid_version(r.id) == 4,
            uuid_variant(r.id) == 2,
    {
        Node { id: random_id(), version: clock.stamp(), label: self.label, devices: Vec::new() }
    }
}

impl Node {
    /// Every field but the list of devices agrees with `other`.
    pub open spec fn same_but_children(self, other: Node) -> bool {
        &&& self.id == other.id
        &&& self.version == other.version
        &&& self.label == other.label
    }
}

impl Device {
    pub fn builder(node: &Node, device_type: String) -> (r: DeviceBuilder)
        ensures
            r.label == None::<String>,
            r.type_@ == device_type@,
            r.node_id == node.id,
    {
        DeviceBuilder::new(node, device_type)
    }

    /// Every field but the lists of senders and receivers agrees with `other`.
    pub open spec fn same_but_children(self, other: Device) -> bool {
        &&& self.id == other.id
        &&& self.version == other.version
        &&& self.label == other.label
        &&& self.type_ == other.type_
        &&& self.node_id == other.node_id
    }
}

/// Builds a `Device` of a given node; the label defaults to empty.
pub struct DeviceBuilder {
    pub label: Option<String>,
    pub type_: String,
    pub node_id: u128,
}

impl DeviceBuilder {
    pub fn new(node: &Node, device_type: String) -> (r: DeviceBuilder)
        ensures
            r.label == None::<String>,
            r.type_@ == device_type@,
            r.node_id == node.id,
    {
        DeviceBuilder { label: None, type_: device_type, node_id: node.id }
    }

    pub fn label(self, label: String) -> (r: DeviceBuilder)
        ensures
            r.label == Some(label),
            r.type_ == self.type_,
            r.node_id == self.node_id,
    {
        DeviceBuilder { label: Some(label), type_: self.type_, node_id: self.node_id }
    }

    pub fn build(self, clock: &mut TimeSource) -> (r: Device)
        ensures
            r.label@ == label_text(self.label),
            r.type_@ == self.type_@,
            r.node_id == self.node_id,
            r.senders@.len() == 0,
            r.receivers@.len() == 0,
            r.version.wf(),
            r.version == final(clock).last(),
            old(clock).last().le(r.version),
            uuid_version(r.id) == 4,
            uuid_variant(r.id) == 2,
    {
        Device {
            id: random_id(),
            version: clock.stamp(),
            label: take_label(self.label),
            type_: self.type_,
            node_id: self.node_id,
            senders: Vec::new(),
            receivers: Vec::new(),
        }
    }
}

impl Sender {
    pub fn builder(device: &Device, flow_id: u128, transport: Transport) -> (r: SenderBuilder)
        ensures
            r.label == None::<String>,
            r.flow_id == flow_id,
            r.device_id == device.id,
            r.transport == transport,
    {
        SenderBuilder::new(device, flow_id, transport)
    }
}

/// Builds a `Sender` of a given device; the label defaults to empty.
pub struct SenderBuilder {
    pub label: Option<String>,
    pub flow_id: u128,
    pub device_id: u128,
    pub transport: Transport,
}

impl SenderBuilder {
    pub fn new(device: &Device, flow_id: u128, transport: Transport) -> (r: SenderBuilder)
        ensures
            r.label == None::<String>,
            r.flow_id == flow_id,
            r.device_id == device.id,
            r.transport == transport,
    {
        SenderBuilder { label: None, flow_id, device_id: device.id, transport }
    }

    pub fn label(self, label: String) -> (r: SenderBuilder)
        ensures
            r.label == Some(label),
            r.flow_id == self.flow_id,
            r.device_id == self.device_id,
            r.transport == self.transport,
    {
        SenderBuilder { label: Some(label), ..self }
    }

    pub fn build(self, clock: &mut TimeSource) -> (r: Sender)
        ensures
            r.label@ == label_text(self.label),
            r.flow_id == self.flow_id,
            r.device_id == self.device_id,
            r.transport == self.transport,
            r.version.wf(),
            r.version == final(clock).last(),
            old(clock).last().le(r.version),
            uuid_version(r.id) == 4,
            uuid_variant(r.id) == 2,
    {
        Sender {
            id: random_id(),
            version: clock.stamp(),
            label: take_label(self.label),
            flow_id: self.flow_id,
            device_id: self.device_id,
            transport: self.transport,
        }
    }
}

impl Receiver {
    pub fn builder(device: &Device, format: Format, transport: Transport) -> (r: ReceiverBuilder)
        ensures
            r.label == None::<String>,
            r.format == format,
            r.device_id == device.id,
            r.transport == transport,
    {
        ReceiverBuilder::new(device, format, transport)
    }
}

/// Builds a `Receiver` of a given device; the label defaults to empty.
pub struct ReceiverBuilder {
    pub label: Option<String>,
    pub format: Format,
    pub device_id: u128,
    pub transport: Transport,
}

impl ReceiverBuilder {
    pub fn new(device: &Device, format: Format, transport: Transport) -> (r: ReceiverBuilder)
        ensures
            r.label == None::<String>,
            r.format == format,
            r.device_id == device.id,
            r.transport == transport,
    {
        ReceiverBuilder { label: None, format, device_id: device.id, transport }
    }

    pub fn label(self, label: String) -> (r: ReceiverBuilder)
        ensures
            r.label == Some(label),
            r.format == self.format,
            r.device_id == self.device_id,
            r.transport == self.transport,
    {
        ReceiverBuilder { label: Some(label), ..self }
    }

    pub fn build(self, clock: &mut TimeSource) -> (r: Receiver)
        ensures
            r.label@ == label_text(self.label),
            r.format == self.format,
            r.device_id == self.device_id,
            r.transport == self.transport,
            r.version.wf(),
            r.version == final(clock).last(),
            old(clock).last().le(r.version),
            uuid_version(r.id) == 4,
            uuid_variant(r.id) == 2,
    {
        Receiver {
            id: random_id(),
            version: clock.stamp(),
            label: take_label(self.label),
            format: self.format,
            device_id: self.device_id,
            transport: self.transport,
        }
    }
}

} // verus!
