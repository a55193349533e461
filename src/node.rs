use vstd::prelude::*;

use crate::model::Model;
use crate::registry::{
    Candidate, DiscoveryEvent, EventOutcome, Selector, active_index, handle_event_post,
};
use crate::resource::{self, Device, Format, Receiver, Transport};
use crate::tai::{TaiTime, TimeSource};

verus! {

/// Receives the node's notifications; users of the library implement it.
pub trait EventHandler {
    /// The active registry changed to `active`, or none is left.
    fn registry_changed(&self, active: Option<&Candidate>);
}

/// Sets up a `Node`.
pub struct NodeBuilder<H> {
    event_handler: Option<H>,
}

impl<H: EventHandler> NodeBuilder<H> {
    pub closed spec fn handler(&self) -> Option<H> {
        self.event_handler
    }

    pub fn new() -> (r: Self)
        ensures
            r.handler() is None,
    {
        Self { event_handler: None }
    }

    pub fn event_handler(self, event_handler: H) -> (r: Self)
        ensures
            r.handler() == Some(event_handler),
    {
        Self { event_handler: Some(event_handler) }
    }

    /// Builds the node with its own resources: the node, one device of it and one
    /// video receiver of that device on multicast RTP.
    pub fn build(self) -> (r: Node<H>)
        ensures
            r.handler() == self.handler(),
            r.model()@.wf(),
            r.model()@.nodes.len() == 1,
            r.model()@.devices.len() == 1,
            r.model()@.senders.len() == 0,
            r.model()@.receivers.len() == 1,
            r.model()@.devices[0].node_id == r.model()@.nodes[0].id,
            r.model()@.nodes[0].devices@ == seq![r.model()@.devices[0].id],
            r.model()@.receivers[0].device_id == r.model()@.devices[0].id,
            r.model()@.receivers[0].format == Format::Video,
            r.model()@.receivers[0].transport == Transport::RtpMulticast,
            r.model()@.nodes[0].label@ == "Test"@,
            r.model()@.devices[0].type_@ == "devicetype"@,
            r.model()@.devices[0].label@.len() == 0,
            r.model()@.devices[0].senders@.len() == 0,
            r.model()@.devices[0].receivers@ == seq![r.model()@.receivers[0].id],
            r.selector()@.len() == 0,
    {
        let mut model = Model::new();
        let mut clock = TimeSource::new();
        let node = resource::NodeBuilder::new("Test".to_owned()).build(&mut clock);
        let device = Device::builder(&node, "devicetype".to_owned()).build(&mut clock);
        let receiver = Receiver::builder(&device, Format::Video, Transport::RtpMulticast).build(
            &mut clock,
        );
        let ghost n = node;
        let ghost d = device;
        let _ = model.insert_node(node);
        proof {
            assert(model@.nodes[0] == n);
        }
        proof {
            assert(model@.nodes[0].id == d.node_id);
            assert(model@.has_node(d.node_id));
        }
        let _ = model.insert_device(device);
        proof {
            assert(model@.nodes[0].id == n.id);
            assert(model@.nodes[0].devices@ =~= seq![d.id]);
            assert(model@.devices[0] == d);
        }
        let ghost before = model@;
        let ghost x = receiver;
        let r = model.insert_receiver(receiver);
        proof {
            assert(before.devices[0].id == d.id);
            assert(before.has_device(d.id));
            assert(r is Ok);
            assert(model@.devices[0].id == d.id);
            assert(model@.devices[0].receivers@ =~= seq![x.id]);
        }
        Node { discovery: Discovery::new(self.event_handler), model, clock }
    }
}

/// The candidate that is active in `s`, if any.
pub open spec fn active_candidate(s: Seq<Candidate>) -> Option<Candidate> {
    match active_index(s) {
        Some(i) => Some(s[i]),
        None => None,
    }
}

/// The registry side of a node: the live candidates, and the handler that hears
/// of each change of the active one.
pub struct Discovery<H> {
    event_handler: Option<H>,
    selector: Selector,
    heard: Ghost<Seq<Option<Candidate>>>,
}

impl<H> Discovery<H> {
    pub closed spec fn handler(&self) -> Option<H> {
        self.event_handler
    }

    pub closed spec fn selector(&self) -> Selector {
        self.selector
    }

    /// What the handler has been handed so far, in order.
    pub closed spec fn heard(&self) -> Seq<Option<Candidate>> {
        self.heard@
    }

    #[verifier::type_invariant]
    spec fn wf(self) -> bool {
        self.selector.wf()
    }
}

impl<H: EventHandler> Discovery<H> {
    pub fn new(event_handler: Option<H>) -> (r: Self)
        ensures
            r.handler() == event_handler,
            r.selector()@.len() == 0,
            r.heard().len() == 0,
    {
        Discovery { event_handler, selector: Selector::new(), heard: Ghost(Seq::empty()) }
    }

    pub fn registries(&self) -> (r: &Selector)
        ensures
            *r == self.selector(),
            r.wf(),
    {
        proof {
            use_type_invariant(self);
        }
        &self.selector
    }

    /// Takes in one discovery event; where the active registry changes, the handler
    /// is handed the new active candidate, or none.
    pub fn handle_event(&mut self, event: DiscoveryEvent, now: TaiTime) -> (r: EventOutcome)
        ensures
            final(self).handler() == old(self).handler(),
            handle_event_post(old(self).selector()@, final(self).selector()@, event, now, r),
            r is ActiveChanged && old(self).handler() is Some ==> final(self).heard() == old(
                self,
            ).heard().push(active_candidate(final(self).selector()@)),
            !(r is ActiveChanged && old(self).handler() is Some) ==> final(self).heard() == old(
                self,
            ).heard(),
    {
        proof {
            use_type_invariant(&*self);
        }
        let mut selector = Selector::new();
        std::mem::swap(&mut selector, &mut self.selector);
        let r = selector.handle_event(event, now);
        self.selector = selector;
        if r == EventOutcome::ActiveChanged {
            match &self.event_handler {
                Some(h) => {
                    let active = self.selector.active();
                    let ghost handed = match active {
                        Some(c) => Some(*c),
                        None => None,
                    };
                    h.registry_changed(active);
                    self.heard = Ghost(self.heard@.push(handed));
                },
                None => {},
            }
        }
        r
    }
}

/// A running node's state: its resources, the time source that stamps them, and
/// the registries it knows of.
pub struct Node<H> {
    discovery: Discovery<H>,
    model: Model,
    clock: TimeSource,
}

impl<H> Node<H> {
    pub closed spec fn handler(&self) -> Option<H> {
        self.discovery.handler()
    }

    pub closed spec fn model(&self) -> Model {
        self.model
    }

    pub closed spec fn discovery(&self) -> Discovery<H> {
        self.discovery
    }

    pub closed spec fn selector(&self) -> Selector {
        self.discovery.selector()
    }

    #[verifier::type_invariant]
    spec fn wf(self) -> bool {
        self.model@.wf()
    }
}

impl<H: EventHandler> Node<H> {
    pub fn builder() -> (r: NodeBuilder<H>)
        ensures
            r.handler() is None,
    {
        NodeBuilder::new()
    }

    pub fn resources(&self) -> (r: &Model)
        ensures
            *r == self.model(),
            r@.wf(),
    {
        proof {
            use_type_invariant(self);
        }
        &self.model
    }

    pub fn registries(&self) -> (r: &Selector)
        ensures
            *r == self.selector(),
            r.wf(),
    {
        self.discovery.registries()
    }

    /// Takes in one discovery event; where the active registry changes, the event
    /// handler is handed the new active candidate, or none.
    pub fn handle_discovery(&mut self, event: DiscoveryEvent, now: TaiTime) -> (r: EventOutcome)
        ensures
            final(self).model() == old(self).model(),
            final(self).handler() == old(self).handler(),
            handle_event_post(old(self).selector()@, final(self).selector()@, event, now, r),
            r is ActiveChanged && old(self).handler() is Some ==> final(self).discovery().heard()
                == old(self).discovery().heard().push(active_candidate(final(self).selector()@)),
            !(r is ActiveChanged && old(self).handler() is Some) ==> final(self).discovery().heard()
                == old(self).discovery().heard(),
    {
        proof {
            use_type_invariant(&*self);
        }
        let mut discovery = Discovery::new(None);
        std::mem::swap(&mut discovery, &mut self.discovery);
        let r = discovery.handle_event(event, now);
        self.discovery = discovery;
        r
    }

    /// Hands out the parts, for a host that runs them apart: the resources with
    /// their time source, and the registry side.
    pub fn into_parts(self) -> (r: (Model, TimeSource, Discovery<H>))
        ensures
            r.0 == self.model(),
            r.0@.wf(),
            r.2 == self.discovery(),
    {
        proof {
            use_type_invariant(&self);
        }
        (self.model, self.clock, self.discovery)
    }
}

} // verus!
