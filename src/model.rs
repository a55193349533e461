use vstd::prelude::*;

use crate::resource::{Device, Node, Receiver, Sender};
use crate::tai::TaiTime;

verus! {

/// Why an operation on the model was refused.
#[derive(Clone, Copy, Debug, PartialEq, Eq, Structural)]
pub enum ModelError {
    /// A relationship or removal rule would be broken.
    Constraint,
    /// No resource of that kind has the identifier.
    NotFound,
}

/// The resources of a model, each kind in the order of insertion.
pub struct ModelView {
    pub nodes: Seq<Node>,
    pub devices: Seq<Device>,
    pub senders: Seq<Sender>,
    pub receivers: Seq<Receiver>,
}

impl ModelView {
    pub open spec fn has_node(self, id: u128) -> bool {
        exists|i: int| 0 <= i < self.nodes.len() && (#[trigger] self.nodes[i]).id == id
    }

    pub open spec fn has_device(self, id: u128) -> bool {
        exists|i: int| 0 <= i < self.devices.len() && (#[trigger] self.devices[i]).id == id
    }

    pub open spec fn has_sender(self, id: u128) -> bool {
        exists|i: int| 0 <= i < self.senders.len() && (#[trigger] self.senders[i]).id == id
    }

    pub open spec fn has_receiver(self, id: u128) -> bool {
        exists|i: int| 0 <= i < self.receivers.len() && (#[trigger] self.receivers[i]).id == id
    }

    /// Whether a device of the node is present.
    pub open spec fn node_has_children(self, id: u128) -> bool {
        exists|i: int| 0 <= i < self.devices.len() && (#[trigger] self.devices[i]).node_id == id
    }

    /// Whether a sender or receiver of the device is present.
    pub open spec fn device_has_children(self, id: u128) -> bool {
        (exists|i: int| 0 <= i < self.senders.len() && (#[trigger] self.senders[i]).device_id == id)
            || (exists|i: int|
            0 <= i < self.receivers.len() && (#[trigger] self.receivers[i]).device_id == id)
    }

    /// Every device, sender and receiver refers to a parent that is present.
    pub open spec fn no_dangling(self) -> bool {
        &&& forall|i: int|
            0 <= i < self.devices.len() ==> self.has_node((#[trigger] self.devices[i]).node_id)
        &&& forall|i: int|
            0 <= i < self.senders.len() ==> self.has_device((#[trigger] self.senders[i]).device_id)
        &&& forall|i: int|
            0 <= i < self.receivers.len() ==> self.has_device(
                (#[trigger] self.receivers[i]).device_id,
            )
    }

    /// Within each kind no two resources share an identifier.
    pub open spec fn unique_ids(self) -> bool {
        &&& forall|i: int, j: int|
            0 <= i < j < self.nodes.len() ==> (#[trigger] self.nodes[i]).id != (
            #[trigger] self.nodes[j]).id
        &&& forall|i: int, j: int|
            0 <= i < j < self.devices.len() ==> (#[trigger] self.devices[i]).id != (
            #[trigger] self.devices[j]).id
        &&& forall|i: int, j: int|
            0 <= i < j < self.senders.len() ==> (#[trigger] self.senders[i]).id != (
            #[trigger] self.senders[j]).id
        &&& forall|i: int, j: int|
            0 <= i < j < self.receivers.len() ==> (#[trigger] self.receivers[i]).id != (
            #[trigger] self.receivers[j]).id
    }

    /// At most one node: the root of the graph.
    pub open spec fn single_root(self) -> bool {
        self.nodes.len() <= 1
    }

    pub open spec fn wf(self) -> bool {
        self.unique_ids() && self.no_dangling() && self.single_root()
    }
}

/// `after` is `before` with `child` added to the list of senders (or, where
/// `sender` is false, of receivers) of the device `device_id`.
pub open spec fn child_attached(
    before: Seq<Device>,
    after: Seq<Device>,
    device_id: u128,
    child: u128,
    sender: bool,
) -> bool {
    &&& after.len() == before.len()
    &&& forall|i: int|
        #![trigger after[i]]
        0 <= i < before.len() ==> if before[i].id == device_id {
            &&& after[i].same_but_children(before[i])
            &&& if sender {
                after[i].senders@ == before[i].senders@.push(child) && after[i].receivers
                    == before[i].receivers
            } else {
                after[i].receivers@ == before[i].receivers@.push(child) && after[i].senders
                    == before[i].senders
            }
        } else {
            after[i] == before[i]
        }
}

/// Attaching a child to a present device, and adding that child, keeps the model
/// well formed.
proof fn lemma_attached_keeps_wf(o: ModelView, v: ModelView, device_id: u128, child: u128, sender: bool)
    requires
        o.wf(),
        o.has_device(device_id),
        v.nodes == o.nodes,
        child_attached(o.devices, v.devices, device_id, child, sender),
        sender ==> v.receivers == o.receivers && v.senders.drop_last() == o.senders && v.senders.len() == o.senders.len() + 1
            && v.senders.last().id == child && v.senders.last().device_id == device_id && !o.has_sender(child),
        !sender ==> v.senders == o.senders && v.receivers.drop_last() == o.receivers && v.receivers.len() == o.receivers.len() + 1
            && v.receivers.last().id == child && v.receivers.last().device_id == device_id && !o.has_receiver(child),
    ensures
        v.wf(),
{
    assert forall|i: int| 0 <= i < o.devices.len() implies (#[trigger] v.devices[i]).id == o.devices[i].id
        && v.devices[i].node_id == o.devices[i].node_id by {
        assert(v.devices[i].same_but_children(o.devices[i]) || v.devices[i] == o.devices[i]);
    }
    assert forall|x: u128| o.has_device(x) implies v.has_device(x) by {
        let j = choose|j: int| 0 <= j < o.devices.len() && (#[trigger] o.devices[j]).id == x;
        assert(v.devices[j].id == x);
    }
    assert forall|i: int| 0 <= i < v.devices.len() implies v.has_node((#[trigger] v.devices[i]).node_id) by {
        assert(v.devices[i].node_id == o.devices[i].node_id);
        assert(o.has_node(o.devices[i].node_id));
    }
    assert forall|i: int| 0 <= i < v.senders.len() implies v.has_device((#[trigger] v.senders[i]).device_id) by {
        if sender && i == o.senders.len() {
        } else {
            if sender {
                assert(v.senders[i] == v.senders.drop_last()[i]);
            }
            assert(o.has_device(o.senders[i].device_id));
        }
    }
    assert forall|i: int| 0 <= i < v.receivers.len() implies v.has_device((#[trigger] v.receivers[i]).device_id) by {
        if !sender && i == o.receivers.len() {
        } else {
            if !sender {
                assert(v.receivers[i] == v.receivers.drop_last()[i]);
            }
            assert(o.has_device(o.receivers[i].device_id));
        }
    }
    assert forall|i: int, j: int| 0 <= i < j < v.devices.len() implies (#[trigger] v.devices[i]).id != (#[trigger] v.devices[j]).id by {
        assert(o.devices[i].id != o.devices[j].id);
    }
    assert forall|i: int, j: int| 0 <= i < j < v.senders.len() implies (#[trigger] v.senders[i]).id != (#[trigger] v.senders[j]).id by {
        if sender {
            assert(v.senders[i] == o.senders[i]);
            if j < o.senders.len() {
                assert(v.senders[j] == o.senders[j]);
            }
        }
    }
    assert forall|i: int, j: int| 0 <= i < j < v.receivers.len() implies (#[trigger] v.receivers[i]).id != (#[trigger] v.receivers[j]).id by {
        if !sender {
            assert(v.receivers[i] == o.receivers[i]);
            if j < o.receivers.len() {
                assert(v.receivers[j] == o.receivers[j]);
            }
        }
    }
}

/// `v` holds resources of the same kinds as `o`, at the same places, with the same
/// identifiers and parents.
pub open spec fn same_keys(o: ModelView, v: ModelView) -> bool {
    &&& v.nodes.len() == o.nodes.len()
    &&& v.devices.len() == o.devices.len()
    &&& v.senders.len() == o.senders.len()
    &&& v.receivers.len() == o.receivers.len()
    &&& forall|i: int| 0 <= i < o.nodes.len() ==> (#[trigger] v.nodes[i]).id == o.nodes[i].id
    &&& forall|i: int|
        0 <= i < o.devices.len() ==> (#[trigger] v.devices[i]).id == o.devices[i].id
            && v.devices[i].node_id == o.devices[i].node_id
    &&& forall|i: int|
        0 <= i < o.senders.len() ==> (#[trigger] v.senders[i]).id == o.senders[i].id
            && v.senders[i].device_id == o.senders[i].device_id
    &&& forall|i: int|
        0 <= i < o.receivers.len() ==> (#[trigger] v.receivers[i]).id == o.receivers[i].id
            && v.receivers[i].device_id == o.receivers[i].device_id
}

/// Changing what a resource holds, but not its identity or parent, keeps the model
/// well formed.
proof fn lemma_same_keys_keep_wf(o: ModelView, v: ModelView)
    requires
        o.wf(),
        same_keys(o, v),
    ensures
        v.wf(),
{
    assert forall|x: u128| o.has_node(x) implies v.has_node(x) by {
        let j = choose|j: int| 0 <= j < o.nodes.len() && (#[trigger] o.nodes[j]).id == x;
        assert(v.nodes[j].id == x);
    }
    assert forall|x: u128| o.has_device(x) implies v.has_device(x) by {
        let j = choose|j: int| 0 <= j < o.devices.len() && (#[trigger] o.devices[j]).id == x;
        assert(v.devices[j].id == x);
    }
    assert forall|i: int| 0 <= i < v.devices.len() implies v.has_node((#[trigger] v.devices[i]).node_id) by {
        assert(o.has_node(o.devices[i].node_id));
    }
    assert forall|i: int| 0 <= i < v.senders.len() implies v.has_device((#[trigger] v.senders[i]).device_id) by {
        assert(o.has_device(o.senders[i].device_id));
    }
    assert forall|i: int| 0 <= i < v.receivers.len() implies v.has_device((#[trigger] v.receivers[i]).device_id) by {
        assert(o.has_device(o.receivers[i].device_id));
    }
    assert forall|i: int, j: int| 0 <= i < j < v.nodes.len() implies (#[trigger] v.nodes[i]).id != (#[trigger] v.nodes[j]).id by {
        assert(o.nodes[i].id != o.nodes[j].id);
    }
    assert forall|i: int, j: int| 0 <= i < j < v.devices.len() implies (#[trigger] v.devices[i]).id != (#[trigger] v.devices[j]).id by {
        assert(o.devices[i].id != o.devices[j].id);
    }
    assert forall|i: int, j: int| 0 <= i < j < v.senders.len() implies (#[trigger] v.senders[i]).id != (#[trigger] v.senders[j]).id by {
        assert(o.senders[i].id != o.senders[j].id);
    }
    assert forall|i: int, j: int| 0 <= i < j < v.receivers.len() implies (#[trigger] v.receivers[i]).id != (#[trigger] v.receivers[j]).id by {
        assert(o.receivers[i].id != o.receivers[j].id);
    }
}

/// `after` is `before` with `child` added to the device list of the node
/// `node_id` where `attach`, or taken off it where not.
pub open spec fn device_linked(
    before: Seq<Node>,
    after: Seq<Node>,
    node_id: u128,
    child: u128,
    attach: bool,
) -> bool {
    &&& after.len() == before.len()
    &&& forall|i: int|
        #![trigger after[i]]
        0 <= i < before.len() ==> if before[i].id == node_id {
            &&& after[i].same_but_children(before[i])
            &&& if attach {
                after[i].devices@ == before[i].devices@.push(child)
            } else {
                after[i].devices@ == before[i].devices@.filter(other_than(child))
            }
        } else {
            after[i] == before[i]
        }
}

/// Linking a device to a node keeps each node's place, identifier and count, so
/// the same nodes are present.
proof fn lemma_linked_keeps_nodes(o: Seq<Node>, v: Seq<Node>, node_id: u128, child: u128, attach: bool)
    requires
        device_linked(o, v, node_id, child, attach),
        forall|i: int, j: int| 0 <= i < j < o.len() ==> (#[trigger] o[i]).id != (#[trigger] o[j]).id,
    ensures
        v.len() == o.len(),
        forall|i: int| 0 <= i < o.len() ==> (#[trigger] v[i]).id == o[i].id,
        forall|i: int, j: int| 0 <= i < j < v.len() ==> (#[trigger] v[i]).id != (#[trigger] v[j]).id,
{
    assert forall|i: int| 0 <= i < o.len() implies (#[trigger] v[i]).id == o[i].id by {
        assert(v[i].same_but_children(o[i]) || v[i] == o[i]);
    }
    assert forall|i: int, j: int| 0 <= i < j < v.len() implies (#[trigger] v[i]).id != (#[trigger] v[j]).id by {
        assert(o[i].id != o[j].id);
    }
}

/// Keeps the senders that do not belong to the device `device_id`.
pub open spec fn sender_not_of(device_id: u128) -> spec_fn(Sender) -> bool {
    |s: Sender| s.device_id != device_id
}

/// Keeps the receivers that do not belong to the device `device_id`.
pub open spec fn receiver_not_of(device_id: u128) -> spec_fn(Receiver) -> bool {
    |x: Receiver| x.device_id != device_id
}

/// Keeps the identifiers other than `id`.
pub open spec fn other_than(id: u128) -> spec_fn(u128) -> bool {
    |x: u128| x != id
}

/// `after` is `before` with `child` taken off the list of senders (or, where
/// `sender` is false, of receivers) of the device `device_id`.
pub open spec fn child_detached(
    before: Seq<Device>,
    after: Seq<Device>,
    device_id: u128,
    child: u128,
    sender: bool,
) -> bool {
    &&& after.len() == before.len()
    &&& forall|i: int|
        #![trigger after[i]]
        0 <= i < before.len() ==> if before[i].id == device_id {
            &&& after[i].same_but_children(before[i])
            &&& if sender {
                after[i].senders@ == before[i].senders@.filter(other_than(child))
                    && after[i].receivers == before[i].receivers
            } else {
                after[i].receivers@ == before[i].receivers@.filter(other_than(child))
                    && after[i].senders == before[i].senders
            }
        } else {
            after[i] == before[i]
        }
}

/// Filtering a sequence whose keys are distinct leaves distinct keys,
/// every element kept being one of the input.
proof fn lemma_filter_distinct<T>(s: Seq<T>, key: spec_fn(T) -> u128, p: spec_fn(T) -> bool)
    requires
        forall|i: int, j: int| 0 <= i < j < s.len() ==> key(#[trigger] s[i]) != key(#[trigger] s[j]),
    ensures
        forall|i: int, j: int|
            0 <= i < j < s.filter(p).len() ==> key(#[trigger] s.filter(p)[i]) != key(
                #[trigger] s.filter(p)[j],
            ),
        forall|i: int|
            0 <= i < s.filter(p).len() ==> p(#[trigger] s.filter(p)[i]) && s.contains(
                s.filter(p)[i],
            ),
    decreases s.len(),
{
    reveal(Seq::filter);
    if s.len() > 0 {
        let d = s.drop_last();
        lemma_filter_distinct(d, key, p);
        let f = d.filter(p);
        assert forall|i: int| 0 <= i < f.len() implies s.contains(#[trigger] f[i]) by {
            {
                let j = choose|j: int| 0 <= j < d.len() && d[j] == f[i];
                assert(s[j] == f[i]);
            }
        }
        if p(s.last()) {
            let g = s.filter(p);
            assert(g == f.push(s.last()));
            assert forall|i: int, j: int| 0 <= i < j < g.len() implies key(#[trigger] g[i]) != key(
                #[trigger] g[j],
            ) by {
                if j == g.len() - 1 {
                    assert(g[i] == f[i]);
                    let m = choose|m: int| 0 <= m < d.len() && d[m] == f[i];
                    assert(s[m] == d[m]);
                } else {
                    assert(g[i] == f[i] && g[j] == f[j]);
                }
            }
            assert forall|i: int| 0 <= i < g.len() implies p(#[trigger] g[i]) && s.contains(g[i]) by {
                if i < g.len() - 1 {
                    assert(g[i] == f[i]);
                } else {
                    assert(s[s.len() - 1] == g[i]);
                }
            }
        } else {
            assert(s.filter(p) == f);
        }
    }
}

/// Removing an element that the filter drops leaves the filtered sequence as it was.
proof fn lemma_filter_remove<T>(s: Seq<T>, p: spec_fn(T) -> bool, k: int)
    requires
        0 <= k < s.len(),
        !p(s[k]),
    ensures
        s.remove(k).filter(p) == s.filter(p),
    decreases s.len(),
{
    reveal(Seq::filter);
    let r = s.remove(k);
    if k == s.len() - 1 {
        assert(r =~= s.drop_last());
    } else {
        lemma_filter_remove(s.drop_last(), p, k);
        assert(r.drop_last() =~= s.drop_last().remove(k));
        assert(r.last() == s.last());
    }
}

/// A filter that keeps every element changes nothing.
proof fn lemma_filter_all<T>(s: Seq<T>, p: spec_fn(T) -> bool)
    requires
        forall|i: int| 0 <= i < s.len() ==> p(#[trigger] s[i]),
    ensures
        s.filter(p) == s,
    decreases s.len(),
{
    reveal(Seq::filter);
    if s.len() > 0 {
        lemma_filter_all(s.drop_last(), p);
        assert(s.drop_last().push(s.last()) =~= s);
    }
}

/// Filtering first by a weaker condition does not change a filter by a stronger one.
proof fn lemma_filter_weaker<T>(s: Seq<T>, p: spec_fn(T) -> bool, q: spec_fn(T) -> bool)
    requires
        forall|e: T| #[trigger] q(e) ==> p(e),
    ensures
        s.filter(p).filter(q) == s.filter(q),
    decreases s.len(),
{
    reveal(Seq::filter);
    if s.len() > 0 {
        lemma_filter_weaker(s.drop_last(), p, q);
        let f = s.drop_last().filter(p);
        if p(s.last()) {
            assert(f.push(s.last()).drop_last() =~= f);
        }
    }
}

/// Keeps the devices of nodes other than `node_id`.
pub open spec fn device_not_of(node_id: u128) -> spec_fn(Device) -> bool {
    |d: Device| d.node_id != node_id
}

/// Whether one of `devices` has the identifier `device_id` and belongs to `node_id`.
pub open spec fn device_of_node(devices: Seq<Device>, device_id: u128, node_id: u128) -> bool {
    exists|j: int| 0 <= j < devices.len() && (#[trigger] devices[j]).id == device_id && devices[j].node_id == node_id
}

/// Keeps the senders whose device, among `devices`, is not of the node `node_id`.
pub open spec fn sender_outside(devices: Seq<Device>, node_id: u128) -> spec_fn(Sender) -> bool {
    |s: Sender| !device_of_node(devices, s.device_id, node_id)
}

/// Keeps the receivers whose device, among `devices`, is not of the node `node_id`.
pub open spec fn receiver_outside(devices: Seq<Device>, node_id: u128) -> spec_fn(Receiver) -> bool {
    |x: Receiver| !device_of_node(devices, x.device_id, node_id)
}

/// Identifiers of `v` other than `id`, in order.
fn without(v: &Vec<u128>, id: u128) -> (r: Vec<u128>)
    ensures
        r@ == v@.filter(other_than(id)),
{
    let mut out: Vec<u128> = Vec::new();
    let mut i: usize = 0;
    while i < v.len()
        invariant
            i <= v@.len(),
            out@ == v@.subrange(0, i as int).filter(other_than(id)),
        decreases v@.len() - i,
    {
        proof {
            reveal(Seq::filter);
            assert(v@.subrange(0, i + 1).drop_last() =~= v@.subrange(0, i as int));
        }
        if v[i] != id {
            out.push(v[i]);
        }
        i = i + 1;
    }
    proof {
        assert(v@.subrange(0, v@.len() as int) =~= v@);
    }
    out
}

/// The model owns every resource record; other parts hold identifiers.
pub struct Model {
    nodes: Vec<Node>,
    devices: Vec<Device>,
    senders: Vec<Sender>,
    receivers: Vec<Receiver>,
}

impl View for Model {
    type V = ModelView;

    closed spec fn view(&self) -> ModelView {
        ModelView {
            nodes: self.nodes@,
            devices: self.devices@,
            senders: self.senders@,
            receivers: self.receivers@,
        }
    }
}

impl Model {
    pub fn new() -> (r: Model)
        ensures
            r@.wf(),
            r@.nodes.len() == 0,
            r@.devices.len() == 0,
            r@.senders.len() == 0,
            r@.receivers.len() == 0,
    {
        Model { nodes: Vec::new(), devices: Vec::new(), senders: Vec::new(), receivers: Vec::new() }
    }

    pub fn nodes(&self) -> (r: &Vec<Node>)
        ensures
            r@ == self@.nodes,
    {
        &self.nodes
    }

    pub fn devices(&self) -> (r: &Vec<Device>)
        ensures
            r@ == self@.devices,
    {
        &self.devices
    }

    pub fn senders(&self) -> (r: &Vec<Sender>)
        ensures
            r@ == self@.senders,
    {
        &self.senders
    }

    pub fn receivers(&self) -> (r: &Vec<Receiver>)
        ensures
            r@ == self@.receivers,
    {
        &self.receivers
    }

    fn node_index(&self, id: u128) -> (r: Option<usize>)
        ensures
            r matches Some(k) ==> k < self@.nodes.len() && self@.nodes[k as int].id == id,
            r is None ==> !self@.has_node(id),
    {
        let mut k: usize = 0;
        while k < self.nodes.len()
            invariant
                k <= self.nodes@.len(),
                forall|i: int| 0 <= i < k ==> (#[trigger] self.nodes@[i]).id != id,
            decreases self.nodes@.len() - k,
        {
            if self.nodes[k].id == id {
                return Some(k);
            }
            k = k + 1;
        }
        None
    }

    fn device_index(&self, id: u128) -> (r: Option<usize>)
        ensures
            r matches Some(k) ==> k < self@.devices.len() && self@.devices[k as int].id == id,
            r is None ==> !self@.has_device(id),
    {
        let mut k: usize = 0;
        while k < self.devices.len()
            invariant
                k <= self.devices@.len(),
                forall|i: int| 0 <= i < k ==> (#[trigger] self.devices@[i]).id != id,
            decreases self.devices@.len() - k,
        {
            if self.devices[k].id == id {
                return Some(k);
            }
            k = k + 1;
        }
        None
    }

    fn sender_index(&self, id: u128) -> (r: Option<usize>)
        ensures
            r matches Some(k) ==> k < self@.senders.len() && self@.senders[k as int].id == id,
            r is None ==> !self@.has_sender(id),
    {
        let mut k: usize = 0;
        while k < self.senders.len()
            invariant
                k <= self.senders@.len(),
                forall|i: int| 0 <= i < k ==> (#[trigger] self.senders@[i]).id != id,
            decreases self.senders@.len() - k,
        {
            if self.senders[k].id == id {
                return Some(k);
            }
            k = k + 1;
        }
        None
    }

    fn receiver_index(&self, id: u128) -> (r: Option<usize>)
        ensures
            r matches Some(k) ==> k < self@.receivers.len() && self@.receivers[k as int].id == id,
            r is None ==> !self@.has_receiver(id),
    {
        let mut k: usize = 0;
        while k < self.receivers.len()
            invariant
                k <= self.receivers@.len(),
                forall|i: int| 0 <= i < k ==> (#[trigger] self.receivers@[i]).id != id,
            decreases self.receivers@.len() - k,
        {
            if self.receivers[k].id == id {
                return Some(k);
            }
            k = k + 1;
        }
        None
    }

    pub fn get_node(&self, id: u128) -> (r: Option<&Node>)
        ensures
            r is Some <==> self@.has_node(id),
            r matches Some(n) ==> n.id == id && self@.nodes.contains(*n),
    {
        match self.node_index(id) {
            Some(k) => Some(&self.nodes[k]),
            None => None,
        }
    }

    pub fn get_device(&self, id: u128) -> (r: Option<&Device>)
        ensures
            r is Some <==> self@.has_device(id),
            r matches Some(d) ==> d.id == id && self@.devices.contains(*d),
    {
        match self.device_index(id) {
            Some(k) => Some(&self.devices[k]),
            None => None,
        }
    }

    pub fn get_sender(&self, id: u128) -> (r: Option<&Sender>)
        ensures
            r is Some <==> self@.has_sender(id),
            r matches Some(s) ==> s.id == id && self@.senders.contains(*s),
    {
        match self.sender_index(id) {
            Some(k) => Some(&self.senders[k]),
            None => None,
        }
    }

    pub fn get_receiver(&self, id: u128) -> (r: Option<&Receiver>)
        ensures
            r is Some <==> self@.has_receiver(id),
            r matches Some(x) ==> x.id == id && self@.receivers.contains(*x),
    {
        match self.receiver_index(id) {
            Some(k) => Some(&self.receivers[k]),
            None => None,
        }
    }

    /// Adds the root node; refused where a node is present already.
    pub fn insert_node(&mut self, node: Node) -> (r: Result<(), ModelError>)
        requires
            old(self)@.wf(),
        ensures
            final(self)@.wf(),
            r is Ok <==> old(self)@.nodes.len() == 0,
            r is Err ==> r == Err::<(), ModelError>(ModelError::Constraint) && final(self)@ == old(
                self,
            )@,
            r is Ok ==> final(self)@ == (ModelView {
                nodes: old(self)@.nodes.push(node),
                ..old(self)@
            }),
    {
        if self.nodes.len() > 0 {
            return Err(ModelError::Constraint);
        }
        proof {
            let o = old(self)@;
            if o.devices.len() > 0 {
                assert(o.has_node(o.devices[0].node_id));
            }
            if o.senders.len() > 0 {
                assert(o.has_device(o.senders[0].device_id));
            }
            if o.receivers.len() > 0 {
                assert(o.has_device(o.receivers[0].device_id));
            }
        }
        self.nodes.push(node);
        Ok(())
    }

    /// Adds `child` to, or takes it off, the device list of the node at `k`.
    fn link_device(&mut self, k: usize, child: u128, attach: bool)
        requires
            k < old(self)@.nodes.len(),
            old(self)@.unique_ids(),
        ensures
            device_linked(old(self)@.nodes, final(self)@.nodes, old(self)@.nodes[k as int].id, child, attach),
            final(self)@.devices == old(self)@.devices,
            final(self)@.senders == old(self)@.senders,
            final(self)@.receivers == old(self)@.receivers,
    {
        let mut n = self.nodes.remove(k);
        if attach {
            n.devices.push(child);
        } else {
            n.devices = without(&n.devices, child);
        }
        self.nodes.insert(k, n);
        proof {
            let o = old(self)@.nodes;
            assert(self.nodes@ =~= o.update(k as int, n));
            assert forall|i: int| 0 <= i < o.len() && o[i].id == o[k as int].id implies i == k by {
                if i < k {
                    assert(o[i].id != o[k as int].id);
                } else if i > k {
                    assert(o[k as int].id != o[i].id);
                }
            }
        }
    }

    /// Adds a device and lists it on its node; refused where the node is absent or
    /// the identifier is taken.
    pub fn insert_device(&mut self, device: Device) -> (r: Result<(), ModelError>)
        requires
            old(self)@.wf(),
        ensures
            final(self)@.wf(),
            r is Ok <==> old(self)@.has_node(device.node_id) && !old(self)@.has_device(device.id),
            r is Err ==> r == Err::<(), ModelError>(ModelError::Constraint) && final(self)@ == old(
                self,
            )@,
            r is Ok ==> {
                &&& final(self)@.devices == old(self)@.devices.push(device)
                &&& final(self)@.senders == old(self)@.senders
                &&& final(self)@.receivers == old(self)@.receivers
                &&& device_linked(old(self)@.nodes, final(self)@.nodes, device.node_id, device.id, true)
            },
    {
        let parent = self.node_index(device.node_id);
        if parent.is_none() || self.device_index(device.id).is_some() {
            return Err(ModelError::Constraint);
        }
        let k = parent.unwrap();
        let did = device.id;
        let ghost nid = device.node_id;
        self.link_device(k, did, true);
        let ghost mid = self@;
        self.devices.push(device);
        proof {
            let v = self@;
            let o = old(self)@;
            lemma_linked_keeps_nodes(o.nodes, v.nodes, nid, did, true);
            assert forall|i: int| 0 <= i < v.senders.len() implies v.has_device(
                (#[trigger] v.senders[i]).device_id,
            ) by {
                let j = choose|j: int|
                    0 <= j < o.devices.len() && (#[trigger] o.devices[j]).id
                        == v.senders[i].device_id;
                assert(v.devices[j] == o.devices[j]);
            }
            assert forall|i: int| 0 <= i < v.receivers.len() implies v.has_device(
                (#[trigger] v.receivers[i]).device_id,
            ) by {
                let j = choose|j: int|
                    0 <= j < o.devices.len() && (#[trigger] o.devices[j]).id
                        == v.receivers[i].device_id;
                assert(v.devices[j] == o.devices[j]);
            }
            assert forall|i: int| 0 <= i < v.devices.len() implies v.has_node(
                (#[trigger] v.devices[i]).node_id,
            ) by {
                if i < o.devices.len() {
                    assert(v.devices[i] == o.devices[i]);
                    assert(o.has_node(o.devices[i].node_id));
                    let j = choose|j: int| 0 <= j < o.nodes.len() && (#[trigger] o.nodes[j]).id == o.devices[i].node_id;
                    assert(v.nodes[j].id == o.nodes[j].id);
                } else {
                    assert(v.nodes[k as int].id == v.devices[i].node_id);
                }
            }
            assert forall|i: int, j: int| 0 <= i < j < v.devices.len() implies (#[trigger] v.devices[i]).id != (#[trigger] v.devices[j]).id by {
                if j < o.devices.len() {
                    assert(v.devices[i] == o.devices[i] && v.devices[j] == o.devices[j]);
                } else {
                    assert(v.devices[i] == o.devices[i]);
                }
            }
        }
        Ok(())
    }

    /// Adds `child` to the senders (or receivers) list of the device at `k`.
    fn attach_child(&mut self, k: usize, child: u128, sender: bool)
        requires
            k < old(self)@.devices.len(),
            old(self)@.unique_ids(),
        ensures
            child_attached(old(self)@.devices, final(self)@.devices, old(self)@.devices[k as int].id, child, sender),
            final(self)@.nodes == old(self)@.nodes,
            final(self)@.senders == old(self)@.senders,
            final(self)@.receivers == old(self)@.receivers,
    {
        let mut d = self.devices.remove(k);
        if sender {
            d.senders.push(child);
        } else {
            d.receivers.push(child);
        }
        self.devices.insert(k, d);
        proof {
            let o = old(self)@.devices;
            assert(self.devices@ =~= o.update(k as int, d));
            assert forall|i: int| 0 <= i < o.len() && o[i].id == o[k as int].id implies i == k by {
                if i < k {
                    assert(o[i].id != o[k as int].id);
                } else if i > k {
                    assert(o[k as int].id != o[i].id);
                }
            }
        }
    }

    /// Adds a sender and lists it on its device; refused where the device is absent
    /// or the identifier is taken.
    pub fn insert_sender(&mut self, sender: Sender) -> (r: Result<(), ModelError>)
        requires
            old(self)@.wf(),
        ensures
            final(self)@.wf(),
            r is Ok <==> old(self)@.has_device(sender.device_id) && !old(self)@.has_sender(sender.id),
            r is Err ==> r == Err::<(), ModelError>(ModelError::Constraint) && final(self)@ == old(
                self,
            )@,
            r is Ok ==> {
                &&& final(self)@.nodes == old(self)@.nodes
                &&& final(self)@.senders == old(self)@.senders.push(sender)
                &&& final(self)@.receivers == old(self)@.receivers
                &&& child_attached(old(self)@.devices, final(self)@.devices, sender.device_id, sender.id, true)
            },
    {
        let parent = self.device_index(sender.device_id);
        if parent.is_none() || self.sender_index(sender.id).is_some() {
            return Err(ModelError::Constraint);
        }
        let k = parent.unwrap();
        let sid = sender.id;
        self.attach_child(k, sid, true);
        self.senders.push(sender);
        proof {
            assert(self@.senders.drop_last() =~= old(self)@.senders);
            lemma_attached_keeps_wf(old(self)@, self@, sender.device_id, sid, true);
        }
        Ok(())
    }

    /// Adds a receiver and lists it on its device; refused where the device is absent
    /// or the identifier is taken.
    pub fn insert_receiver(&mut self, receiver: Receiver) -> (r: Result<(), ModelError>)
        requires
            old(self)@.wf(),
        ensures
            final(self)@.wf(),
            r is Ok <==> old(self)@.has_device(receiver.device_id) && !old(self)@.has_receiver(receiver.id),
            r is Err ==> r == Err::<(), ModelError>(ModelError::Constraint) && final(self)@ == old(
                self,
            )@,
            r is Ok ==> {
                &&& final(self)@.nodes == old(self)@.nodes
                &&& final(self)@.senders == old(self)@.senders
                &&& final(self)@.receivers == old(self)@.receivers.push(receiver)
                &&& child_attached(old(self)@.devices, final(self)@.devices, receiver.device_id, receiver.id, false)
            },
    {
        let parent = self.device_index(receiver.device_id);
        if parent.is_none() || self.receiver_index(receiver.id).is_some() {
            return Err(ModelError::Constraint);
        }
        let k = parent.unwrap();
        let rid = receiver.id;
        self.attach_child(k, rid, false);
        self.receivers.push(receiver);
        proof {
            assert(self@.receivers.drop_last() =~= old(self)@.receivers);
            lemma_attached_keeps_wf(old(self)@, self@, receiver.device_id, rid, false);
        }
        Ok(())
    }

    /// Gives the node `id` a new label and moves its version on to `now` where
    /// that is later; the version never moves back.
    pub fn relabel_node(&mut self, id: u128, label: String, now: TaiTime) -> (r: Result<(), ModelError>)
        requires
            old(self)@.wf(),
        ensures
            final(self)@.wf(),
            r is Ok <==> old(self)@.has_node(id),
            r is Err ==> r == Err::<(), ModelError>(ModelError::NotFound) && final(self)@ == old(
                self,
            )@,
            r is Ok ==> exists|k: int|
                0 <= k < old(self)@.nodes.len() && old(self)@.nodes[k].id == id && final(self)@ == (ModelView {
                    nodes: old(self)@.nodes.update(
                        k,
                        Node { label, version: old(self)@.nodes[k].version.after(now), ..old(self)@.nodes[k] },
                    ),
                    ..old(self)@
                }) && old(self)@.nodes[k].version.le(final(self)@.nodes[k].version) && (old(
                    self,
                )@.nodes[k].version.lt(now) ==> old(self)@.nodes[k].version.lt(final(self)@.nodes[k].version)),
    {
        let found = self.node_index(id);
        if found.is_none() {
            return Err(ModelError::NotFound);
        }
        let k = found.unwrap();
        let mut x = self.nodes.remove(k);
        x.label = label;
        x.version = x.version.advanced_to(now);
        self.nodes.insert(k, x);
        proof {
            let o = old(self)@;
            let v = self@;
            assert(v.nodes =~= o.nodes.update(k as int, x));
            lemma_same_keys_keep_wf(o, v);
        }
        Ok(())
    }

    /// Gives the device `id` a new label and moves its version on to `now` where
    /// that is later; the version never moves back.
    pub fn relabel_device(&mut self, id: u128, label: String, now: TaiTime) -> (r: Result<(), ModelError>)
        requires
            old(self)@.wf(),
        ensures
            final(self)@.wf(),
            r is Ok <==> old(self)@.has_device(id),
            r is Err ==> r == Err::<(), ModelError>(ModelError::NotFound) && final(self)@ == old(
                self,
            )@,
            r is Ok ==> exists|k: int|
                0 <= k < old(self)@.devices.len() && old(self)@.devices[k].id == id && final(self)@ == (ModelView {
                    devices: old(self)@.devices.update(
                        k,
                        Device { label, version: old(self)@.devices[k].version.after(now), ..old(self)@.devices[k] },
                    ),
                    ..old(self)@
                }) && old(self)@.devices[k].version.le(final(self)@.devices[k].version) && (old(
                    self,
                )@.devices[k].version.lt(now) ==> old(self)@.devices[k].version.lt(final(self)@.devices[k].version)),
    {
        let found = self.device_index(id);
        if found.is_none() {
            return Err(ModelError::NotFound);
        }
        let k = found.unwrap();
        let mut x = self.devices.remove(k);
        x.label = label;
        x.version = x.version.advanced_to(now);
        self.devices.insert(k, x);
        proof {
            let o = old(self)@;
            let v = self@;
            assert(v.devices =~= o.devices.update(k as int, x));
            lemma_same_keys_keep_wf(o, v);
        }
        Ok(())
    }

    /// Gives the sender `id` a new label and moves its version on to `now` where
    /// that is later; the version never moves back.
    pub fn relabel_sender(&mut self, id: u128, label: String, now: TaiTime) -> (r: Result<(), ModelError>)
        requires
            old(self)@.wf(),
        ensures
            final(self)@.wf(),
            r is Ok <==> old(self)@.has_sender(id),
            r is Err ==> r == Err::<(), ModelError>(ModelError::NotFound) && final(self)@ == old(
                self,
            )@,
            r is Ok ==> exists|k: int|
                0 <= k < old(self)@.senders.len() && old(self)@.senders[k].id == id && final(self)@ == (ModelView {
                    senders: old(self)@.senders.update(
                        k,
                        Sender { label, version: old(self)@.senders[k].version.after(now), ..old(self)@.senders[k] },
                    ),
                    ..old(self)@
                }) && old(self)@.senders[k].version.le(final(self)@.senders[k].version) && (old(
                    self,
                )@.senders[k].version.lt(now) ==> old(self)@.senders[k].version.lt(final(self)@.senders[k].version)),
    {
        let found = self.sender_index(id);
        if found.is_none() {
            return Err(ModelError::NotFound);
        }
        let k = found.unwrap();
        let mut x = self.senders.remove(k);
        x.label = label;
        x.version = x.version.advanced_to(now);
        self.senders.insert(k, x);
        proof {
            let o = old(self)@;
            let v = self@;
            assert(v.senders =~= o.senders.update(k as int, x));
            lemma_same_keys_keep_wf(o, v);
        }
        Ok(())
    }

    /// Gives the receiver `id` a new label and moves its version on to `now` where
    /// that is later; the version never moves back.
    pub fn relabel_receiver(&mut self, id: u128, label: String, now: TaiTime) -> (r: Result<(), ModelError>)
        requires
            old(self)@.wf(),
        ensures
            final(self)@.wf(),
            r is Ok <==> old(self)@.has_receiver(id),
            r is Err ==> r == Err::<(), ModelError>(ModelError::NotFound) && final(self)@ == old(
                self,
            )@,
            r is Ok ==> exists|k: int|
                0 <= k < old(self)@.receivers.len() && old(self)@.receivers[k].id == id && final(self)@ == (ModelView {
                    receivers: old(self)@.receivers.update(
                        k,
                        Receiver { label, version: old(self)@.receivers[k].version.after(now), ..old(self)@.receivers[k] },
                    ),
                    ..old(self)@
                }) && old(self)@.receivers[k].version.le(final(self)@.receivers[k].version) && (old(
                    self,
                )@.receivers[k].version.lt(now) ==> old(self)@.receivers[k].version.lt(final(self)@.receivers[k].version)),
    {
        let found = self.receiver_index(id);
        if found.is_none() {
            return Err(ModelError::NotFound);
        }
        let k = found.unwrap();
        let mut x = self.receivers.remove(k);
        x.label = label;
        x.version = x.version.advanced_to(now);
        self.receivers.insert(k, x);
        proof {
            let o = old(self)@;
            let v = self@;
            assert(v.receivers =~= o.receivers.update(k as int, x));
            lemma_same_keys_keep_wf(o, v);
        }
        Ok(())
    }

    /// Takes `child` off the senders (or receivers) list of the device at `k`.
    fn detach_child(&mut self, k: usize, child: u128, sender: bool)
        requires
            k < old(self)@.devices.len(),
            old(self)@.unique_ids(),
        ensures
            child_detached(old(self)@.devices, final(self)@.devices, old(self)@.devices[k as int].id, child, sender),
            final(self)@.nodes == old(self)@.nodes,
            final(self)@.senders == old(self)@.senders,
            final(self)@.receivers == old(self)@.receivers,
    {
        let mut d = self.devices.remove(k);
        if sender {
            d.senders = without(&d.senders, child);
        } else {
            d.receivers = without(&d.receivers, child);
        }
        self.devices.insert(k, d);
        proof {
            let o = old(self)@.devices;
            assert(self.devices@ =~= o.update(k as int, d));
            assert forall|i: int| 0 <= i < o.len() && o[i].id == o[k as int].id implies i == k by {
                if i < k {
                    assert(o[i].id != o[k as int].id);
                } else if i > k {
                    assert(o[k as int].id != o[i].id);
                }
            }
        }
    }

    /// Removes the sender `id` and takes it off its device's list.
    pub fn remove_sender(&mut self, id: u128) -> (r: Result<(), ModelError>)
        requires
            old(self)@.wf(),
        ensures
            final(self)@.wf(),
            r is Ok <==> old(self)@.has_sender(id),
            r is Err ==> r == Err::<(), ModelError>(ModelError::NotFound) && final(self)@ == old(
                self,
            )@,
            r is Ok ==> exists|k: int|
                0 <= k < old(self)@.senders.len() && old(self)@.senders[k].id == id && final(self)@.senders
                    == old(self)@.senders.remove(k) && child_detached(
                    old(self)@.devices,
                    final(self)@.devices,
                    old(self)@.senders[k].device_id,
                    id,
                    true,
                ),
            r is Ok ==> final(self)@.nodes == old(self)@.nodes && final(self)@.receivers == old(self)@.receivers,
    {
        let found = self.sender_index(id);
        if found.is_none() {
            return Err(ModelError::NotFound);
        }
        let k = found.unwrap();
        let x = self.senders.remove(k);
        let ghost mid = self@;
        proof {
            let o = old(self)@;
            assert(o.has_device(x.device_id));
            assert forall|i: int, j: int| 0 <= i < j < mid.senders.len() implies (#[trigger] mid.senders[i]).id != (#[trigger] mid.senders[j]).id by {
                let a = if i < k { i } else { i + 1 };
                let b = if j < k { j } else { j + 1 };
                assert(mid.senders[i] == o.senders[a] && mid.senders[j] == o.senders[b]);
            }
            assert forall|i: int| 0 <= i < mid.senders.len() implies mid.has_device((#[trigger] mid.senders[i]).device_id) by {
                let a = if i < k { i } else { i + 1 };
                assert(mid.senders[i] == o.senders[a]);
            }
            assert(mid.devices == o.devices && mid.nodes == o.nodes);
            assert(mid.senders.len() <= o.senders.len() && mid.receivers.len() <= o.receivers.len());
            assert(mid.wf());
        }
        let d = self.device_index(x.device_id).unwrap();
        self.detach_child(d, id, true);
        proof {
            let v = self@;
            assert forall|i: int| 0 <= i < mid.devices.len() implies (#[trigger] v.devices[i]).id == mid.devices[i].id
                && v.devices[i].node_id == mid.devices[i].node_id by {
                assert(v.devices[i].same_but_children(mid.devices[i]) || v.devices[i] == mid.devices[i]);
            }
            lemma_same_keys_keep_wf(mid, v);
        }
        Ok(())
    }

    /// Removes the receiver `id` and takes it off its device's list.
    pub fn remove_receiver(&mut self, id: u128) -> (r: Result<(), ModelError>)
        requires
            old(self)@.wf(),
        ensures
            final(self)@.wf(),
            r is Ok <==> old(self)@.has_receiver(id),
            r is Err ==> r == Err::<(), ModelError>(ModelError::NotFound) && final(self)@ == old(
                self,
            )@,
            r is Ok ==> exists|k: int|
                0 <= k < old(self)@.receivers.len() && old(self)@.receivers[k].id == id && final(self)@.receivers
                    == old(self)@.receivers.remove(k) && child_detached(
                    old(self)@.devices,
                    final(self)@.devices,
                    old(self)@.receivers[k].device_id,
                    id,
                    false,
                ),
            r is Ok ==> final(self)@.nodes == old(self)@.nodes && final(self)@.senders == old(self)@.senders,
    {
        let found = self.receiver_index(id);
        if found.is_none() {
            return Err(ModelError::NotFound);
        }
        let k = found.unwrap();
        let x = self.receivers.remove(k);
        let ghost mid = self@;
        proof {
            let o = old(self)@;
            assert(o.has_device(x.device_id));
            assert forall|i: int, j: int| 0 <= i < j < mid.receivers.len() implies (#[trigger] mid.receivers[i]).id != (#[trigger] mid.receivers[j]).id by {
                let a = if i < k { i } else { i + 1 };
                let b = if j < k { j } else { j + 1 };
                assert(mid.receivers[i] == o.receivers[a] && mid.receivers[j] == o.receivers[b]);
            }
            assert forall|i: int| 0 <= i < mid.receivers.len() implies mid.has_device((#[trigger] mid.receivers[i]).device_id) by {
                let a = if i < k { i } else { i + 1 };
                assert(mid.receivers[i] == o.receivers[a]);
            }
            assert(mid.devices == o.devices && mid.nodes == o.nodes);
            assert(mid.senders.len() <= o.senders.len() && mid.receivers.len() <= o.receivers.len());
            assert(mid.wf());
        }
        let d = self.device_index(x.device_id).unwrap();
        self.detach_child(d, id, false);
        proof {
            let v = self@;
            assert forall|i: int| 0 <= i < mid.devices.len() implies (#[trigger] v.devices[i]).id == mid.devices[i].id
                && v.devices[i].node_id == mid.devices[i].node_id by {
                assert(v.devices[i].same_but_children(mid.devices[i]) || v.devices[i] == mid.devices[i]);
            }
            lemma_same_keys_keep_wf(mid, v);
        }
        Ok(())
    }

    /// Drops every sender of the device `device_id`, keeping the order of the rest.
    fn drop_senders_of(&mut self, device_id: u128)
        ensures
            final(self)@.senders == old(self)@.senders.filter(sender_not_of(device_id)),
            final(self)@.nodes == old(self)@.nodes,
            final(self)@.devices == old(self)@.devices,
            final(self)@.receivers == old(self)@.receivers,
    {
        let ghost orig = self.senders@;
        let mut kept: Vec<Sender> = Vec::new();
        let ghost i: int = 0;
        while self.senders.len() > 0
            invariant
                0 <= i <= orig.len(),
                self.senders@ == orig.subrange(i, orig.len() as int),
                kept@ == orig.subrange(0, i).filter(sender_not_of(device_id)),
                self.nodes == old(self).nodes,
                self.devices == old(self).devices,
                self.receivers == old(self).receivers,
                orig == old(self).senders@,
            decreases self.senders@.len(),
        {
            let x = self.senders.remove(0);
            proof {
                reveal(Seq::filter);
                assert(orig.subrange(0, i + 1).drop_last() =~= orig.subrange(0, i));
                assert(orig[i] == x);
            }
            if x.device_id != device_id {
                kept.push(x);
            }
            proof {
                i = i + 1;
                assert(self.senders@ =~= orig.subrange(i, orig.len() as int));
            }
        }
        proof {
            assert(orig.subrange(0, orig.len() as int) =~= orig);
        }
        self.senders = kept;
    }

    /// Drops every receiver of the device `device_id`, keeping the order of the rest.
    fn drop_receivers_of(&mut self, device_id: u128)
        ensures
            final(self)@.receivers == old(self)@.receivers.filter(receiver_not_of(device_id)),
            final(self)@.nodes == old(self)@.nodes,
            final(self)@.devices == old(self)@.devices,
            final(self)@.senders == old(self)@.senders,
    {
        let ghost orig = self.receivers@;
        let mut kept: Vec<Receiver> = Vec::new();
        let ghost i: int = 0;
        while self.receivers.len() > 0
            invariant
                0 <= i <= orig.len(),
                self.receivers@ == orig.subrange(i, orig.len() as int),
                kept@ == orig.subrange(0, i).filter(receiver_not_of(device_id)),
                self.nodes == old(self).nodes,
                self.devices == old(self).devices,
                self.senders == old(self).senders,
                orig == old(self).receivers@,
            decreases self.receivers@.len(),
        {
            let x = self.receivers.remove(0);
            proof {
                reveal(Seq::filter);
                assert(orig.subrange(0, i + 1).drop_last() =~= orig.subrange(0, i));
                assert(orig[i] == x);
            }
            if x.device_id != device_id {
                kept.push(x);
            }
            proof {
                i = i + 1;
                assert(self.receivers@ =~= orig.subrange(i, orig.len() as int));
            }
        }
        proof {
            assert(orig.subrange(0, orig.len() as int) =~= orig);
        }
        self.receivers = kept;
    }

    /// Whether a sender or receiver of the device `id` is present.
    fn device_has_children(&self, id: u128) -> (r: bool)
        ensures
            r == self@.device_has_children(id),
    {
        let mut k: usize = 0;
        while k < self.senders.len()
            invariant
                k <= self.senders@.len(),
                forall|i: int| 0 <= i < k ==> (#[trigger] self.senders@[i]).device_id != id,
            decreases self.senders@.len() - k,
        {
            if self.senders[k].device_id == id {
                return true;
            }
            k = k + 1;
        }
        let mut k: usize = 0;
        while k < self.receivers.len()
            invariant
                k <= self.receivers@.len(),
                forall|i: int| 0 <= i < self.senders@.len() ==> (#[trigger] self.senders@[i]).device_id != id,
                forall|i: int| 0 <= i < k ==> (#[trigger] self.receivers@[i]).device_id != id,
            decreases self.receivers@.len() - k,
        {
            if self.receivers[k].device_id == id {
                return true;
            }
            k = k + 1;
        }
        false
    }

    /// The place of the first device of the node `id`.
    fn first_device_of(&self, id: u128) -> (r: Option<usize>)
        ensures
            r is None <==> !self@.node_has_children(id),
            r matches Some(k) ==> k < self@.devices.len() && self@.devices[k as int].node_id == id,
    {
        let mut k: usize = 0;
        while k < self.devices.len()
            invariant
                k <= self.devices@.len(),
                forall|i: int| 0 <= i < k ==> (#[trigger] self.devices@[i]).node_id != id,
            decreases self.devices@.len() - k,
        {
            if self.devices[k].node_id == id {
                proof {
                    assert(self@.devices[k as int].node_id == id);
                }
                return Some(k);
            }
            k = k + 1;
        }
        None
    }

    /// Removes the device `id`. Where it still has senders or receivers it is
    /// refused, unless `cascade` asks that they be removed first.
    pub fn remove_device(&mut self, id: u128, cascade: bool) -> (r: Result<(), ModelError>)
        requires
            old(self)@.wf(),
        ensures
            final(self)@.wf(),
            !old(self)@.has_device(id) ==> r == Err::<(), ModelError>(ModelError::NotFound),
            old(self)@.has_device(id) && old(self)@.device_has_children(id) && !cascade ==> r == Err::<
                (),
                ModelError,
            >(ModelError::Constraint),
            r is Ok <==> old(self)@.has_device(id) && (cascade || !old(self)@.device_has_children(id)),
            r is Err ==> final(self)@ == old(self)@,
            r is Ok ==> exists|k: int|
                0 <= k < old(self)@.devices.len() && old(self)@.devices[k].id == id
                    && final(self)@.devices == old(self)@.devices.remove(k)
                    && final(self)@.senders == old(self)@.senders.filter(sender_not_of(id))
                    && final(self)@.receivers == old(self)@.receivers.filter(receiver_not_of(id))
                    && device_linked(
                    old(self)@.nodes,
                    final(self)@.nodes,
                    old(self)@.devices[k].node_id,
                    id,
                    false,
                ),
    {
        let found = self.device_index(id);
        if found.is_none() {
            return Err(ModelError::NotFound);
        }
        if !cascade && self.device_has_children(id) {
            return Err(ModelError::Constraint);
        }
        let k = found.unwrap();
        let parent = self.devices[k].node_id;
        self.drop_senders_of(id);
        self.drop_receivers_of(id);
        self.devices.remove(k);
        proof {
            let o = old(self)@;
            let v = self@;
            lemma_filter_distinct(o.senders, |x: Sender| x.id, sender_not_of(id));
            lemma_filter_distinct(o.receivers, |x: Receiver| x.id, receiver_not_of(id));
            assert forall|x: u128| o.has_device(x) && x != id implies v.has_device(x) by {
                let j = choose|j: int| 0 <= j < o.devices.len() && (#[trigger] o.devices[j]).id == x;
                if j < k {
                    assert(v.devices[j] == o.devices[j]);
                } else {
                    assert(j != k);
                    assert(v.devices[j - 1] == o.devices[j]);
                }
            }
            assert forall|i: int| 0 <= i < v.senders.len() implies v.has_device((#[trigger] v.senders[i]).device_id) by {
                assert(sender_not_of(id)(v.senders[i]));
                assert(o.senders.contains(v.senders[i]));
                let j = choose|j: int| 0 <= j < o.senders.len() && o.senders[j] == v.senders[i];
                assert(o.has_device(o.senders[j].device_id));
            }
            assert forall|i: int| 0 <= i < v.receivers.len() implies v.has_device((#[trigger] v.receivers[i]).device_id) by {
                assert(receiver_not_of(id)(v.receivers[i]));
                assert(o.receivers.contains(v.receivers[i]));
                let j = choose|j: int| 0 <= j < o.receivers.len() && o.receivers[j] == v.receivers[i];
                assert(o.has_device(o.receivers[j].device_id));
            }
            assert forall|i: int, j: int| 0 <= i < j < v.devices.len() implies (#[trigger] v.devices[i]).id != (#[trigger] v.devices[j]).id by {
                let a = if i < k { i } else { i + 1 };
                let b = if j < k { j } else { j + 1 };
                assert(v.devices[i] == o.devices[a] && v.devices[j] == o.devices[b]);
            }
            assert forall|i: int| 0 <= i < v.devices.len() implies v.has_node((#[trigger] v.devices[i]).node_id) by {
                let a = if i < k { i } else { i + 1 };
                assert(v.devices[i] == o.devices[a]);
                assert(o.has_node(o.devices[a].node_id));
                assert(v.nodes == o.nodes);
            }
            assert(parent == o.devices[k as int].node_id);
            assert(o.has_node(parent));
            assert(v.nodes == o.nodes);
            assert(v.has_node(parent));
        }
        let ghost mid = self@;
        match self.node_index(parent) {
            Some(nk) => {
                self.link_device(nk, id, false);
                proof {
                    let v = self@;
                    lemma_linked_keeps_nodes(mid.nodes, v.nodes, parent, id, false);
                    lemma_same_keys_keep_wf(mid, v);
                }
            },
            None => {},
        }
        Ok(())
    }

    /// Removes the node `id`. Where devices of it are present it is refused, unless
    /// `cascade` asks that they, with their senders and receivers, be removed first.
    pub fn remove_node(&mut self, id: u128, cascade: bool) -> (r: Result<(), ModelError>)
        requires
            old(self)@.wf(),
        ensures
            final(self)@.wf(),
            !old(self)@.has_node(id) ==> r == Err::<(), ModelError>(ModelError::NotFound),
            old(self)@.has_node(id) && old(self)@.node_has_children(id) && !cascade ==> r == Err::<
                (),
                ModelError,
            >(ModelError::Constraint),
            r is Ok <==> old(self)@.has_node(id) && (cascade || !old(self)@.node_has_children(id)),
            r is Err ==> final(self)@ == old(self)@,
            r is Ok ==> final(self)@ == (ModelView {
                nodes: Seq::empty(),
                devices: old(self)@.devices.filter(device_not_of(id)),
                senders: old(self)@.senders.filter(sender_outside(old(self)@.devices, id)),
                receivers: old(self)@.receivers.filter(receiver_outside(old(self)@.devices, id)),
            }),
    {
        let found = self.node_index(id);
        if found.is_none() {
            return Err(ModelError::NotFound);
        }
        if !cascade && self.first_device_of(id).is_some() {
            return Err(ModelError::Constraint);
        }
        let k = found.unwrap();
        let ghost o = self@;
        let ghost dp = device_not_of(id);
        let ghost sq = sender_outside(o.devices, id);
        let ghost rq = receiver_outside(o.devices, id);
        loop
            invariant
                self@.wf(),
                o.wf(),
                o == old(self)@,
                dp == device_not_of(id),
                sq == sender_outside(o.devices, id),
                rq == receiver_outside(o.devices, id),
                self@.nodes.len() == o.nodes.len(),
                forall|i: int| 0 <= i < o.nodes.len() ==> (#[trigger] self@.nodes[i]).id == o.nodes[i].id,
                self@.devices.filter(dp) == o.devices.filter(dp),
                self@.senders.filter(sq) == o.senders.filter(sq),
                self@.receivers.filter(rq) == o.receivers.filter(rq),
                forall|i: int| 0 <= i < self@.devices.len() ==> o.devices.contains(#[trigger] self@.devices[i]),
                k < o.nodes.len() && o.nodes[k as int].id == id,
            ensures
                self@.wf(),
                self@.nodes.len() == o.nodes.len(),
                forall|i: int| 0 <= i < o.nodes.len() ==> (#[trigger] self@.nodes[i]).id == o.nodes[i].id,
                self@.devices.filter(dp) == o.devices.filter(dp),
                self@.senders.filter(sq) == o.senders.filter(sq),
                self@.receivers.filter(rq) == o.receivers.filter(rq),
                forall|i: int| 0 <= i < self@.devices.len() ==> o.devices.contains(#[trigger] self@.devices[i]),
                !self@.node_has_children(id),
            decreases self@.devices.len(),
        {
            let x = match self.first_device_of(id) {
                Some(x) => x,
                None => break,
            };
            let did = self.devices[x].id;
            let ghost before = self@;
            let _ = self.remove_device(did, true);
            proof {
                let kk = choose|kk: int|
                    0 <= kk < before.devices.len() && before.devices[kk].id == did
                        && self@.devices == before.devices.remove(kk)
                        && self@.senders == before.senders.filter(sender_not_of(did))
                        && self@.receivers == before.receivers.filter(receiver_not_of(did))
                        && device_linked(before.nodes, self@.nodes, before.devices[kk].node_id, did, false);
                lemma_linked_keeps_nodes(before.nodes, self@.nodes, before.devices[kk].node_id, did, false);
                if kk != x {
                    if kk < x {
                        assert(before.devices[kk].id != before.devices[x as int].id);
                    } else {
                        assert(before.devices[x as int].id != before.devices[kk].id);
                    }
                }
                assert(before.devices[x as int].node_id == id);
                assert(!dp(before.devices[x as int]));
                lemma_filter_remove(before.devices, dp, x as int);
                assert(o.devices.contains(before.devices[x as int]));
                let j = choose|j: int| 0 <= j < o.devices.len() && o.devices[j] == before.devices[x as int];
                assert(o.devices[j].id == did && o.devices[j].node_id == id);
                assert(device_of_node(o.devices, did, id));
                assert forall|e: Sender| #[trigger] sq(e) implies sender_not_of(did)(e) by {
                    if e.device_id == did {
                        assert(device_of_node(o.devices, e.device_id, id));
                    }
                }
                assert forall|e: Receiver| #[trigger] rq(e) implies receiver_not_of(did)(e) by {
                    if e.device_id == did {
                        assert(device_of_node(o.devices, e.device_id, id));
                    }
                }
                lemma_filter_weaker(before.senders, sender_not_of(did), sq);
                lemma_filter_weaker(before.receivers, receiver_not_of(did), rq);
                assert forall|i: int| 0 <= i < self@.devices.len() implies o.devices.contains(
                    #[trigger] self@.devices[i],
                ) by {
                    let a = if i < x { i } else { i + 1 };
                    assert(self@.devices[i] == before.devices[a]);
                    assert(o.devices.contains(before.devices[a]));
                }
            }
        }
        proof {
            let v = self@;
            assert forall|i: int| 0 <= i < v.devices.len() implies dp(#[trigger] v.devices[i]) by {
                if v.devices[i].node_id == id {
                    assert(v.node_has_children(id));
                }
            }
            lemma_filter_all(v.devices, dp);
            assert forall|i: int| 0 <= i < v.senders.len() implies sq(#[trigger] v.senders[i]) by {
                let s = v.senders[i];
                assert(v.has_device(s.device_id));
                let j = choose|j: int| 0 <= j < v.devices.len() && (#[trigger] v.devices[j]).id == s.device_id;
                assert(dp(v.devices[j]));
                assert(o.devices.contains(v.devices[j]));
                if device_of_node(o.devices, s.device_id, id) {
                    let m = choose|m: int| 0 <= m < o.devices.len() && (#[trigger] o.devices[m]).id == s.device_id && o.devices[m].node_id == id;
                    let n = choose|n: int| 0 <= n < o.devices.len() && o.devices[n] == v.devices[j];
                    if m < n {
                        assert(o.devices[m].id != o.devices[n].id);
                    } else if n < m {
                        assert(o.devices[n].id != o.devices[m].id);
                    }
                }
            }
            assert forall|i: int| 0 <= i < v.receivers.len() implies rq(#[trigger] v.receivers[i]) by {
                let s = v.receivers[i];
                assert(v.has_device(s.device_id));
                let j = choose|j: int| 0 <= j < v.devices.len() && (#[trigger] v.devices[j]).id == s.device_id;
                assert(dp(v.devices[j]));
                assert(o.devices.contains(v.devices[j]));
                if device_of_node(o.devices, s.device_id, id) {
                    let m = choose|m: int| 0 <= m < o.devices.len() && (#[trigger] o.devices[m]).id == s.device_id && o.devices[m].node_id == id;
                    let n = choose|n: int| 0 <= n < o.devices.len() && o.devices[n] == v.devices[j];
                    if m < n {
                        assert(o.devices[m].id != o.devices[n].id);
                    } else if n < m {
                        assert(o.devices[n].id != o.devices[m].id);
                    }
                }
            }
            lemma_filter_all(v.senders, sq);
            lemma_filter_all(v.receivers, rq);
        }
        let ghost mid = self@;
        self.nodes.remove(k);
        proof {
            let v = self@;
            assert(v.devices == mid.devices && v.senders == mid.senders && v.receivers == mid.receivers);
            assert forall|i: int| 0 <= i < v.senders.len() implies v.has_device((#[trigger] v.senders[i]).device_id) by {
                assert(mid.has_device(mid.senders[i].device_id));
            }
            assert forall|i: int| 0 <= i < v.receivers.len() implies v.has_device((#[trigger] v.receivers[i]).device_id) by {
                assert(mid.has_device(mid.receivers[i].device_id));
            }
            assert forall|i: int| 0 <= i < v.devices.len() implies v.has_node((#[trigger] v.devices[i]).node_id) by {
                let x = mid.devices[i].node_id;
                assert(mid.has_node(x));
                if x == id {
                    assert(mid.node_has_children(id));
                }
                let j = choose|j: int| 0 <= j < mid.nodes.len() && (#[trigger] mid.nodes[j]).id == x;
                if j < k {
                    assert(v.nodes[j] == mid.nodes[j]);
                } else {
                    assert(j != k);
                    assert(v.nodes[j - 1] == mid.nodes[j]);
                }
            }
            assert forall|i: int, j: int| 0 <= i < j < v.nodes.len() implies (#[trigger] v.nodes[i]).id != (#[trigger] v.nodes[j]).id by {
                let a = if i < k { i } else { i + 1 };
                let b = if j < k { j } else { j + 1 };
                assert(v.nodes[i] == mid.nodes[a] && v.nodes[j] == mid.nodes[b]);
            }
        }
        proof {
            assert(self@.nodes =~= Seq::<Node>::empty());
        }
        Ok(())
    }
}

} // verus!
