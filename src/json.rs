use vstd::prelude::*;

use crate::resource::Device;
use crate::tai::{NANOS_PER_SECOND, TaiTime};
use crate::text::{
    lemma_uuid_round_trip, lemma_version_round_trip, uuid_from_text, uuid_of_text, uuid_text,
    uuid_to_text, version_from_text, version_of_text, version_text,
};

verus! {

/// The wire projection of a device: identifiers as hyphenated lower-case UUID
/// text and the version as `<seconds>:<nanoseconds>`.
#[derive(Debug)]
pub struct DeviceJson {
    pub id: String,
    pub version: String,
    pub label: String,
    pub type_: String,
    pub node_id: String,
    pub senders: Vec<String>,
    pub receivers: Vec<String>,
}

/// `texts` holds the UUID texts of `ids`, in order.
pub open spec fn texts_of_ids(texts: Seq<String>, ids: Seq<u128>) -> bool {
    texts.len() == ids.len() && forall|i: int| 0 <= i < ids.len() ==> (#[trigger] texts[i])@ == uuid_text(ids[i])
}

/// Each of `texts` reads as the UUID in the same place of `ids`.
pub open spec fn ids_of_texts(texts: Seq<String>, ids: Seq<u128>) -> bool {
    texts.len() == ids.len() && forall|i: int| 0 <= i < ids.len() ==> uuid_of_text((#[trigger] texts[i])@) == Some(ids[i] as nat)
}

/// Every text of `texts` reads as a UUID.
pub open spec fn all_uuid_texts(texts: Seq<String>) -> bool {
    forall|i: int| 0 <= i < texts.len() ==> uuid_of_text((#[trigger] texts[i])@) is Some
}

impl DeviceJson {
    /// This is the projection of `d`.
    pub open spec fn projects(self, d: Device) -> bool {
        &&& self.id@ == uuid_text(d.id)
        &&& self.version@ == version_text(d.version.seconds as nat, d.version.nanoseconds as nat)
        &&& self.label@ == d.label@
        &&& self.type_@ == d.type_@
        &&& self.node_id@ == uuid_text(d.node_id)
        &&& texts_of_ids(self.senders@, d.senders@)
        &&& texts_of_ids(self.receivers@, d.receivers@)
    }

    /// Every field reads back: UUID texts, and a version whose nanoseconds are
    /// below one second.
    pub open spec fn is_valid(self) -> bool {
        &&& uuid_of_text(self.id@) is Some
        &&& uuid_of_text(self.node_id@) is Some
        &&& version_of_text(self.version@) matches Some((s, n)) && n < NANOS_PER_SECOND
        &&& all_uuid_texts(self.senders@)
        &&& all_uuid_texts(self.receivers@)
    }

    /// `d` is what this reads back as.
    pub open spec fn decodes_to(self, d: Device) -> bool {
        &&& uuid_of_text(self.id@) == Some(d.id as nat)
        &&& version_of_text(self.version@) == Some(
            (d.version.seconds as nat, d.version.nanoseconds as nat),
        )
        &&& d.label@ == self.label@
        &&& d.type_@ == self.type_@
        &&& uuid_of_text(self.node_id@) == Some(d.node_id as nat)
        &&& ids_of_texts(self.senders@, d.senders@)
        &&& ids_of_texts(self.receivers@, d.receivers@)
    }
}

fn ids_to_texts(ids: &Vec<u128>) -> (r: Vec<String>)
    ensures
        texts_of_ids(r@, ids@),
{
    let mut out: Vec<String> = Vec::new();
    let mut i: usize = 0;
    while i < ids.len()
        invariant
            i <= ids@.len(),
            out@.len() == i,
            forall|j: int| 0 <= j < i ==> (#[trigger] out@[j])@ == uuid_text(ids@[j]),
        decreases ids@.len() - i,
    {
        out.push(uuid_to_text(ids[i]));
        i = i + 1;
    }
    out
}

fn ids_from_texts(texts: &Vec<String>) -> (r: Option<Vec<u128>>)
    ensures
        r is Some <==> all_uuid_texts(texts@),
        r matches Some(ids) ==> ids_of_texts(texts@, ids@),
{
    let mut out: Vec<u128> = Vec::new();
    let mut i: usize = 0;
    while i < texts.len()
        invariant
            i <= texts@.len(),
            out@.len() == i,
            forall|j: int| 0 <= j < i ==> uuid_of_text((#[trigger] texts@[j])@) == Some(out@[j] as nat),
        decreases texts@.len() - i,
    {
        match uuid_from_text(texts[i].as_str()) {
            Some(v) => out.push(v),
            None => return None,
        }
        i = i + 1;
    }
    Some(out)
}

impl Device {
    /// The wire projection of this device.
    pub fn to_json(&self) -> (r: DeviceJson)
        ensures
            r.projects(*self),
    {
        DeviceJson {
            id: uuid_to_text(self.id),
            version: version_to_text_of(&self.version),
            label: self.label.clone(),
            type_: self.type_.clone(),
            node_id: uuid_to_text(self.node_id),
            senders: ids_to_texts(&self.senders),
            receivers: ids_to_texts(&self.receivers),
        }
    }

    /// Reads a device back from its wire projection; `None` where a field does not
    /// read back.
    pub fn from_json(j: &DeviceJson) -> (r: Option<Device>)
        ensures
            r is Some <==> j.is_valid(),
            r matches Some(d) ==> j.decodes_to(d) && d.version.wf(),
    {
        let id = uuid_from_text(j.id.as_str())?;
        let node_id = uuid_from_text(j.node_id.as_str())?;
        let (seconds, nanoseconds) = version_from_text(j.version.as_str())?;
        if nanoseconds >= NANOS_PER_SECOND as u64 {
            return None;
        }
        let senders = ids_from_texts(&j.senders)?;
        let receivers = ids_from_texts(&j.receivers)?;
        Some(
            Device {
                id,
                version: TaiTime { seconds, nanoseconds: nanoseconds as u32 },
                label: j.label.clone(),
                type_: j.type_.clone(),
                node_id,
                senders,
                receivers,
            },
        )
    }
}

fn version_to_text_of(v: &TaiTime) -> (r: String)
    ensures
        r@ == version_text(v.seconds as nat, v.nanoseconds as nat),
{
    crate::text::version_to_text(v.seconds, v.nanoseconds)
}

/// Reading back a device's wire projection gives its identifier, version, label,
/// type, node and lists of senders and receivers exactly.
pub proof fn lemma_device_json_round_trip(d: Device, j: DeviceJson)
    requires
        d.version.wf(),
        j.projects(d),
    ensures
        j.is_valid(),
        forall|e: Device|
            j.decodes_to(e) ==> e.id == d.id && e.version == d.version && e.label@ == d.label@
                && e.type_@ == d.type_@ && e.node_id == d.node_id && e.senders@ == d.senders@
                && e.receivers@ == d.receivers@,
{
    lemma_uuid_round_trip(d.id);
    lemma_uuid_round_trip(d.node_id);
    lemma_version_round_trip(d.version.seconds, d.version.nanoseconds);
    assert forall|i: int| 0 <= i < d.senders@.len() implies uuid_of_text((#[trigger] j.senders@[i])@)
        == Some(d.senders@[i] as nat) by {
        lemma_uuid_round_trip(d.senders@[i]);
    }
    assert forall|i: int| 0 <= i < d.receivers@.len() implies uuid_of_text(
        (#[trigger] j.receivers@[i])@,
    ) == Some(d.receivers@[i] as nat) by {
        lemma_uuid_round_trip(d.receivers@[i]);
    }
    assert forall|e: Device| j.decodes_to(e) implies e.id == d.id && e.version == d.version
        && e.label@ == d.label@ && e.type_@ == d.type_@ && e.node_id == d.node_id && e.senders@
        == d.senders@ && e.receivers@ == d.receivers@ by {
        assert forall|i: int| 0 <= i < d.senders@.len() implies e.senders@[i] == d.senders@[i] by {
            assert(uuid_of_text(j.senders@[i]@) == Some(e.senders@[i] as nat));
        }
        assert forall|i: int| 0 <= i < d.receivers@.len() implies e.receivers@[i] == d.receivers@[i] by {
            assert(uuid_of_text(j.receivers@[i]@) == Some(e.receivers@[i] as nat));
        }
        assert(e.senders@ =~= d.senders@);
        assert(e.receivers@ =~= d.receivers@);
    }
}

} // verus!
