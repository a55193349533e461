use nmos_node::json::DeviceJson;
use nmos_node::resource::{Device, NodeBuilder};
use nmos_node::tai::{TaiTime, TimeSource};
use nmos_node::text::{uuid_from_text, uuid_to_text, version_from_text, version_to_text};

#[test]
fn uuid_text_matches_the_uuid_crate() {
    for v in [0u128, 1, u128::MAX, 0xa1a2a3a4b1b2c1c2d1d2d3d4d5d6d7d8] {
        let expected = uuid::Uuid::from_u128(v).hyphenated().to_string();
        assert_eq!(uuid_to_text(v), expected);
        assert_eq!(uuid_from_text(&expected), Some(v));
    }
    assert_eq!(uuid_to_text(0xa1a2a3a4b1b2c1c2d1d2d3d4d5d6d7d8), "a1a2a3a4-b1b2-c1c2-d1d2-d3d4d5d6d7d8");
}

#[test]
fn uuid_text_rejects_other_shapes() {
    assert_eq!(uuid_from_text("A1A2A3A4-B1B2-C1C2-D1D2-D3D4D5D6D7D8"), None);
    assert_eq!(uuid_from_text("a1a2a3a4b1b2c1c2d1d2d3d4d5d6d7d8"), None);
    assert_eq!(uuid_from_text("a1a2a3a4-b1b2-c1c2-d1d2-d3d4d5d6d7d"), None);
    assert_eq!(uuid_from_text("a1a2a3a4-b1b2-c1c2-d1d2+d3d4d5d6d7d8"), None);
    assert_eq!(uuid_from_text(""), None);
}

#[test]
fn version_text_is_seconds_colon_nanoseconds() {
    assert_eq!(version_to_text(1439299836, 10), "1439299836:10");
    assert_eq!(version_to_text(0, 0), "0:0");
    assert_eq!(version_to_text(u64::MAX, 999_999_999), "18446744073709551615:999999999");
    assert_eq!(version_from_text("1439299836:10"), Some((1439299836, 10)));
    assert_eq!(version_from_text("12"), None);
    assert_eq!(version_from_text(":1"), None);
    assert_eq!(version_from_text("1:"), None);
    assert_eq!(version_from_text("1:2:3"), None);
}

#[test]
fn device_projection_fields() {
    let mut clock = TimeSource::new();
    let node = NodeBuilder::new("n".to_string()).build(&mut clock);
    let mut d = Device::builder(&node, "urn:x-nmos:device:generic".to_string())
        .label("cam".to_string())
        .build(&mut clock);
    d.version = TaiTime::new(12, 34).unwrap();
    d.senders = vec![1, 2];
    d.receivers = vec![u128::MAX];
    let j = d.to_json();
    assert_eq!(j.id, uuid::Uuid::from_u128(d.id).to_string());
    assert_eq!(j.node_id, uuid::Uuid::from_u128(node.id).to_string());
    assert_eq!(j.version, "12:34");
    assert_eq!(j.label, "cam");
    assert_eq!(j.type_, "urn:x-nmos:device:generic");
    assert_eq!(j.senders, vec![uuid_to_text(1), uuid_to_text(2)]);
    assert_eq!(j.receivers, vec!["ffffffff-ffff-ffff-ffff-ffffffffffff".to_string()]);
}

#[test]
fn device_projection_round_trip() {
    let mut clock = TimeSource::new();
    let node = NodeBuilder::new("n".to_string()).build(&mut clock);
    let mut d = Device::builder(&node, "t".to_string()).label("l".to_string()).build(&mut clock);
    d.senders = vec![7, 8, 9];
    d.receivers = vec![10];
    let back = Device::from_json(&d.to_json()).unwrap();
    assert_eq!(back.id, d.id);
    assert_eq!(back.version, d.version);
    assert_eq!(back.label, d.label);
    assert_eq!(back.type_, d.type_);
    assert_eq!(back.node_id, d.node_id);
    assert_eq!(back.senders, d.senders);
    assert_eq!(back.receivers, d.receivers);
}

#[test]
fn device_projection_with_bad_fields_is_refused() {
    let mut clock = TimeSource::new();
    let node = NodeBuilder::new("n".to_string()).build(&mut clock);
    let d = Device::builder(&node, "t".to_string()).build(&mut clock);
    let mut j: DeviceJson = d.to_json();
    j.version = "1:1000000000".to_string();
    assert!(Device::from_json(&j).is_none());
    let mut j = d.to_json();
    j.senders.push("nope".to_string());
    assert!(Device::from_json(&j).is_none());
    let mut j = d.to_json();
    j.id = String::new();
    assert!(Device::from_json(&j).is_none());
}
