use nmos_node::registry::{
    parse_candidate, CandidateError, DiscoveryEvent, EventOutcome, Registry, Selector,
};
use nmos_node::tai::TaiTime;

fn txt(pairs: &[(&str, &str)]) -> Vec<(String, String)> {
    pairs.iter().map(|(k, v)| (k.to_string(), v.to_string())).collect()
}

fn at(seconds: u64) -> TaiTime {
    TaiTime::new(seconds, 0).unwrap()
}

fn registry(priority: u64) -> Registry {
    Registry {
        host: "host".to_string(),
        port: 80,
        priority,
        api_version: "v1.3".to_string(),
    }
}

fn active_name(s: &Selector) -> Option<String> {
    s.active().map(|c| c.name.clone())
}

#[test]
fn selector_prefers_lowest_priority_then_earliest() {
    let mut s = Selector::new();
    assert!(s.resolved("A".to_string(), registry(10), at(1)));
    assert!(s.resolved("B".to_string(), registry(5), at(2)));
    assert!(!s.resolved("C".to_string(), registry(5), at(3)));
    assert_eq!(active_name(&s), Some("B".to_string()));
    assert!(s.lost(&"B".to_string()));
    assert_eq!(active_name(&s), Some("C".to_string()));
    assert!(s.lost(&"C".to_string()));
    assert_eq!(active_name(&s), Some("A".to_string()));
    assert!(s.lost(&"A".to_string()));
    assert_eq!(active_name(&s), None);
    assert!(s.candidates().is_empty());
}

#[test]
fn equal_priority_and_time_keeps_first_arrival() {
    let mut s = Selector::new();
    s.resolved("X".to_string(), registry(3), at(7));
    s.resolved("Y".to_string(), registry(3), at(7));
    assert_eq!(active_name(&s), Some("X".to_string()));
}

#[test]
fn losing_inactive_candidate_changes_nothing() {
    let mut s = Selector::new();
    s.resolved("A".to_string(), registry(1), at(1));
    s.resolved("B".to_string(), registry(2), at(2));
    assert!(!s.lost(&"B".to_string()));
    assert!(!s.lost(&"nobody".to_string()));
    assert_eq!(active_name(&s), Some("A".to_string()));
}

#[test]
fn re_resolution_can_change_the_active_candidate() {
    let mut s = Selector::new();
    s.resolved("A".to_string(), registry(1), at(1));
    s.resolved("B".to_string(), registry(2), at(2));
    assert!(s.resolved("B".to_string(), registry(0), at(9)));
    assert_eq!(active_name(&s), Some("B".to_string()));
    assert_eq!(s.candidates().len(), 2);
    assert_eq!(s.candidates()[1].discovered, at(2));
    assert!(s.resolved("B".to_string(), registry(0), at(10)));
}

#[test]
fn parse_reads_priority_and_version() {
    let r = parse_candidate(
        "10.0.0.1".to_string(),
        8235,
        &txt(&[("api_proto", "http"), ("pri", "100"), ("api_ver", "v1.0,v1.1")]),
    )
    .unwrap();
    assert_eq!(r.priority, 100);
    assert_eq!(r.port, 8235);
    assert_eq!(r.host, "10.0.0.1");
    assert_eq!(r.api_version, "v1.0,v1.1");
}

#[test]
fn parse_errors() {
    let e = |t: &[(&str, &str)]| parse_candidate("h".to_string(), 1, &txt(t)).unwrap_err();
    assert_eq!(e(&[("api_ver", "v1.0")]), CandidateError::MissingPriority);
    assert_eq!(e(&[("pri", "ten"), ("api_ver", "v1.0")]), CandidateError::BadPriority);
    assert_eq!(e(&[("pri", ""), ("api_ver", "v1.0")]), CandidateError::BadPriority);
    assert_eq!(
        e(&[("pri", "18446744073709551616"), ("api_ver", "v1.0")]),
        CandidateError::BadPriority
    );
    assert_eq!(e(&[("pri", "5")]), CandidateError::MissingVersion);
    assert_eq!(e(&[("pri", "5"), ("api_ver", "v2.0")]), CandidateError::UnsupportedVersion);
}

#[test]
fn parse_takes_largest_priority() {
    let r = parse_candidate(
        "h".to_string(),
        1,
        &txt(&[("pri", "18446744073709551615"), ("api_ver", "v1.3")]),
    )
    .unwrap();
    assert_eq!(r.priority, u64::MAX);
}

#[test]
fn candidate_without_priority_never_enters() {
    let mut s = Selector::new();
    let out = s.handle_event(
        DiscoveryEvent::Resolved {
            name: "R".to_string(),
            host: "h".to_string(),
            port: 1,
            txt: txt(&[("api_ver", "v1.2")]),
        },
        at(1),
    );
    assert_eq!(out, EventOutcome::Rejected(CandidateError::MissingPriority));
    assert!(s.candidates().is_empty());
    assert!(s.active().is_none());
}

#[test]
fn events_drive_the_selection() {
    let mut s = Selector::new();
    let resolved = |name: &str, pri: &str| DiscoveryEvent::Resolved {
        name: name.to_string(),
        host: "h".to_string(),
        port: 1,
        txt: txt(&[("pri", pri), ("api_ver", "v1.3")]),
    };
    assert_eq!(s.handle_event(DiscoveryEvent::Found("A".to_string()), at(0)), EventOutcome::Unchanged);
    assert_eq!(s.handle_event(resolved("A", "10"), at(1)), EventOutcome::ActiveChanged);
    assert_eq!(s.handle_event(resolved("B", "20"), at(2)), EventOutcome::Unchanged);
    assert_eq!(s.handle_event(DiscoveryEvent::Error("timeout".to_string()), at(3)), EventOutcome::Unchanged);
    assert_eq!(s.handle_event(DiscoveryEvent::Lost("A".to_string()), at(4)), EventOutcome::ActiveChanged);
    assert_eq!(active_name(&s), Some("B".to_string()));
    assert_eq!(s.active().unwrap().registry.priority, 20);
}
