use std::collections::HashMap;

use serde_json::Value;
use umai_core::addr::Ipv4Addr;
use umai_core::entry::IntelEntry;
use umai_core::feed::{plan_pull, plan_writes, Bundle, Classified, Indicator, PullPlan, XUmai};
use umai_core::monitor::{after_lookup, umai_monitor, MonitorStep, XdpAction};

fn object(members: &[(&str, Value)]) -> Value {
    let mut map = serde_json::Map::new();
    for (name, value) in members {
        map.insert(name.to_string(), value.clone());
    }
    Value::Object(map)
}

fn text(text: &str) -> Value {
    Value::String(text.to_string())
}

fn indicator(kind: &str, value: &str) -> Value {
    object(&[("x_umai_kind", text(kind)), ("x_umai_value", text(value))])
}

fn bundle(objects: Vec<Value>, cursor_next: Option<&str>) -> Bundle {
    Bundle {
        objects,
        x_umai: Some(XUmai { cursor_next: cursor_next.map(|cursor| cursor.to_string()) }),
    }
}

fn addresses(plan: &PullPlan) -> Vec<Ipv4Addr> {
    plan.writes.iter().map(|write| write.addr).collect()
}

#[test]
fn members_are_read_from_objects() {
    let read = Indicator::from_object(&indicator("IPV4", "1.2.3.4"));
    assert_eq!(read.kind, "IPV4");
    assert_eq!(read.value, "1.2.3.4");
}

#[test]
fn missing_or_mistyped_members_are_empty() {
    for value in [
        Value::Null,
        Value::Bool(true),
        text("x_umai_kind"),
        Value::Array(vec![text("x_umai_kind")]),
        object(&[]),
        object(&[("x_umai_kind", Value::Bool(true)), ("x_umai_value", Value::Null)]),
        object(&[("kind", text("IPV4")), ("value", text("1.2.3.4"))]),
    ] {
        let read = Indicator::from_object(&value);
        assert_eq!(read.kind, "");
        assert_eq!(read.value, "");
        assert_eq!(read.classify(), Classified::NotIpv4);
    }
}

#[test]
fn indicators_are_classified() {
    let classify = |kind: &str, value: &str| {
        Indicator { kind: kind.to_string(), value: value.to_string() }.classify()
    };
    assert_eq!(classify("IPV4", "1.2.3.4"), Classified::Address(Ipv4Addr::new(1, 2, 3, 4)));
    assert_eq!(classify("IPV4", "1.2.3.4/24"), Classified::Unreadable);
    assert_eq!(classify("IPV4", ""), Classified::Unreadable);
    assert_eq!(classify("IPV6", "1.2.3.4"), Classified::NotIpv4);
    assert_eq!(classify("ipv4", "1.2.3.4"), Classified::NotIpv4);
    assert_eq!(classify("", "1.2.3.4"), Classified::NotIpv4);
}

#[test]
fn a_pull_is_planned_in_order() {
    let objects = vec![
        indicator("IPV4", "10.0.0.7"),
        indicator("JA4", "t13d1516h2_8daaf6152771_b186095e22b6"),
        indicator("IPV4", "not an address"),
        indicator("IPV4", "203.0.113.9"),
        Value::Null,
        indicator("IPV4", "10.0.0.7"),
    ];
    let plan = plan_pull(bundle(objects, Some("page-2")));
    assert_eq!(
        addresses(&plan),
        vec![
            Ipv4Addr::new(10, 0, 0, 7),
            Ipv4Addr::new(203, 0, 113, 9),
            Ipv4Addr::new(10, 0, 0, 7),
        ]
    );
    assert_eq!(plan.writes[1].key_be.to_ne_bytes(), [203, 0, 113, 9]);
    assert_eq!(plan.writes[1].key_be, 0xcb00_7109u32.to_be());
    assert_eq!(plan.writes[1].entry.ipv4_be, 0xcb00_7109u32.to_be());
    assert_eq!(plan.skipped_non_ipv4, 2);
    assert_eq!(plan.bundle_size, 6);

    let stats = plan.finish(&vec![true, false, true]);
    assert_eq!(stats.inserted, 2);
    assert_eq!(stats.skipped_non_ipv4, 2);
    assert_eq!(stats.bundle_size, 6);
    assert_eq!(stats.cursor_next, Some("page-2".to_string()));
}

#[test]
fn overflow_is_reported_as_inserted() {
    let total = 65_536 + 100;
    let indicators: Vec<Indicator> = (0..total)
        .map(|i| Indicator {
            kind: "IPV4".to_string(),
            value: format!("10.{}.{}.{}", i >> 16, (i >> 8) & 255, i & 255),
        })
        .collect();
    let (writes, skipped) = plan_writes(&indicators);
    assert_eq!(writes.len(), total);
    assert_eq!(writes[65_536].key_be.to_ne_bytes(), [10, 1, 0, 0]);
    assert_eq!(skipped, 0);
    let plan =
        PullPlan { writes, skipped_non_ipv4: skipped, bundle_size: total, cursor_next: None };
    assert_eq!(plan.finish(&vec![true; total]).inserted, total);
}

#[test]
fn bundles_without_a_cursor() {
    let plan = plan_pull(bundle(Vec::new(), None));
    assert_eq!(plan.cursor_next, None);
    assert_eq!(plan.bundle_size, 0);
    assert!(plan.writes.is_empty());
    let plan = plan_pull(Bundle { objects: vec![Value::Null], x_umai: None });
    assert_eq!(plan.cursor_next, None);
    assert_eq!(plan.skipped_non_ipv4, 1);
    assert_eq!(plan.finish(&Vec::new()).inserted, 0);
}

#[test]
fn plain_indicators_are_planned_alike() {
    let indicators = vec![
        Indicator { kind: "DOMAIN".to_string(), value: "example.org".to_string() },
        Indicator { kind: "IPV4".to_string(), value: "192.0.2.1".to_string() },
    ];
    let (writes, skipped) = plan_writes(&indicators);
    assert_eq!(skipped, 1);
    assert_eq!(writes.len(), 1);
    assert_eq!(writes[0].addr, Ipv4Addr::new(192, 0, 2, 1));
}

#[test]
fn objects_of_a_decoded_answer() {
    let answer: Value = serde_json::from_str(
        r#"{"objects":[{"type":"indicator","x_umai_kind":"IPV4","x_umai_value":"198.51.100.4"}]}"#,
    )
    .unwrap();
    let objects = answer.get("objects").and_then(|objects| objects.as_array()).unwrap().clone();
    let plan = plan_pull(Bundle { objects, x_umai: None });
    assert_eq!(addresses(&plan), vec![Ipv4Addr::new(198, 51, 100, 4)]);
}

#[test]
fn pulled_addresses_are_dropped_and_others_are_not() {
    let mut intel: HashMap<u32, IntelEntry> = HashMap::new();
    let objects = || vec![indicator("IPV4", "10.0.0.7"), indicator("IPV6", "10.0.0.8")];
    for _ in 0..2 {
        for write in plan_pull(bundle(objects(), None)).writes {
            intel.insert(write.key_be, write.entry);
        }
        assert_eq!(intel.len(), 1);
    }
    let action = |source: [u8; 4]| {
        let mut frame = vec![0u8; 34];
        frame[12] = 0x08;
        frame[26..30].copy_from_slice(&source);
        match umai_monitor(&frame) {
            MonitorStep::Lookup { src_ip_be } => {
                after_lookup(intel.contains_key(&src_ip_be)).action
            }
            MonitorStep::Finish(verdict) => verdict.action,
        }
    };
    assert_eq!(action([10, 0, 0, 7]), XdpAction::Drop);
    assert_eq!(action([10, 0, 0, 8]), XdpAction::Pass);
}
