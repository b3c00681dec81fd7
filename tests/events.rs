use tiny_vector::event::{Event, EventLog, EventLogAttribute, EventMetric, EventMetricName, EventMetricValue};
use tiny_vector::helper::default_true;
use tiny_vector::resolve::StringOrEnv;
use tiny_vector::sources::random_logs::{generate, generate_at, Config};
use tiny_vector::sources::sysinfo::{CpuConfig, MemoryConfig};

#[test]
fn generated_log_has_fixed_content() {
    let log = generate_at(1234).into_event_log().unwrap();
    assert_eq!(log.message, "Hello World!");
    let keys: Vec<&str> = log.attributes.keys().map(|k| k.as_str()).collect();
    assert_eq!(keys, vec!["hostname", "ddsource", "timestamp"]);
    assert_eq!(log.attributes.get("hostname").unwrap().as_text(), Some("fake-server"));
    assert_eq!(log.attributes.get("ddsource").unwrap().as_text(), Some("tiny-vector"));
    assert_eq!(log.attributes.get("timestamp").unwrap().as_uint(), Some(1234));
    assert!(generate().as_event_log().is_some());
}

#[test]
fn random_logs_interval() {
    assert_eq!(Config::default().interval_ms(), 1000);
    assert_eq!(Config { interval: Some(250) }.interval_ms(), 250);
}

#[test]
fn attribute_accessors() {
    assert_eq!(EventLogAttribute::UInteger(3).as_uint(), Some(3));
    assert_eq!(EventLogAttribute::Integer(-3).as_int(), Some(-3));
    assert_eq!(EventLogAttribute::Boolean(true).as_bool(), Some(true));
    assert_eq!(EventLogAttribute::Float(1.5f64.to_bits()).as_float_bits(), Some(1.5f64.to_bits()));
    assert_eq!(EventLogAttribute::text("x").as_text(), Some("x"));
    assert_eq!(EventLogAttribute::Integer(1).as_text(), None);
    assert_eq!(EventLogAttribute::text("x").as_uint(), None);
}

#[test]
fn event_variants() {
    let log: Event = EventLog::new("m").into();
    let metric: Event = EventMetric::new(5, "ns", "n", EventMetricValue::Counter(7)).into();
    assert!(log.as_event_log().is_some() && log.as_event_metric().is_none());
    assert!(metric.as_event_metric().is_some() && metric.as_event_log().is_none());
    let m = metric.clone().into_event_metric().unwrap();
    assert_eq!(m.timestamp, 5);
    assert_eq!(m.header.name, EventMetricName::new("ns", "n"));
    assert_eq!(m.value, EventMetricValue::Counter(7));
    assert!(metric.into_event_log().is_none());
}

#[test]
fn attribute_insert_keeps_position() {
    let mut log = EventLog::new("m")
        .with_attribute("a", EventLogAttribute::UInteger(1))
        .with_attribute("b", EventLogAttribute::UInteger(2));
    log.add_attribute("a", EventLogAttribute::UInteger(3));
    let entries: Vec<(String, u64)> = log
        .attributes
        .iter()
        .map(|(k, v)| (k.clone(), v.as_uint().unwrap()))
        .collect();
    assert_eq!(entries, vec![("a".to_string(), 3), ("b".to_string(), 2)]);
}

#[test]
fn string_or_env_resolution() {
    let literal = StringOrEnv::String("lit".to_string());
    assert_eq!(literal.key(), None);
    assert_eq!(literal.resolve(Some("ignored".to_string())), Some("lit".to_string()));
    let env = StringOrEnv::EnvironmentVariable {
        key: "K".to_string(),
        default_value: Some("d".to_string()),
    };
    assert_eq!(env.key(), Some("K"));
    assert_eq!(env.resolve(Some("found".to_string())), Some("found".to_string()));
    assert_eq!(env.resolve(None), Some("d".to_string()));
    let bare = StringOrEnv::EnvironmentVariable {
        key: "K".to_string(),
        default_value: None,
    };
    assert_eq!(bare.resolve(None), None);
}

#[test]
fn sampler_defaults() {
    assert!(default_true());
    let cpu = CpuConfig::default();
    assert!(cpu.usage && cpu.frequency);
    let memory = MemoryConfig::default();
    assert!(memory.ram && memory.swap);
}
