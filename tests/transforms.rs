use tiny_vector::collector::Collector;
use tiny_vector::condition;
use tiny_vector::event::{Event, EventLog, EventLogAttribute, EventMetric, EventMetricValue};
use tiny_vector::helper::now;
use tiny_vector::output::NamedOutput;
use tiny_vector::resolve::StringOrEnv;
use tiny_vector::transforms::{
    add_fields, broadcast, filter, regex_parser, remove_fields, route, Dispatch, Transform,
};

fn log_event() -> Event {
    EventLog::new("Hello World!")
        .with_attribute("hostname", EventLogAttribute::text("fake-server"))
        .with_attribute("ddsource", EventLogAttribute::text("tiny-vector"))
        .into()
}

fn metric_event() -> Event {
    EventMetric::new(now(), "foo", "bar", EventMetricValue::Gauge(42.0f64.to_bits()))
        .with_tag("hostname", "fake-server")
        .into()
}

/// Counts, per channel, the events that a dispatch delivers through the collector.
fn deliver(collector: &Collector<usize>, dispatch: &Dispatch, counts: &mut [usize]) {
    match dispatch {
        Dispatch::Output(output) => {
            if let Some(channel) = collector.route(output) {
                counts[*channel] += 1;
            }
        }
        Dispatch::All => {
            for channel in collector.senders() {
                counts[*channel] += 1;
            }
        }
    }
}

fn collector_of(outputs: &[NamedOutput]) -> Collector<usize> {
    let mut collector = Collector::new();
    for (channel, output) in outputs.iter().enumerate() {
        collector.add_output(output.clone(), channel);
    }
    collector
}

#[test]
fn should_broadcast_events_properly() {
    let transform = broadcast::Config {}.build();
    let collector = collector_of(&[NamedOutput::named("metrics"), NamedOutput::named("logs")]);
    let mut counts = [0usize; 2];
    deliver(&collector, &transform.route(), &mut counts);
    deliver(&collector, &transform.route(), &mut counts);
    assert_eq!(2, counts[0]);
    assert_eq!(2, counts[1]);
}

#[test]
fn filter_should_route_events_properly() {
    let config = filter::Config {
        condition: condition::Config::is_metric(),
        fallback: None,
    };
    let transform = config.build().unwrap();
    let collector = collector_of(&[NamedOutput::named("dropped"), NamedOutput::default()]);
    let mut counts = [0usize; 2];
    deliver(&collector, &transform.route(&log_event()), &mut counts);
    deliver(&collector, &transform.route(&metric_event()), &mut counts);
    assert_eq!(1, counts[1]);
    assert_eq!(1, counts[0]);
}

#[test]
fn should_extract_from_logs() {
    let config = regex_parser::Config {
        pattern: String::from(
            r"^service=(?<service>[a-z]+)\s+status=(?<status>[a-z]+)\s+(?<message>.*)$",
        ),
    };
    let transform = config.build().unwrap();

    let metric = transform.handle(metric_event()).into_event_metric().unwrap();
    assert_eq!(metric.value, EventMetricValue::Gauge(42.0f64.to_bits()));

    let parsed = transform
        .handle(EventLog::new("service=something status=ok hello world").into())
        .into_event_log()
        .unwrap();
    assert_eq!(parsed.message, "hello world");
    assert_eq!(
        parsed.attributes.get("service").and_then(|v| v.as_text()).unwrap(),
        "something"
    );
    assert_eq!(
        parsed.attributes.get("status").and_then(|v| v.as_text()).unwrap(),
        "ok"
    );
    assert!(parsed.attributes.get("message").is_none());

    let untouched = transform
        .handle(EventLog::new("whatever status=ok hello world").into())
        .into_event_log()
        .unwrap();
    assert_eq!(untouched.message, "whatever status=ok hello world");
    assert!(untouched.attributes.is_empty());
}

#[test]
fn route_should_route_events_properly() {
    let metrics_output = NamedOutput::named("metrics");
    let logs_output = NamedOutput::named("logs");
    let config = route::Config::new(None)
        .with_route(metrics_output.clone(), condition::Config::is_metric())
        .with_route(logs_output.clone(), condition::Config::is_log());
    let transform = config.build().unwrap();
    let collector = collector_of(&[metrics_output, logs_output]);
    let mut counts = [0usize; 2];
    deliver(&collector, &transform.route(&log_event()), &mut counts);
    deliver(&collector, &transform.route(&metric_event()), &mut counts);
    assert_eq!(1, counts[0]);
    assert_eq!(1, counts[1]);
}

#[test]
fn should_route_to_the_defined_fallback_route() {
    let metrics_output = NamedOutput::named("metrics");
    let fallback = NamedOutput::named("fallback");
    let config = route::Config::new(Some(fallback.clone()))
        .with_route(metrics_output.clone(), condition::Config::is_metric());
    let transform = config.build().unwrap();
    let collector = collector_of(&[fallback, metrics_output]);
    let mut counts = [0usize; 2];
    deliver(&collector, &transform.route(&log_event()), &mut counts);
    deliver(&collector, &transform.route(&metric_event()), &mut counts);
    assert_eq!(1, counts[1]);
    assert_eq!(1, counts[0]);
}

#[test]
fn should_route_to_the_default_fallback_route() {
    let metrics_output = NamedOutput::named("metrics");
    let fallback = NamedOutput::named("dropped");
    let config =
        route::Config::new(None).with_route(metrics_output.clone(), condition::Config::is_metric());
    let transform = config.build().unwrap();
    let collector = collector_of(&[fallback, metrics_output]);
    let mut counts = [0usize; 2];
    deliver(&collector, &transform.route(&log_event()), &mut counts);
    deliver(&collector, &transform.route(&metric_event()), &mut counts);
    assert_eq!(1, counts[1]);
    assert_eq!(1, counts[0]);
}

#[test]
fn should_break_the_build_to_have_conflicts() {
    let config = route::Config::new(None)
        .with_route(NamedOutput::named("dropped"), condition::Config::is_metric());
    let err = config.build().err().unwrap();
    assert!(matches!(err, route::BuildError::FallbackRouteConflict { name: _ }))
}

#[test]
fn route_with_fallback_scenario() {
    let config = route::Config::new(None).with_route(NamedOutput::named("metrics"), condition::Config::is_metric());
    let transform = config.build().unwrap();
    let collector = collector_of(&[NamedOutput::named("metrics"), NamedOutput::named("dropped")]);
    let mut counts = [0usize; 2];
    for event in [log_event(), metric_event(), log_event()] {
        deliver(&collector, &transform.route(&event), &mut counts);
    }
    assert_eq!(counts, [1, 2]);
}

#[test]
fn route_picks_the_first_matching_route() {
    let config = route::Config::new(Some(NamedOutput::named("rest")))
        .with_route(NamedOutput::named("first"), condition::Config::Or(vec![]))
        .with_route(NamedOutput::named("second"), condition::Config::is_log())
        .with_route(NamedOutput::named("third"), condition::Config::And(vec![]));
    let transform = config.build().unwrap();
    assert_eq!(transform.route(&log_event()), Dispatch::Output(NamedOutput::named("second")));
    assert_eq!(transform.route(&metric_event()), Dispatch::Output(NamedOutput::named("third")));
    let none = route::Config::new(Some(NamedOutput::named("rest")))
        .with_route(NamedOutput::named("logs"), condition::Config::is_log())
        .build()
        .unwrap();
    assert_eq!(none.route(&metric_event()), Dispatch::Output(NamedOutput::named("rest")));
}

#[test]
fn route_replaces_a_route_of_the_same_name() {
    let config = route::Config::new(None)
        .with_route(NamedOutput::named("a"), condition::Config::is_log())
        .with_route(NamedOutput::named("b"), condition::Config::is_log())
        .with_route(NamedOutput::named("a"), condition::Config::is_metric());
    assert_eq!(config.routes.len(), 2);
    let transform = config.build().unwrap();
    assert_eq!(transform.route(&metric_event()), Dispatch::Output(NamedOutput::named("a")));
    assert_eq!(transform.route(&log_event()), Dispatch::Output(NamedOutput::named("b")));
}

#[test]
fn broadcast_hundred_events_keep_their_order() {
    let transform = Transform::Broadcast(broadcast::Config {}.build());
    let collector = collector_of(&[NamedOutput::named("a"), NamedOutput::named("b")]);
    let mut channels: Vec<Vec<u64>> = vec![Vec::new(), Vec::new()];
    for i in 0..100u64 {
        let event: Event = EventLog::new("tick").with_attribute("n", EventLogAttribute::UInteger(i)).into();
        let (event, dispatch) = transform.handle(event);
        assert_eq!(dispatch, Dispatch::All);
        for channel in collector.senders() {
            let copy = event.clone().into_event_log().unwrap();
            channels[*channel].push(copy.attributes.get("n").unwrap().as_uint().unwrap());
        }
    }
    let expected: Vec<u64> = (0..100).collect();
    assert_eq!(channels[0], expected);
    assert_eq!(channels[1], expected);
}

#[test]
fn filter_with_default_fallback_name() {
    let transform = filter::Config {
        condition: condition::Config::is_metric(),
        fallback: None,
    }
    .build()
    .unwrap();
    assert_eq!(transform.route(&metric_event()), Dispatch::Output(NamedOutput::Default));
    assert_eq!(transform.route(&log_event()), Dispatch::Output(NamedOutput::named("dropped")));
    let custom = filter::Config {
        condition: condition::Config::is_log(),
        fallback: Some(NamedOutput::named("other")),
    }
    .build()
    .unwrap();
    assert_eq!(custom.route(&metric_event()), Dispatch::Output(NamedOutput::named("other")));
}

fn attribute_keys(event: &Event) -> Vec<String> {
    event.as_event_log().unwrap().attributes.keys().cloned().collect()
}

#[test]
fn add_fields_writes_attributes_and_tags() {
    let config = add_fields::Config::new()
        .with_field("env", &StringOrEnv::String("prod".to_string()), None)
        .with_field("hostname", &StringOrEnv::String("other".to_string()), None);
    let transform = config.build();
    let event = transform.transform(log_event());
    assert_eq!(attribute_keys(&event), vec!["hostname", "ddsource", "env"]);
    let log = event.as_event_log().unwrap();
    assert_eq!(log.attributes.get("hostname").unwrap().as_text(), Some("other"));
    assert_eq!(log.attributes.get("env").unwrap().as_text(), Some("prod"));
    let metric = transform.transform(metric_event()).into_event_metric().unwrap();
    assert_eq!(metric.header.tags.get("env").map(|s| s.as_str()), Some("prod"));
    assert_eq!(metric.header.tags.get("hostname").map(|s| s.as_str()), Some("other"));
}

#[test]
fn add_fields_drops_unresolved_values() {
    let missing = StringOrEnv::EnvironmentVariable {
        key: "NOT_SET".to_string(),
        default_value: None,
    };
    let fallback = StringOrEnv::EnvironmentVariable {
        key: "NOT_SET".to_string(),
        default_value: Some("fallback".to_string()),
    };
    let found = StringOrEnv::EnvironmentVariable {
        key: "SET".to_string(),
        default_value: Some("fallback".to_string()),
    };
    let config = add_fields::Config::new()
        .with_field("a", &missing, None)
        .with_field("b", &fallback, None)
        .with_field("c", &found, Some("value".to_string()));
    assert_eq!(config.fields.len(), 2);
    assert_eq!(config.fields.get("b").map(|s| s.as_str()), Some("fallback"));
    assert_eq!(config.fields.get("c").map(|s| s.as_str()), Some("value"));
}

#[test]
fn remove_fields_removes_attributes_and_tags() {
    let config = remove_fields::Config::new().with_field("hostname").with_field("absent");
    let transform = config.build();
    let event = transform.transform(log_event());
    assert_eq!(attribute_keys(&event), vec!["ddsource"]);
    let metric = transform.transform(metric_event()).into_event_metric().unwrap();
    assert!(metric.header.tags.is_empty());
    assert_eq!(metric.header.name.name, "bar");
}

#[test]
fn empty_field_transforms_are_identity() {
    let added = add_fields::Config::new().build().transform(log_event());
    assert_eq!(attribute_keys(&added), vec!["hostname", "ddsource"]);
    let removed = remove_fields::Config::new().build().transform(log_event());
    assert_eq!(attribute_keys(&removed), vec!["hostname", "ddsource"]);
    let parser = regex_parser::Config {
        pattern: "^never$".to_string(),
    }
    .build()
    .unwrap();
    let parsed = parser.handle(log_event()).into_event_log().unwrap();
    assert_eq!(parsed.message, "Hello World!");
    assert_eq!(parsed.attributes.len(), 2);
}

#[test]
fn last_writer_wins_between_add_and_remove() {
    let add = add_fields::Config::new()
        .with_field("hostname", &StringOrEnv::String("v".to_string()), None)
        .build();
    let remove = remove_fields::Config::new().with_field("hostname").build();
    let removed_then_added = add.transform(remove.transform(log_event()));
    assert_eq!(
        removed_then_added.as_event_log().unwrap().attributes.get("hostname").unwrap().as_text(),
        Some("v")
    );
    let added_then_removed = remove.transform(add.transform(log_event()));
    assert!(added_then_removed.as_event_log().unwrap().attributes.get("hostname").is_none());
}

#[test]
fn regex_parser_rejects_bad_pattern() {
    let config = regex_parser::Config {
        pattern: "(".to_string(),
    };
    assert!(matches!(
        config.build(),
        Err(regex_parser::BuildError::UnableToCompileRegex(_))
    ));
}

#[test]
fn regex_parser_applies_captures() {
    let log = EventLog::new("before");
    let names = vec![None, Some("message".to_string()), Some("k".to_string()), Some("skipped".to_string())];
    let groups = vec![Some("all".to_string()), Some("new".to_string()), Some("v".to_string()), None];
    let result = regex_parser::apply_captures(log, &names, &groups);
    assert_eq!(result.message, "new");
    assert_eq!(result.attributes.len(), 1);
    assert_eq!(result.attributes.get("k").unwrap().as_text(), Some("v"));
}

#[test]
fn transforms_report_their_flavor() {
    assert_eq!(broadcast::Config {}.build().flavor(), "broadcast");
    assert_eq!(add_fields::Config::new().build().flavor(), "add_fields");
}
