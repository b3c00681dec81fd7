use tiny_vector::condition::{BuildError, CheckConfig, Condition, Config};
use tiny_vector::event::{Event, EventLog, EventLogAttribute, EventMetric, EventMetricValue};

fn log_hello() -> Event {
    EventLog::new("hello").into()
}

fn metric() -> Event {
    EventMetric::new(0, "foo", "bar", EventMetricValue::Gauge(12.34f64.to_bits())).into()
}

fn metric_with_tag(value: &str) -> Event {
    EventMetric::new(0, "foo", "bar", EventMetricValue::Gauge(12.34f64.to_bits()))
        .with_tag("foo", value)
        .into()
}

fn build(config: Config) -> Condition {
    config.build().unwrap()
}

fn has_tag(check: CheckConfig) -> Condition {
    build(Config::HasTag {
        name: "foo".to_string(),
        check,
    })
}

#[test]
fn truth_table() {
    let log = log_hello();
    let m = metric();
    let is_log = || Config::is_log();
    let is_metric = || Config::is_metric();
    let and = build(Config::And(vec![is_log(), is_metric()]));
    let or = build(Config::Or(vec![is_log(), is_metric()]));
    let not = build(Config::Not(Box::new(is_log())));
    assert!(build(is_log()).evaluate(&log));
    assert!(!build(is_log()).evaluate(&m));
    assert!(!build(is_metric()).evaluate(&log));
    assert!(build(is_metric()).evaluate(&m));
    assert!(!and.evaluate(&log) && !and.evaluate(&m));
    assert!(or.evaluate(&log) && or.evaluate(&m));
    assert!(!not.evaluate(&log) && not.evaluate(&m));
}

#[test]
fn empty_and_or() {
    assert!(build(Config::And(vec![])).evaluate(&log_hello()));
    assert!(!build(Config::Or(vec![])).evaluate(&metric()));
}

#[test]
fn has_attribute_condition() {
    let cond = build(Config::HasAttribute {
        name: "foo".to_string(),
    });
    let with_foo: Event = EventLog::new("hello world")
        .with_attribute("foo", EventLogAttribute::text("bar"))
        .into();
    assert!(cond.evaluate(&with_foo));
    assert!(!cond.evaluate(&log_hello()));
    assert!(!cond.evaluate(&metric()));
}

#[test]
fn has_tag_checks() {
    let exists = has_tag(CheckConfig::default());
    assert!(exists.evaluate(&metric_with_tag("bar")));
    assert!(!exists.evaluate(&metric()));
    assert!(!exists.evaluate(&log_hello()));

    let equals = has_tag(CheckConfig::Equals {
        value: "bar".to_string(),
    });
    assert!(equals.evaluate(&metric_with_tag("bar")));
    assert!(!equals.evaluate(&metric_with_tag("barr")));

    let starts = has_tag(CheckConfig::StartsWith {
        value: "bar".to_string(),
    });
    assert!(starts.evaluate(&metric_with_tag("barzoo")));
    assert!(!starts.evaluate(&metric_with_tag("baz")));
    assert!(!starts.evaluate(&metric()));
    assert!(!starts.evaluate(&log_hello()));

    let ends = has_tag(CheckConfig::EndsWith {
        value: "bar".to_string(),
    });
    assert!(ends.evaluate(&metric_with_tag("zoobar")));
    assert!(!ends.evaluate(&metric_with_tag("zoobaz")));

    let matches = has_tag(CheckConfig::Matches {
        regex: "^H[3e]ll[o0]$".to_string(),
    });
    assert!(matches.evaluate(&metric_with_tag("Hello")));
    assert!(matches.evaluate(&metric_with_tag("H3ll0")));
    assert!(!matches.evaluate(&metric_with_tag("hell")));
    assert!(!matches.evaluate(&metric()));
}

#[test]
fn invalid_tag_pattern_fails_the_build() {
    let result = Config::Not(Box::new(Config::Or(vec![Config::HasTag {
        name: "foo".to_string(),
        check: CheckConfig::Matches {
            regex: "[unclosed".to_string(),
        },
    }])))
    .build();
    assert!(matches!(result, Err(BuildError::InvalidPattern(_))));
}
