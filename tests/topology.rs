use tiny_vector::name::ComponentName;
use tiny_vector::output::NamedOutput;
use tiny_vector::sources;
use tiny_vector::topology::{BuildError, Config, WithInputs};
use tiny_vector::transforms;
use tiny_vector::transforms::{regex_parser, route};

struct BlackHole;

type Graph = Config<sources::Config, transforms::Config, BlackHole>;

fn random_logs() -> sources::Config {
    sources::Config::RandomLogs(sources::random_logs::Config::default())
}

fn route_with_default_fallback() -> transforms::Config {
    transforms::Config::Route(route::Config::new(None))
}

fn chain(order_first_before_second: bool) -> Graph {
    let mut root: Graph = Config::new();
    root.add_source(ComponentName::new("generator"), random_logs());
    let first = WithInputs::new(route_with_default_fallback()).with_default_input("generator");
    let second = WithInputs::new(route_with_default_fallback()).with_named_input("first", "dropped");
    if order_first_before_second {
        root.add_transform(ComponentName::new("first"), first);
        root.add_transform(ComponentName::new("second"), second);
    } else {
        root.add_transform(ComponentName::new("second"), second);
        root.add_transform(ComponentName::new("first"), first);
    }
    root.add_sink(
        ComponentName::new("output"),
        WithInputs::new(BlackHole).with_named_input("second", "dropped"),
    );
    root
}

/// For each consumer, the producer and output wired to its channel.
fn wiring_of(config: Graph) -> Vec<(String, Vec<(String, String)>)> {
    let topology = config.build().ok().unwrap();
    let wiring = topology.prepare_wiring();
    let mut result = Vec::new();
    for (channel, consumer) in wiring.receivers.iter().enumerate() {
        let mut feeds = Vec::new();
        for (producer, collector) in wiring.collectors.iter() {
            for output in ["default", "dropped"] {
                let named = NamedOutput::parse(output).unwrap();
                if collector.route(&named) == Some(&channel) {
                    feeds.push((producer.as_str().to_string(), output.to_string()));
                }
            }
        }
        result.push((consumer.as_str().to_string(), feeds));
    }
    result.sort();
    result
}

#[test]
fn should_run_with_simple_config() {
    let wiring = wiring_of(chain(true));
    assert_eq!(
        wiring,
        vec![
            ("first".to_string(), vec![("generator".to_string(), "default".to_string())]),
            ("output".to_string(), vec![("second".to_string(), "dropped".to_string())]),
            ("second".to_string(), vec![("first".to_string(), "dropped".to_string())]),
        ]
    );
}

#[test]
fn should_run_config_in_weird_order() {
    assert_eq!(wiring_of(chain(false)), wiring_of(chain(true)));
}

#[test]
fn receivers_list_sinks_then_transforms() {
    let topology = chain(true).build().ok().unwrap();
    let wiring = topology.prepare_wiring();
    let names: Vec<&str> = wiring.receivers.iter().map(|n| n.as_str()).collect();
    assert_eq!(names, vec!["output", "first", "second"]);
    assert_eq!(wiring.collectors.len(), 3);
}

#[test]
fn build_reports_validation_errors() {
    let mut root: Graph = Config::new();
    root.add_source(ComponentName::new("lonely"), random_logs());
    match root.build() {
        Err(BuildError::Validation(errors)) => assert_eq!(errors.len(), 1),
        _ => panic!("expected a validation error"),
    }
}

#[test]
fn build_reports_transform_errors() {
    let mut root: Graph = Config::new();
    root.add_source(ComponentName::new("g"), random_logs());
    root.add_transform(
        ComponentName::new("p"),
        WithInputs::new(transforms::Config::RegexParser(regex_parser::Config {
            pattern: "(unclosed".to_string(),
        }))
        .with_default_input("g"),
    );
    root.add_sink(ComponentName::new("s"), WithInputs::new(BlackHole).with_default_input("p"));
    assert!(matches!(root.build(), Err(BuildError::Transform(_))));
}
