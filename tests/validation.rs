use std::collections::HashSet;

use tiny_vector::condition;
use tiny_vector::name::ComponentName;
use tiny_vector::output::{ComponentOutput, NamedOutput};
use tiny_vector::sources;
use tiny_vector::topology::{Config, WithInputs};
use tiny_vector::transforms;
use tiny_vector::transforms::route;
use tiny_vector::validation::ValidationError;

struct BlackHole;

type Graph = Config<sources::Config, transforms::Config, BlackHole>;

fn random_logs() -> sources::Config {
    sources::Config::RandomLogs(sources::random_logs::Config::default())
}

fn output(name: &str) -> ComponentOutput {
    ComponentOutput {
        name: ComponentName::new(name),
        output: NamedOutput::Default,
    }
}

#[test]
fn component_output_shouldnt_be_used_more_than_once() {
    let mut config: Graph = Config::new();
    config.add_source(ComponentName::new("foo"), random_logs());
    config.add_sink(ComponentName::new("bar"), WithInputs::new(BlackHole).with_default_input("foo"));
    config.add_sink(ComponentName::new("baz"), WithInputs::new(BlackHole).with_default_input("foo"));
    let errors = config.validate().err().unwrap();
    assert_eq!(errors.len(), 1);
    match &errors[0] {
        ValidationError::MultipleUseOfInput { input, targets } => {
            assert_eq!(*input, output("foo"));
            let targets: HashSet<ComponentName> = targets.iter().cloned().collect();
            assert_eq!(
                targets,
                HashSet::from_iter([ComponentName::new("baz"), ComponentName::new("bar")])
            );
        }
        other => panic!("unexpected {other:?}"),
    }
}

#[test]
fn component_without_input() {
    let mut config: Graph = Config::new();
    config.add_sink(ComponentName::new("bar"), WithInputs::new(BlackHole));
    let errors = config.validate().err().unwrap();
    assert_eq!(
        errors,
        vec![
            ValidationError::NoInput {
                name: ComponentName::new("bar")
            },
            ValidationError::OrphanComponent {
                name: ComponentName::new("bar")
            }
        ]
    );
}

#[test]
fn topology_with_orphan_components() {
    let mut config: Graph = Config::new();
    config.add_source(ComponentName::new("foo"), random_logs());
    config.add_source(ComponentName::new("orphan"), random_logs());
    config.add_sink(ComponentName::new("bar"), WithInputs::new(BlackHole).with_default_input("foo"));
    let errors = config.validate().err().unwrap();
    assert_eq!(
        errors,
        vec![ValidationError::OrphanComponent {
            name: ComponentName::new("orphan")
        }]
    );
}

#[test]
fn valid_chain_passes() {
    let mut config: Graph = Config::new();
    config.add_source(ComponentName::new("g"), random_logs());
    config.add_transform(
        ComponentName::new("first"),
        WithInputs::new(transforms::Config::Route(route::Config::new(None))).with_default_input("g"),
    );
    config.add_sink(
        ComponentName::new("out"),
        WithInputs::new(BlackHole).with_named_input("first", "dropped"),
    );
    assert!(config.validate().is_ok());
}

#[test]
fn reference_to_missing_component() {
    let mut config: Graph = Config::new();
    config.add_source(ComponentName::new("g"), random_logs());
    config.add_sink(
        ComponentName::new("out"),
        WithInputs::new(BlackHole).with_default_input("g").with_default_input("ghost"),
    );
    let errors = config.validate().err().unwrap();
    assert_eq!(
        errors,
        vec![ValidationError::InputNotFound {
            input: output("ghost")
        }]
    );
}

#[test]
fn reference_to_undeclared_output() {
    let mut config: Graph = Config::new();
    config.add_source(ComponentName::new("g"), random_logs());
    config.add_sink(ComponentName::new("a"), WithInputs::new(BlackHole).with_default_input("g"));
    config.add_sink(ComponentName::new("b"), WithInputs::new(BlackHole).with_named_input("g", "other"));
    config.add_sink(ComponentName::new("c"), WithInputs::new(BlackHole).with_default_input("a"));
    let errors = config.validate().err().unwrap();
    assert_eq!(
        errors,
        vec![
            ValidationError::OutputNotFound {
                name: ComponentName::new("g"),
                output: NamedOutput::named("other")
            },
            ValidationError::OutputNotFound {
                name: ComponentName::new("a"),
                output: NamedOutput::Default
            },
        ]
    );
}

#[test]
fn cycle_is_reported() {
    let mut config: Graph = Config::new();
    config.add_source(ComponentName::new("g"), random_logs());
    let broadcast = || transforms::Config::Broadcast(transforms::broadcast::Config {});
    config.add_transform(
        ComponentName::new("a"),
        WithInputs::new(broadcast()).with_default_input("g").with_named_input("b", "loop"),
    );
    config.add_transform(
        ComponentName::new("b"),
        WithInputs::new(broadcast()).with_named_input("a", "next"),
    );
    config.add_sink(ComponentName::new("out"), WithInputs::new(BlackHole).with_named_input("b", "out"));
    let errors = config.validate().err().unwrap();
    assert_eq!(
        errors,
        vec![
            ValidationError::CircularDependency {
                path: vec![ComponentName::new("a"), ComponentName::new("b")],
                name: ComponentName::new("a")
            },
            ValidationError::CircularDependency {
                path: vec![ComponentName::new("a"), ComponentName::new("b")],
                name: ComponentName::new("b")
            },
        ]
    );
}

#[test]
fn filter_declares_its_fallback() {
    let mut config: Graph = Config::new();
    config.add_source(ComponentName::new("g"), random_logs());
    config.add_transform(
        ComponentName::new("f"),
        WithInputs::new(transforms::Config::Filter(transforms::filter::Config {
            condition: condition::Config::is_metric(),
            fallback: None,
        }))
        .with_default_input("g"),
    );
    config.add_sink(ComponentName::new("m"), WithInputs::new(BlackHole).with_default_input("f"));
    config.add_sink(ComponentName::new("d"), WithInputs::new(BlackHole).with_named_input("f", "dropped"));
    assert!(config.validate().is_ok());
}

#[test]
fn transform_without_input_is_reported() {
    let mut config: Graph = Config::new();
    config.add_source(ComponentName::new("g"), random_logs());
    config.add_transform(
        ComponentName::new("t"),
        WithInputs::new(transforms::Config::Broadcast(transforms::broadcast::Config {})),
    );
    config.add_sink(ComponentName::new("s"), WithInputs::new(BlackHole).with_default_input("g"));
    config.add_sink(ComponentName::new("s2"), WithInputs::new(BlackHole).with_named_input("t", "x"));
    let errors = config.validate().err().unwrap();
    assert_eq!(
        errors,
        vec![
            ValidationError::NoInput {
                name: ComponentName::new("t")
            },
            ValidationError::OrphanComponent {
                name: ComponentName::new("t")
            },
            ValidationError::OrphanComponent {
                name: ComponentName::new("s2")
            },
        ]
    );
}

#[test]
fn duplicate_names_are_reported() {
    let mut config: Graph = Config::new();
    config.add_source(ComponentName::new("x"), random_logs());
    config.add_sink(ComponentName::new("s"), WithInputs::new(BlackHole).with_default_input("x"));
    config.add_sink(ComponentName::new("x"), WithInputs::new(BlackHole).with_default_input("s"));
    let errors = config.validate().err().unwrap();
    assert_eq!(
        errors[0],
        ValidationError::DuplicateName {
            name: ComponentName::new("x")
        }
    );
}
