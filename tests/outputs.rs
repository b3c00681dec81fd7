use tiny_vector::name::ComponentName;
use tiny_vector::output::{ComponentOutput, NamedOutput};

fn from_json(text: &str) -> ComponentOutput {
    let value: serde_json::Value = serde_json::from_str(text).unwrap();
    match value {
        serde_json::Value::String(s) => ComponentOutput::parse(&s).unwrap(),
        serde_json::Value::Object(map) => ComponentOutput::from_parts(
            map["component"].as_str().unwrap(),
            map.get("output").and_then(|o| o.as_str()),
        )
        .unwrap(),
        _ => panic!("a string or a map"),
    }
}

#[test]
fn with_simple_string() {
    let result = from_json(r#""foo""#);
    assert_eq!(
        result,
        ComponentOutput {
            name: ComponentName::new("foo"),
            output: NamedOutput::Default,
        }
    );
}

#[test]
fn with_hash() {
    let result = from_json(r#""foo#bar""#);
    assert_eq!(
        result,
        ComponentOutput {
            name: ComponentName::new("foo"),
            output: NamedOutput::named("bar"),
        }
    );
}

#[test]
fn with_just_component_name() {
    let result = from_json(r#"{"component": "foo"}"#);
    assert_eq!(
        result,
        ComponentOutput {
            name: ComponentName::new("foo"),
            output: NamedOutput::Default,
        }
    );
}

#[test]
fn with_output_default() {
    let result = from_json(r#"{"component": "foo", "output": "default"}"#);
    assert_eq!(
        result,
        ComponentOutput {
            name: ComponentName::new("foo"),
            output: NamedOutput::Default,
        }
    );
}

#[test]
fn with_output_named() {
    let result = from_json(r#"{"component": "foo", "output": "bar"}"#);
    assert_eq!(
        result,
        ComponentOutput {
            name: ComponentName::new("foo"),
            output: NamedOutput::named("bar"),
        }
    );
}

#[test]
fn reference_formats_back_to_its_text() {
    for text in ["foo", "foo#bar", "a-b_c#d-e"] {
        let parsed = ComponentOutput::parse(text).unwrap();
        assert_eq!(parsed.to_string(), text);
        assert_eq!(ComponentOutput::parse(&parsed.to_string()).unwrap(), parsed);
    }
    assert_eq!(ComponentOutput::parse("foo#default").unwrap().to_string(), "foo");
}

#[test]
fn reference_rejects_bad_names() {
    assert!(ComponentOutput::parse("").is_err());
    assert!(ComponentOutput::parse("foo#").is_err());
    assert!(ComponentOutput::parse("#bar").is_err());
    assert!(ComponentOutput::parse("foo#bar#baz").is_err());
    assert!(ComponentOutput::parse("foo bar").is_err());
    assert!(ComponentOutput::from_parts("foo", Some("b r")).is_err());
}

#[test]
fn named_output_reads_default_word() {
    assert_eq!(NamedOutput::parse("default"), Ok(NamedOutput::Default));
    assert_eq!(NamedOutput::parse("dropped"), Ok(NamedOutput::named("dropped")));
    assert_eq!(NamedOutput::parse("9lives"), Err("invalid output name format"));
    assert_eq!(NamedOutput::Default.as_str(), "default");
    assert!(NamedOutput::Default.is_default());
    assert!(!NamedOutput::named("x").is_default());
    assert_eq!(NamedOutput::default(), NamedOutput::Default);
}
