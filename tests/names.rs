use std::collections::HashMap;

use tiny_vector::name::{validate_name, ComponentName};

#[test]
fn should_deserialize() {
    let values: HashMap<String, HashMap<String, usize>> = toml::from_str(
        r#"
values.foo-bar = 42
values.foo_bar = 42
values.f123 = 42
"#,
    )
    .unwrap();
    let names: Vec<ComponentName> = values["values"]
        .keys()
        .map(|k| ComponentName::parse(k).unwrap())
        .collect();
    assert_eq!(names.len(), 3);
}

#[test]
fn shouldnt_deserialize_special_names() {
    let values: HashMap<String, HashMap<String, usize>> =
        toml::from_str("values.\" \" = 32\nvalues.\"foo$bar\" = 32").unwrap();
    for key in values["values"].keys() {
        assert!(ComponentName::parse(key).is_err());
    }
}

#[test]
fn should_validate_names() {
    for input in ["foo", "f", "foo_bar", "foo-bar", "foo-123-bar"] {
        assert!(validate_name(input), "{input}");
    }
}

#[test]
fn should_not_validate_names() {
    for input in ["", "   ", "foo bar", "42_foo_bar"] {
        assert!(!validate_name(input), "{input}");
    }
}

#[test]
fn name_keeps_its_text() {
    let name = ComponentName::parse("generator").unwrap();
    assert_eq!(name.as_str(), "generator");
    assert_eq!(name.clone().into_string(), "generator");
    assert_eq!(ComponentName::parse("1abc"), Err("invalid component format"));
}
