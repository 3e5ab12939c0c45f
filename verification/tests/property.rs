use regatelisp::property::{Properties, PropertyValue};

#[test]
fn properties_are_deterministic_and_replace_by_key() {
    let mut properties = Properties::new().with("width", PropertyValue::Int(8));
    assert!(!properties.is_empty());
    assert_eq!(properties.insert("width", PropertyValue::Int(16)), Some(PropertyValue::Int(8)));
    assert_eq!(properties.get("width"), Some(&PropertyValue::Int(16)));
    assert_eq!(properties.iter().iter().map(|(key, _)| key.as_str()).collect::<Vec<_>>(), vec!["width"]);
    assert_eq!(properties.remove("width"), Some(PropertyValue::Int(16)));
    assert!(properties.is_empty());
}

#[test]
fn properties_clone_and_equality_include_nested_values() {
    let properties =
        Properties::new().with("shape", PropertyValue::List(vec![PropertyValue::Symbol("wire".to_string())]));
    assert_eq!(properties, properties.clone());
}

#[test]
fn keys_come_out_in_sorted_order() {
    let properties = Properties::new()
        .with("width", PropertyValue::Int(1))
        .with("align", PropertyValue::Int(2))
        .with("signed", PropertyValue::Bool(true));
    let keys: Vec<&str> = properties.iter().iter().map(|(key, _)| key.as_str()).collect();
    assert_eq!(keys, vec!["align", "signed", "width"]);
}

#[test]
fn merging_keeps_existing_values() {
    let mut inner = Properties::new().with("width", PropertyValue::Int(8));
    let outer = Properties::new().with("width", PropertyValue::Int(4)).with("signed", PropertyValue::Bool(true));
    inner.merge_missing_from(&outer);
    assert_eq!(inner.get("width"), Some(&PropertyValue::Int(8)));
    assert_eq!(inner.get("signed"), Some(&PropertyValue::Bool(true)));
    assert_eq!(inner.len(), 2);
}
