use tixgraft::config::context::{ContextDataType, ContextPropertyDefinition};
use tixgraft::config::graft_yaml::{validate_value_type, GraftConfig};
use tixgraft::json::{JsonNumber, JsonValue};

fn integer(i: u64) -> JsonValue {
    JsonValue::Number(JsonNumber::PosInt(i))
}

fn string(s: &str) -> JsonValue {
    JsonValue::String(s.to_owned())
}

fn config_with(definition: ContextPropertyDefinition) -> GraftConfig {
    let mut c = GraftConfig::empty();
    c.context.push(definition);
    c
}

fn check_context_property_validation() {
    let config = config_with(ContextPropertyDefinition {
        data_type: ContextDataType::String,
        default_value: None,
        description: "Empty name".to_owned(),
        name: "".to_owned(),
    });
    config.validate().unwrap_err();
}

fn check_default_value_type_validation() {
    let config = config_with(ContextPropertyDefinition {
        data_type: ContextDataType::Number,
        default_value: Some(JsonValue::String("not-a-number".to_owned())),
        description: "Port number".to_owned(),
        name: "port".to_owned(),
    });
    config.validate().unwrap_err();
}

fn check_context_empty_description() {
    let config = config_with(ContextPropertyDefinition {
        data_type: ContextDataType::String,
        default_value: None,
        description: "".to_owned(),
        name: "myProp".to_owned(),
    });
    config.validate().unwrap_err();
}

fn check_validate_value_type() {
    validate_value_type("x", &string("hello"), ContextDataType::String).unwrap();
    validate_value_type("x", &integer(42), ContextDataType::String).unwrap_err();
    validate_value_type("x", &integer(42), ContextDataType::Number).unwrap();
    validate_value_type("x", &JsonValue::Bool(true), ContextDataType::Boolean).unwrap();
    validate_value_type("x", &string("hi"), ContextDataType::Boolean).unwrap_err();
    validate_value_type("x", &JsonValue::Array(vec![integer(1), integer(2)]), ContextDataType::Array).unwrap();
    validate_value_type("x", &string("str"), ContextDataType::Array).unwrap_err();
}

#[test]
fn graft_yaml_context_property_validation() {
    check_context_property_validation();
}

#[test]
fn tests_context_property_validation() {
    check_context_property_validation();
}

#[test]
fn graft_yaml_default_value_type_validation() {
    check_default_value_type_validation();
}

#[test]
fn tests_default_value_type_validation() {
    check_default_value_type_validation();
}

#[test]
fn graft_yaml_context_empty_description() {
    check_context_empty_description();
}

#[test]
fn tests_context_empty_description() {
    check_context_empty_description();
}

#[test]
fn graft_yaml_validate_value_type_tst() {
    check_validate_value_type();
}

#[test]
fn tests_validate_value_type_tst() {
    check_validate_value_type();
}

#[test]
fn valid_configuration_passes() {
    let config = config_with(ContextPropertyDefinition {
        data_type: ContextDataType::Number,
        default_value: Some(integer(8080)),
        description: "Port number".to_owned(),
        name: "port".to_owned(),
    });
    config.validate().unwrap();
}
