use tixgraft::operations::pull::graft_values;
use tixgraft::cli::args::parse_context_args;
use tixgraft::config::context::{
    coerce_to_boolean, coerce_to_number, coerce_to_string, merge_context_values,
    validate_and_merge_values, ContextDataType, ContextPropertyDefinition, ContextValues,
    FloatReading,
};
use tixgraft::json::{JsonNumber, JsonValue};

fn read_float(s: &str) -> FloatReading {
    match s.parse::<f64>() {
        Ok(f) if f.is_finite() => match serde_json::Number::from_f64(f) {
            Some(n) => FloatReading::Finite(JsonNumber::Float(n.to_string())),
            None => FloatReading::NotFinite,
        },
        Ok(_) => FloatReading::NotFinite,
        Err(_) => FloatReading::NotANumber,
    }
}

fn integer(i: u64) -> JsonValue {
    JsonValue::Number(JsonNumber::PosInt(i))
}

fn float(text: &str) -> JsonValue {
    JsonValue::Number(JsonNumber::Float(text.to_owned()))
}

fn object(members: Vec<(&str, JsonValue)>) -> JsonValue {
    JsonValue::Object(members.into_iter().map(|(k, v)| (k.to_owned(), v)).collect())
}

fn text(v: Option<&JsonValue>) -> String {
    format!("{v:?}")
}

fn same(a: &JsonValue, b: &JsonValue) -> bool {
    format!("{a:?}") == format!("{b:?}")
}

fn string(s: &str) -> JsonValue {
    JsonValue::String(s.to_owned())
}

fn values(pairs: Vec<(&str, JsonValue)>) -> ContextValues {
    let mut v = ContextValues::new();
    for (k, x) in pairs {
        v.insert(k.to_owned(), x);
    }
    v
}

fn definition(
    name: &str,
    description: &str,
    data_type: ContextDataType,
    default_value: Option<JsonValue>,
) -> ContextPropertyDefinition {
    ContextPropertyDefinition {
        data_type,
        default_value,
        description: description.to_owned(),
        name: name.to_owned(),
    }
}

#[test]
fn parse_simple_context() {
    let context = vec!["name=test".to_owned(), "port=8080".to_owned()];
    let json_args: Vec<String> = vec![];
    let result = parse_context_args(&context, &json_args).unwrap();
    assert_eq!(text(result.get("name")), text(Some(&string("test"))));
    assert_eq!(text(result.get("port")), text(Some(&string("8080"))));
}

#[test]
fn parse_array_context() {
    let context = vec!["items=a".to_owned(), "items=b".to_owned(), "items=c".to_owned()];
    let json_args: Vec<String> = vec![];
    let result = parse_context_args(&context, &json_args).unwrap();
    let expected = JsonValue::Array(vec![string("a"), string("b"), string("c")]);
    assert_eq!(text(result.get("items")), text(Some(&expected)));
}

#[test]
fn parse_json_context() {
    let context: Vec<String> = vec![];
    let json_args = vec![r#"config={"key":"value"}"#.to_owned()];
    let result = parse_context_args(&context, &json_args).unwrap();
    let expected = object(vec![("key", string("value"))]);
    assert_eq!(text(result.get("config")), text(Some(&expected)));
}

#[test]
fn parse_mixed_context() {
    let context = vec!["name=test".to_owned()];
    let json_args = vec![r#"people=[{"name":"Alice"},{"name":"Bob"}]"#.to_owned()];
    let result = parse_context_args(&context, &json_args).unwrap();
    assert_eq!(text(result.get("name")), text(Some(&string("test"))));
    let expected = JsonValue::Array(vec![
        object(vec![("name", string("Alice"))]),
        object(vec![("name", string("Bob"))]),
    ]);
    assert_eq!(text(result.get("people")), text(Some(&expected)));
}

#[test]
fn invalid_context_format() {
    let context = vec!["invalid".to_owned()];
    let json_args: Vec<String> = vec![];
    let result = parse_context_args(&context, &json_args);
    assert!(result.is_err());
    assert!(result.unwrap_err().display().contains("Expected KEY=VALUE"));
}

#[test]
fn invalid_json() {
    let context: Vec<String> = vec![];
    let json_args = vec!["config={invalid json}".to_owned()];
    let result = parse_context_args(&context, &json_args);
    assert!(result.is_err());
    assert!(result.unwrap_err().display().contains("Invalid JSON"));
}

#[test]
fn validate_required_properties() {
    let definitions = vec![
        definition("projectName", "Project name", ContextDataType::String, None),
        definition("maxGbPerPod", "Max GB per pod", ContextDataType::Number, Some(integer(10))),
    ];

    let result = validate_and_merge_values(&definitions, ContextValues::new(), &read_float);
    assert!(result.is_err());
    assert!(result.unwrap_err().display().contains("Missing required context properties"));

    let provided = values(vec![("projectName", string("my-app"))]);
    let result = validate_and_merge_values(&definitions, provided, &read_float);
    assert!(result.is_ok());
    let merged = result.unwrap();
    assert_eq!(text(merged.get("projectName")), text(Some(&string("my-app"))));
    assert_eq!(text(merged.get("maxGbPerPod")), text(Some(&integer(10))));
}

#[test]
fn type_coercion_string_to_number() {
    let definitions = vec![definition("port", "Port number", ContextDataType::Number, None)];
    let provided = values(vec![("port", string("8080"))]);
    let result = validate_and_merge_values(&definitions, provided, &read_float);
    assert!(result.is_ok());
    let merged = result.unwrap();
    assert_eq!(text(merged.get("port")), text(Some(&integer(8080))));
}

#[test]
fn type_coercion_string_to_boolean() {
    let definitions = vec![definition("enabled", "Enable feature", ContextDataType::Boolean, None)];
    let provided = values(vec![("enabled", string("true"))]);
    let result = validate_and_merge_values(&definitions, provided, &read_float);
    assert!(result.is_ok());
    let merged = result.unwrap();
    assert_eq!(text(merged.get("enabled")), text(Some(&JsonValue::Bool(true))));
}

#[test]
fn empty_string_removes_property() {
    let definitions = vec![definition(
        "optional",
        "Optional property",
        ContextDataType::String,
        Some(string("default")),
    )];
    let provided = values(vec![("optional", string(""))]);
    let result = validate_and_merge_values(&definitions, provided, &read_float);
    assert!(result.is_ok());
    let merged = result.unwrap();
    assert!(merged.get("optional").is_none());
}

#[test]
fn array_validation() {
    let definitions = vec![definition("items", "List of items", ContextDataType::Array, None)];
    let provided = values(vec![("items", JsonValue::Array(vec![string("a"), string("b"), string("c")]))]);
    let result = validate_and_merge_values(&definitions, provided, &read_float);
    result.unwrap();

    let provided_2 = values(vec![("items", string("not-an-array"))]);
    let result_2 = validate_and_merge_values(&definitions, provided_2, &read_float);
    result_2.unwrap_err();
}

#[test]
fn coerce_number_to_string() {
    let val = coerce_to_string(&integer(42));
    assert!(same(&val, &string("42")));
}

#[test]
fn coerce_bool_to_string() {
    let val = coerce_to_string(&JsonValue::Bool(true));
    assert!(same(&val, &string("true")));
}

#[test]
fn coerce_null_to_string() {
    let val = coerce_to_string(&JsonValue::Null);
    assert!(same(&val, &string("null")));
}

#[test]
fn coerce_string_float_to_number() {
    let v = coerce_to_number("test", &string("3.5"), &read_float).unwrap();
    assert!(same(&v, &float("3.5")));
}

#[test]
fn coerce_invalid_string_to_number() {
    coerce_to_number("test", &string("not-a-number"), &read_float).unwrap_err();
}

#[test]
fn coerce_bool_to_number_fails() {
    coerce_to_number("test", &JsonValue::Bool(true), &read_float).unwrap_err();
}

#[test]
fn coerce_number_to_boolean() {
    let result = coerce_to_boolean("test", &integer(1));
    assert!(same(&result.unwrap(), &JsonValue::Bool(true)));
    let result = coerce_to_boolean("test", &integer(0));
    assert!(same(&result.unwrap(), &JsonValue::Bool(false)));
}

#[test]
fn coerce_string_yes_no_to_boolean() {
    assert!(same(&coerce_to_boolean("test", &string("yes")).unwrap(), &JsonValue::Bool(true)));
    assert!(same(&coerce_to_boolean("test", &string("no")).unwrap(), &JsonValue::Bool(false)));
    assert!(same(&coerce_to_boolean("test", &string("1")).unwrap(), &JsonValue::Bool(true)));
    assert!(same(&coerce_to_boolean("test", &string("0")).unwrap(), &JsonValue::Bool(false)));
    assert!(same(&coerce_to_boolean("test", &string("false")).unwrap(), &JsonValue::Bool(false)));
}

#[test]
fn coerce_invalid_string_to_boolean() {
    coerce_to_boolean("test", &string("maybe")).unwrap_err();
}

#[test]
fn coerce_null_to_boolean_fails() {
    coerce_to_boolean("test", &JsonValue::Null).unwrap_err();
}

#[test]
fn coerce_float_to_boolean_fails() {
    coerce_to_boolean("test", &float("2.5")).unwrap_err();
}

#[test]
fn type_error_in_validation() {
    let definitions = vec![definition("count", "Count", ContextDataType::Number, None)];
    let provided = values(vec![("count", JsonValue::Bool(true))]);
    let result = validate_and_merge_values(&definitions, provided, &read_float);
    assert!(result.is_err());
    assert!(result.unwrap_err().display().contains("Invalid context values"));
}

#[test]
fn child_context_overrides_parent() {
    let parent = values(vec![("a", string("1")), ("b", string("2"))]);
    let child = values(vec![("b", string("3")), ("c", string("4"))]);
    let merged = merge_context_values(parent, child);
    assert_eq!(text(merged.get("a")), text(Some(&string("1"))));
    assert_eq!(text(merged.get("b")), text(Some(&string("3"))));
    assert_eq!(text(merged.get("c")), text(Some(&string("4"))));
}

#[test]
fn child_empty_string_removes_parent_value() {
    let parent = values(vec![("a", string("1"))]);
    let child = values(vec![("a", string(""))]);
    let merged = merge_context_values(parent, child);
    assert!(merged.get("a").is_none());
}

#[test]
fn number_to_string_coercion_in_validation() {
    let definitions = vec![definition("name", "Name", ContextDataType::String, None)];
    let provided = values(vec![("name", integer(7))]);
    let merged = validate_and_merge_values(&definitions, provided, &read_float).unwrap();
    assert_eq!(text(merged.get("name")), text(Some(&string("7"))));
}

#[test]
fn graft_values_use_the_context_without_definitions() {
    let mut ctx = ContextValues::new();
    ctx.insert("name".to_owned(), string("app"));
    let v = graft_values(vec![], &ctx, &read_float).unwrap();
    assert!(same(v.get("name").unwrap(), &string("app")));
}

#[test]
fn graft_values_check_and_complete_with_definitions() {
    let ctx = ContextValues::new();
    let defs = vec![definition("port", "the port", ContextDataType::Number, Some(integer(8080)))];
    let v = graft_values(defs, &ctx, &read_float).unwrap();
    assert!(same(v.get("port").unwrap(), &integer(8080)));
    let defs = vec![definition("name", "required", ContextDataType::String, None)];
    assert!(graft_values(defs, &ctx, &read_float).is_err());
}
