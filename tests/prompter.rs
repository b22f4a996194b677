use llm_functions::functions::{Function, Functions};
use llm_functions::prompter::{CompletionModelPrompter, RenderError};

fn function(name: &str, description: &str, parameters: &str) -> Function {
    Function::new(
        name.to_string(),
        description.to_string(),
        serde_json::from_str(parameters).unwrap(),
    )
}

fn buy_btc() -> Functions {
    Functions::new(vec![function(
        "buy_btc",
        "Buy bitcoin",
        r#"{"properties": {"amount": {"type": "number"}}}"#,
    )])
}

#[test]
fn head_and_call_header_literals() {
    assert_eq!(CompletionModelPrompter::head(), "\n\nAvailable functions:\n");
    assert_eq!(CompletionModelPrompter::call_header(), "\n\nFunction call: ");
}

#[test]
fn function_block_layout() {
    let b = CompletionModelPrompter::function_block("f", "does f", "{}");
    assert_eq!(b, "f - does f\n```jsonschema\n{}\n```");
}

#[test]
fn join_blocks_uses_blank_lines() {
    assert_eq!(CompletionModelPrompter::join_blocks(&vec![]), "");
    assert_eq!(CompletionModelPrompter::join_blocks(&vec!["a".to_string()]), "a");
    let j = CompletionModelPrompter::join_blocks(&vec!["a".to_string(), "b".to_string(), "c".to_string()]);
    assert_eq!(j, "a\n\nb\n\nc");
}

#[test]
fn prompt_for_buy_btc() {
    let p = CompletionModelPrompter::new();
    let out = p.prompt("Buy 10 dollars of Bitcoin", &buy_btc()).unwrap();
    assert!(out.ends_with("Function call: "));
    assert!(out.contains(
        "buy_btc - Buy bitcoin\n```jsonschema\n{\n    \"amount\": {\n        \"type\": \"number\"\n    }\n}\n```"
    ));
    let expected = "Buy 10 dollars of Bitcoin\n\nAvailable functions:\nbuy_btc - Buy bitcoin\n```jsonschema\n{\n    \"amount\": {\n        \"type\": \"number\"\n    }\n}\n```\n\nFunction call: ";
    assert_eq!(out, expected);
}

#[test]
fn prompt_is_repeatable() {
    let p = CompletionModelPrompter::new();
    let fs = buy_btc();
    let a = p.prompt("Buy 10 dollars of Bitcoin", &fs).unwrap();
    let b = p.prompt("Buy 10 dollars of Bitcoin", &fs).unwrap();
    assert_eq!(a, b);
}

#[test]
fn prompt_has_one_block_per_function_in_order() {
    let fs = Functions::new(vec![
        function("first", "one", r#"{"properties": {}}"#),
        function("second", "two", r#"{"properties": {"x": {"type": "string"}}}"#),
        function("third", "three", r#"{"properties": {"y": {"type": "integer"}}}"#),
    ]);
    let out = CompletionModelPrompter::new().prompt("Pick", &fs).unwrap();
    assert_eq!(out.matches("\n```jsonschema\n").count(), 3);
    let a = out.find("first - one").unwrap();
    let b = out.find("second - two").unwrap();
    let c = out.find("third - three").unwrap();
    assert!(a < b && b < c);
    assert!(out.contains("first - one\n```jsonschema\n{}\n```\n\nsecond - two"));
}

#[test]
fn prompt_with_empty_catalog() {
    let out = CompletionModelPrompter::new().prompt("Hi", &Functions::new(vec![])).unwrap();
    assert_eq!(out, "Hi\n\nAvailable functions:\n\n\nFunction call: ");
}

#[test]
fn missing_properties_is_an_error() {
    let fs = Functions::new(vec![
        function("ok", "fine", r#"{"properties": {}}"#),
        function("bad", "no properties", r#"{"type": "object"}"#),
    ]);
    let r = CompletionModelPrompter::new().prompt("Pick", &fs);
    assert_eq!(r, Err(RenderError::MissingProperties));
}

#[test]
fn prompt_for_function_alone() {
    let f = function("f", "d", r#"{"properties": {"a": 1}}"#);
    let b = CompletionModelPrompter::prompt_for_function(&f).unwrap();
    assert_eq!(b, "f - d\n```jsonschema\n{\n    \"a\": 1\n}\n```");
}

#[test]
fn functions_keep_order() {
    let fs = Functions::new(vec![
        function("a", "x", "{}"),
        function("b", "y", "{}"),
    ]);
    let list = fs.functions();
    assert_eq!(fs.len(), 2);
    assert_eq!(list.len(), 2);
    assert_eq!(list[0].name, "a");
    assert_eq!(list[1].name, "b");
    assert_eq!(list[1].description, "y");
}

#[test]
fn render_with_schemas_reports_first_error() {
    let fs = Functions::new(vec![
        function("a", "x", "{}"),
        function("b", "y", "{}"),
        function("c", "z", "{}"),
    ]);
    let schemas = vec![
        Ok("{}".to_string()),
        Err(RenderError::MissingProperties),
        Ok("{}".to_string()),
    ];
    assert_eq!(
        CompletionModelPrompter::render_with_schemas("P", &fs, &schemas),
        Err(RenderError::MissingProperties)
    );
}

#[test]
fn render_with_schemas_builds_prompt() {
    let fs = Functions::new(vec![function("a", "x", "{}"), function("b", "y", "{}")]);
    let schemas = vec![Ok("S1".to_string()), Ok("S2".to_string())];
    let out = CompletionModelPrompter::render_with_schemas("P", &fs, &schemas).unwrap();
    assert_eq!(
        out,
        "P\n\nAvailable functions:\na - x\n```jsonschema\nS1\n```\n\nb - y\n```jsonschema\nS2\n```\n\nFunction call: "
    );
}

#[test]
fn schemas_per_entry() {
    let fs = Functions::new(vec![
        function("a", "x", r#"{"properties": {"k": true}}"#),
        function("b", "y", r#"{}"#),
    ]);
    let s = CompletionModelPrompter::schemas(&fs);
    assert_eq!(s, vec![Ok("{\n    \"k\": true\n}".to_string()), Err(RenderError::MissingProperties)]);
}

#[test]
fn joined_blocks_of_catalog() {
    let fs = Functions::new(vec![
        function("a", "x", r#"{"properties": {}}"#),
        function("b", "y", r#"{"properties": {}}"#),
    ]);
    let body = CompletionModelPrompter::prompt_for_functions(&fs).unwrap();
    assert_eq!(body, "a - x\n```jsonschema\n{}\n```\n\nb - y\n```jsonschema\n{}\n```");
}

#[test]
fn join_with_schemas_joins_blocks() {
    let fs = Functions::new(vec![function("a", "x", "{}"), function("b", "y", "{}")]);
    let schemas = vec![Ok("S1".to_string()), Ok("S2".to_string())];
    let body = CompletionModelPrompter::join_with_schemas(&fs, &schemas).unwrap();
    assert_eq!(body, "a - x\n```jsonschema\nS1\n```\n\nb - y\n```jsonschema\nS2\n```");
}

#[test]
fn properties_schema_indents_by_four() {
    let v: serde_json::Value = serde_json::from_str(r#"{"properties": {"a": [1]}}"#).unwrap();
    assert_eq!(
        CompletionModelPrompter::properties_schema(&v),
        Ok("{\n    \"a\": [\n        1\n    ]\n}".to_string())
    );
    let missing: serde_json::Value = serde_json::from_str("[1, 2]").unwrap();
    assert_eq!(CompletionModelPrompter::properties_schema(&missing), Err(RenderError::MissingProperties));
}
