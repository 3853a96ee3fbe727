use markdown_boxes::substitute::substitute;
use markdown_boxes::values::Values;

#[test]
fn substitute_single_placeholder() {
    let body = "Hello {{name}}!";
    let mut values = Values::new();
    values.insert("name".to_string(), "World".to_string());
    assert_eq!(substitute(body, &values), "Hello World!");
}

#[test]
fn substitute_multiple_placeholders() {
    let body = "{{greeting}} {{name}}, welcome to {{place}}.";
    let mut values = Values::new();
    values.insert("greeting".to_string(), "Hi".to_string());
    values.insert("name".to_string(), "Alice".to_string());
    values.insert("place".to_string(), "Rust".to_string());
    assert_eq!(substitute(body, &values), "Hi Alice, welcome to Rust.");
}

#[test]
fn repeated_placeholder() {
    let body = "{{x}} and {{x}} again";
    let mut values = Values::new();
    values.insert("x".to_string(), "yes".to_string());
    assert_eq!(substitute(body, &values), "yes and yes again");
}

#[test]
fn missing_value_leaves_placeholder() {
    let body = "Hello {{name}}!";
    let values = Values::new();
    assert_eq!(substitute(body, &values), "Hello {{name}}!");
}

#[test]
fn empty_value_substitutes_empty() {
    let body = "Hello {{name}}!";
    let mut values = Values::new();
    values.insert("name".to_string(), String::new());
    assert_eq!(substitute(body, &values), "Hello !");
}

#[test]
fn substitute_strips_filter_syntax() {
    let body = "Hello {{name | required}}!";
    let mut values = Values::new();
    values.insert("name".to_string(), "World".to_string());
    assert_eq!(substitute(body, &values), "Hello World!");
}

#[test]
fn substitute_strips_multiple_filters() {
    let body = "Project: {{title | required | max_length: 100}}";
    let mut values = Values::new();
    values.insert("title".to_string(), "MyApp".to_string());
    assert_eq!(substitute(body, &values), "Project: MyApp");
}

#[test]
fn substitute_applies_default_filter() {
    let body = "Hello {{name | default: \"World\"}}!";
    let values = Values::new();
    assert_eq!(substitute(body, &values), "Hello World!");
}

#[test]
fn substitute_value_overrides_default() {
    let body = "Hello {{name | default: \"World\"}}!";
    let mut values = Values::new();
    values.insert("name".to_string(), "Alice".to_string());
    assert_eq!(substitute(body, &values), "Hello Alice!");
}

#[test]
fn substitute_unfilled_filter_placeholder_shows_var_name() {
    let body = "Hello {{name | required}}!";
    let values = Values::new();
    assert_eq!(substitute(body, &values), "Hello {{name}}!");
}

#[test]
fn substitute_skips_block_tags() {
    let body = "{{#if show}}visible{{/if}}";
    let values = Values::new();
    assert_eq!(substitute(body, &values), "{{#if show}}visible{{/if}}");
}

#[test]
fn unterminated_placeholder_kept() {
    let mut values = Values::new();
    values.insert("name".to_string(), "X".to_string());
    assert_eq!(substitute("a {{name} b", &values), "a {{name} b");
}

#[test]
fn empty_value_uses_default() {
    let mut values = Values::new();
    values.insert("name".to_string(), String::new());
    assert_eq!(substitute("{{name | default: \"D\"}}", &values), "D");
}

#[test]
fn plain_text_unchanged() {
    let values = Values::new();
    assert_eq!(substitute("no braces { here }", &values), "no braces { here }");
}
