use markdown_boxes::engine::evaluate_blocks;
use markdown_boxes::values::Values;

#[test]
fn if_truthy_variable() {
    let body = "before {{#if name}}Hello{{/if}} after";
    let mut values = Values::new();
    values.insert("name".to_string(), "Alice".to_string());
    let result = evaluate_blocks(body, &values);
    assert_eq!(result, "before Hello after");
}

#[test]
fn if_falsy_variable() {
    let body = "before {{#if name}}Hello{{/if}} after";
    let values = Values::new();
    let result = evaluate_blocks(body, &values);
    assert_eq!(result, "before  after");
}

#[test]
fn if_else_truthy() {
    let body = "{{#if name}}Hello{{else}}No name{{/if}}";
    let mut values = Values::new();
    values.insert("name".to_string(), "Bob".to_string());
    assert_eq!(evaluate_blocks(body, &values), "Hello");
}

#[test]
fn if_else_falsy() {
    let body = "{{#if name}}Hello{{else}}No name{{/if}}";
    let values = Values::new();
    assert_eq!(evaluate_blocks(body, &values), "No name");
}

#[test]
fn if_equality_check() {
    let body = "{{#if role == \"admin\"}}Admin panel{{else}}User view{{/if}}";
    let mut values = Values::new();
    values.insert("role".to_string(), "admin".to_string());
    assert_eq!(evaluate_blocks(body, &values), "Admin panel");
}

#[test]
fn if_equality_check_fails() {
    let body = "{{#if role == \"admin\"}}Admin panel{{else}}User view{{/if}}";
    let mut values = Values::new();
    values.insert("role".to_string(), "user".to_string());
    assert_eq!(evaluate_blocks(body, &values), "User view");
}

#[test]
fn no_conditionals_passthrough() {
    let body = "Just regular text with {{placeholder}}";
    let values = Values::new();
    assert_eq!(evaluate_blocks(body, &values), body);
}

#[test]
fn malformed_if_left_as_literal() {
    let body = "before {{#if name after";
    let values = Values::new();
    let result = evaluate_blocks(body, &values);
    assert_eq!(result, "before {{#if name after");
}

#[test]
fn each_loop_basic() {
    let body = "{{#each items as item}}- {{item}}\n{{/each}}";
    let mut values = Values::new();
    values.insert("items".to_string(), "Apple,Banana,Cherry".to_string());
    let result = evaluate_blocks(body, &values);
    assert_eq!(result, "- Apple\n- Banana\n- Cherry\n");
}

#[test]
fn each_loop_empty() {
    let body = "{{#each items as item}}- {{item}}\n{{/each}}";
    let values = Values::new();
    let result = evaluate_blocks(body, &values);
    assert_eq!(result, "");
}

#[test]
fn length_condition_counts_items() {
    let body = "{{#if tags.length > 1}}many{{else}}few{{/if}}";
    let mut values = Values::new();
    values.insert("tags".to_string(), "a,b".to_string());
    assert_eq!(evaluate_blocks(body, &values), "many");
    let mut one = Values::new();
    one.insert("tags".to_string(), "a".to_string());
    assert_eq!(evaluate_blocks(body, &one), "few");
    assert_eq!(evaluate_blocks(body, &Values::new()), "few");
}

#[test]
fn length_condition_with_bad_number_falls_back_to_variable() {
    let body = "{{#if tags.length > x}}yes{{else}}no{{/if}}";
    let mut values = Values::new();
    values.insert("tags".to_string(), "a,b".to_string());
    assert_eq!(evaluate_blocks(body, &values), "no");
}

#[test]
fn each_without_as_uses_item() {
    let body = "{{#each xs}}<{{item}}>{{/each}}";
    let mut values = Values::new();
    values.insert("xs".to_string(), " p , q ".to_string());
    assert_eq!(evaluate_blocks(body, &values), "<p><q>");
}

#[test]
fn if_without_end_left_as_literal() {
    let body = "a {{#if x}}b";
    let mut values = Values::new();
    values.insert("x".to_string(), "1".to_string());
    assert_eq!(evaluate_blocks(body, &values), "a {{#if x}}b");
}

#[test]
fn branches_are_trimmed() {
    let body = "[{{#if x}}  yes  {{else}}  no  {{/if}}]";
    assert_eq!(evaluate_blocks(body, &Values::new()), "[no]");
}

#[test]
fn two_blocks_in_sequence() {
    let body = "{{#if a}}A{{/if}}-{{#if b}}B{{else}}b{{/if}}";
    let mut values = Values::new();
    values.insert("a".to_string(), "1".to_string());
    assert_eq!(evaluate_blocks(body, &values), "A-b");
}

#[test]
fn nested_if_blocks() {
    let body = "{{#if a}}X{{#if b}}Y{{/if}}Z{{/if}}";
    let mut both = Values::new();
    both.insert("a".to_string(), "1".to_string());
    both.insert("b".to_string(), "1".to_string());
    assert_eq!(evaluate_blocks(body, &both), "XYZ");
    let mut outer_only = Values::new();
    outer_only.insert("a".to_string(), "1".to_string());
    assert_eq!(evaluate_blocks(body, &outer_only), "XZ");
    let mut inner_only = Values::new();
    inner_only.insert("b".to_string(), "1".to_string());
    assert_eq!(evaluate_blocks(body, &inner_only), "");
}

#[test]
fn nested_if_else_belongs_to_its_own_block() {
    let body = "{{#if a}}{{#if b}}B{{else}}notB{{/if}}{{else}}notA{{/if}}";
    let mut only_a = Values::new();
    only_a.insert("a".to_string(), "1".to_string());
    assert_eq!(evaluate_blocks(body, &only_a), "notB");
    assert_eq!(evaluate_blocks(body, &Values::new()), "notA");
}

#[test]
fn nested_each_blocks() {
    let body = "{{#each rows as r}}[{{#each cols as c}}{{r}}{{c}} {{/each}}]{{/each}}";
    let mut values = Values::new();
    values.insert("rows".to_string(), "1,2".to_string());
    values.insert("cols".to_string(), "a,b".to_string());
    assert_eq!(evaluate_blocks(body, &values), "[1a 1b ][2a 2b ]");
}

#[test]
fn each_nested_in_if_with_else() {
    let body = "{{#if projects.length > 0}}\n## Projects\n{{#each projects as project}}\n- {{project}}\n{{/each}}\n{{else}}\n_No projects yet._\n{{/if}}";
    let mut values = Values::new();
    values.insert("projects".to_string(), "alpha,beta".to_string());
    assert_eq!(
        evaluate_blocks(body, &values),
        "## Projects\n\n- alpha\n\n- beta\n"
    );
    assert_eq!(evaluate_blocks(body, &Values::new()), "_No projects yet._");
}

#[test]
fn unclosed_outer_if_is_left_as_literal() {
    let body = "{{#if a}}X{{#if b}}Y{{/if}}";
    let mut values = Values::new();
    values.insert("a".to_string(), "1".to_string());
    values.insert("b".to_string(), "1".to_string());
    assert_eq!(evaluate_blocks(body, &values), "{{#if a}}X{{#if b}}Y{{/if}}");
}

#[test]
fn number_condition_compares_the_value() {
    let body = "{{#if count > 2}}many{{else}}few{{/if}}";
    let mut five = Values::new();
    five.insert("count".to_string(), "5".to_string());
    assert_eq!(evaluate_blocks(body, &five), "many");
    let mut two = Values::new();
    two.insert("count".to_string(), " 2 ".to_string());
    assert_eq!(evaluate_blocks(body, &two), "few");
    let mut word = Values::new();
    word.insert("count".to_string(), "lots".to_string());
    assert_eq!(evaluate_blocks(body, &word), "few");
    assert_eq!(evaluate_blocks(body, &Values::new()), "few");
}

#[test]
fn number_condition_with_zero_bound() {
    let body = "{{#if n > 0}}yes{{else}}no{{/if}}";
    let mut one = Values::new();
    one.insert("n".to_string(), "1".to_string());
    assert_eq!(evaluate_blocks(body, &one), "yes");
    let mut zero = Values::new();
    zero.insert("n".to_string(), "0".to_string());
    assert_eq!(evaluate_blocks(body, &zero), "no");
}
