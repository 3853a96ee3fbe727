use markdown_boxes::frontmatter::{
    convert_filters, inline_filters_in, placeholder_filters, split_frontmatter, FilterArg,
    FilterInput,
};
use markdown_boxes::models::filter::Filter;

const SOURCE: &str = "\n---\ntitle: \"Analytics Dashboard\"\ncategory: design-prompt\n---\n\n# Design Prompt: {{product_name}}\n\n";

#[test]
fn frontmatter_and_body_are_split() {
    let (yaml, body) = split_frontmatter(SOURCE).unwrap();
    assert_eq!(yaml, "\ntitle: \"Analytics Dashboard\"\ncategory: design-prompt\n");
    assert_eq!(body, "# Design Prompt: {{product_name}}");
}

#[test]
fn source_without_leading_dashes_has_no_frontmatter() {
    assert_eq!(split_frontmatter("title: x\n---\nbody"), None);
    assert_eq!(split_frontmatter(""), None);
}

#[test]
fn source_without_closing_dashes_has_no_frontmatter() {
    assert_eq!(split_frontmatter("---\ntitle: x\nbody"), None);
}

#[test]
fn body_after_a_later_rule_is_kept() {
    let (yaml, body) = split_frontmatter("---a---b --- c").unwrap();
    assert_eq!(yaml, "a");
    assert_eq!(body, "b --- c");
}

fn entries(pairs: Vec<(&str, FilterArg)>) -> FilterInput {
    FilterInput::Entries(pairs.into_iter().map(|(k, a)| (k.to_string(), a)).collect())
}

#[test]
fn frontmatter_filters_are_converted_in_order() {
    let inputs = vec![
        FilterInput::Flag("required".to_string()),
        entries(vec![("max_length", FilterArg::Number(100))]),
        entries(vec![("default", FilterArg::Text("My Project".to_string()))]),
        entries(vec![("options", FilterArg::List(vec!["A".to_string(), "B".to_string()]))]),
        entries(vec![("required", FilterArg::Null)]),
    ];
    assert_eq!(
        convert_filters(&inputs),
        Some(vec![
            Filter::Required,
            Filter::MaxLength(100),
            Filter::Default("My Project".to_string()),
            Filter::Options(vec!["A".to_string(), "B".to_string()]),
            Filter::Required,
        ])
    );
}

#[test]
fn unknown_frontmatter_filters_are_dropped() {
    let inputs = vec![
        FilterInput::Flag("optional".to_string()),
        entries(vec![("color", FilterArg::Text("red".to_string()))]),
        entries(vec![]),
    ];
    assert_eq!(convert_filters(&inputs), Some(vec![]));
}

#[test]
fn first_known_name_of_a_map_decides() {
    let inputs = vec![entries(vec![
        ("required", FilterArg::Null),
        ("default", FilterArg::Text("x".to_string())),
        ("max_length", FilterArg::Number(5)),
    ])];
    assert_eq!(convert_filters(&inputs), Some(vec![Filter::MaxLength(5)]));
    let inputs = vec![entries(vec![
        ("options", FilterArg::List(vec![])),
        ("default", FilterArg::Text("x".to_string())),
    ])];
    assert_eq!(convert_filters(&inputs), Some(vec![Filter::Default("x".to_string())]));
}

#[test]
fn wrongly_typed_argument_makes_the_filters_unreadable() {
    let inputs = vec![
        FilterInput::Flag("required".to_string()),
        entries(vec![("max_length", FilterArg::Text("ten".to_string()))]),
    ];
    assert_eq!(convert_filters(&inputs), None);
    assert_eq!(convert_filters(&vec![entries(vec![("default", FilterArg::Number(5))])]), None);
    assert_eq!(convert_filters(&vec![entries(vec![("options", FilterArg::Other)])]), None);
    assert_eq!(
        convert_filters(&vec![entries(vec![("required", FilterArg::Other)])]),
        Some(vec![Filter::Required])
    );
}

#[test]
fn inline_filters_are_found_for_their_variable() {
    let body = "{{name | required}} {{#if name}}{{other | max_length: 3}}{{/if}} {{ name | default: \"x\" | max_length: 9}}";
    assert_eq!(
        inline_filters_in(body, "name"),
        vec![Filter::Required, Filter::Default("x".to_string()), Filter::MaxLength(9)]
    );
    assert_eq!(inline_filters_in(body, "other"), vec![Filter::MaxLength(3)]);
    assert_eq!(inline_filters_in(body, "none"), vec![]);
}

#[test]
fn frontmatter_filters_win_over_inline_ones() {
    let body = "{{name | max_length: 9 | required | default: \"x\"}}";
    let front = vec![Filter::MaxLength(100)];
    assert_eq!(
        placeholder_filters(&front, body, "name"),
        vec![Filter::MaxLength(100), Filter::Required, Filter::Default("x".to_string())]
    );
    assert_eq!(placeholder_filters(&front, "no placeholders", "name"), vec![Filter::MaxLength(100)]);
}
