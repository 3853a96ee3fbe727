use markdown_boxes::models::filter::Filter;
use markdown_boxes::models::placeholder::{Placeholder, PlaceholderType};
use markdown_boxes::models::section::{Section, SectionType};
use markdown_boxes::models::style::StyleSpec;
use markdown_boxes::models::template::{Category, OutputTarget, Template};
use markdown_boxes::values::Values;

fn values(pairs: &[(&str, &str)]) -> Values {
    let mut v = Values::new();
    for (k, x) in pairs {
        v.insert(k.to_string(), x.to_string());
    }
    v
}

#[test]
fn values_equal_whatever_the_order() {
    assert!(values(&[("a", "1"), ("b", "2")]) == values(&[("b", "2"), ("a", "1")]));
    assert!(values(&[("a", "0"), ("a", "1")]) == values(&[("a", "1")]));
    assert!(values(&[("a", "1")]) != values(&[("a", "2")]));
    assert!(values(&[("a", "1")]) != values(&[("a", "1"), ("b", "")]));
    assert!(Values::new() == Values::new());
}

fn section(content: &str) -> Section {
    Section {
        name: "Hero".to_string(),
        section_type: SectionType::Layout,
        properties: values(&[("layout", "centered")]),
        content: content.to_string(),
    }
}

#[test]
fn sections_compare_by_their_fields() {
    assert_eq!(section("x"), section("x"));
    assert!(section("x") != section("y"));
}

fn style(approach: Option<&str>) -> StyleSpec {
    StyleSpec {
        name: "Dark".to_string(),
        approach: approach.map(|a| a.to_string()),
        colors: values(&[("primary", "#000")]),
        typography: Values::new(),
        effects: Values::new(),
    }
}

#[test]
fn style_specs_compare_by_their_fields() {
    assert_eq!(style(Some("tailwind")), style(Some("tailwind")));
    assert!(style(Some("tailwind")) != style(None));
}

fn template(tags: &[&str], default: &str) -> Template {
    Template {
        slug: "auth-flow".to_string(),
        title: "Authentication Flow".to_string(),
        mdal_type: None,
        version: Some("1.0".to_string()),
        author: None,
        category: Category::ImplementationPlan,
        tags: tags.iter().map(|t| t.to_string()).collect(),
        preview: None,
        description: "Plan".to_string(),
        outputs: vec![OutputTarget { format: "markdown".to_string(), target: "clipboard".to_string() }],
        placeholders: vec![Placeholder {
            key: "name".to_string(),
            label: "Name".to_string(),
            kind: PlaceholderType::Text,
            options: None,
            filters: vec![Filter::Required, Filter::Default(default.to_string())],
        }],
        sections: vec![section("x")],
        style_spec: Some(style(None)),
        body: "# {{name}}".to_string(),
    }
}

#[test]
fn templates_compare_by_their_fields() {
    assert_eq!(template(&["auth", "jwt"], "App"), template(&["auth", "jwt"], "App"));
    assert!(template(&["auth", "jwt"], "App") != template(&["jwt", "auth"], "App"));
    assert!(template(&["auth"], "App") != template(&["auth"], "Web"));
}
