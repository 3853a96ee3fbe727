use markdown_boxes::models::filter::{parse_inline_filters, Filter};

#[test]
fn parse_no_filters() {
    let (name, filters) = parse_inline_filters("project_name");
    assert_eq!(name, "project_name");
    assert!(filters.is_empty());
}

#[test]
fn parse_required_filter() {
    let (name, filters) = parse_inline_filters("project_name | required");
    assert_eq!(name, "project_name");
    assert_eq!(filters, vec![Filter::Required]);
}

#[test]
fn parse_default_filter() {
    let (name, filters) = parse_inline_filters("project_name | default: \"My Project\"");
    assert_eq!(name, "project_name");
    assert_eq!(filters, vec![Filter::Default("My Project".to_string())]);
}

#[test]
fn parse_max_length_filter() {
    let (name, filters) = parse_inline_filters("title | max_length: 100");
    assert_eq!(name, "title");
    assert_eq!(filters, vec![Filter::MaxLength(100)]);
}

#[test]
fn parse_options_filter() {
    let (name, filters) = parse_inline_filters("framework | options: [React, Vue, Svelte]");
    assert_eq!(name, "framework");
    assert_eq!(
        filters,
        vec![Filter::Options(vec![
            "React".into(),
            "Vue".into(),
            "Svelte".into()
        ])]
    );
}

#[test]
fn parse_multiple_filters() {
    let (name, filters) =
        parse_inline_filters("name | required | max_length: 50 | default: \"Untitled\"");
    assert_eq!(name, "name");
    assert_eq!(filters.len(), 3);
    assert_eq!(filters[0], Filter::Required);
    assert_eq!(filters[1], Filter::MaxLength(50));
    assert_eq!(filters[2], Filter::Default("Untitled".to_string()));
}

#[test]
fn invalid_max_length_is_dropped() {
    let (name, filters) = parse_inline_filters("  title  | max_length: lots | bogus | required ");
    assert_eq!(name, "title");
    assert_eq!(filters, vec![Filter::Required]);
}

#[test]
fn default_quotes_are_stripped() {
    let (_, filters) = parse_inline_filters("x | default:\"\"\"a b\"\"");
    assert_eq!(filters, vec![Filter::Default("a b".to_string())]);
}
