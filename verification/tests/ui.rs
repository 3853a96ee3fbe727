use markdown_boxes::form::{missing_message, missing_required};
use markdown_boxes::form::{
    char_counter, field_class, field_label, input_hint, is_required, max_length,
    max_length_attr, option_class, select_options, toggle_value,
};
use markdown_boxes::gallery::{
    all_categories, card_href, card_preview_src, filter_button_class, gallery_templates,
};
use markdown_boxes::models::filter::{parse_inline_filters, Filter};
use markdown_boxes::models::placeholder::{Placeholder, PlaceholderType};
use markdown_boxes::models::section::SectionType;
use markdown_boxes::models::template::{Category, Template};
use markdown_boxes::preview::{
    back_href, detail_preview_src, initial_value, preview_values, render_preview,
};
use markdown_boxes::values::Values;

fn placeholder_with(filters: Vec<Filter>, options: Option<Vec<String>>) -> Placeholder {
    Placeholder {
        key: "framework".to_string(),
        label: "Framework".to_string(),
        kind: PlaceholderType::Select,
        options,
        filters,
    }
}

fn template(slug: &str, title: &str, category: Category, tags: &[&str]) -> Template {
    Template {
        slug: slug.to_string(),
        title: title.to_string(),
        mdal_type: None,
        version: None,
        author: None,
        category,
        tags: tags.iter().map(|t| t.to_string()).collect(),
        preview: None,
        description: String::new(),
        outputs: Vec::new(),
        placeholders: Vec::new(),
        sections: Vec::new(),
        style_spec: None,
        body: String::new(),
    }
}

#[test]
fn required_filter_marks_field() {
    let (_, filters) = parse_inline_filters("name | required | max_length: 40");
    assert!(is_required(&filters));
    assert_eq!(max_length(&filters), Some(40));
    assert_eq!(field_label("Name", true), "Name *");
    assert_eq!(field_class(true), "form-field required");
}

#[test]
fn optional_field_without_limit() {
    let (_, filters) = parse_inline_filters("name | default: \"x\"");
    assert!(!is_required(&filters));
    assert_eq!(max_length(&filters), None);
    assert_eq!(field_label("Name", false), "Name");
    assert_eq!(field_class(false), "form-field");
    assert_eq!(max_length_attr(None), "");
}

#[test]
fn first_max_length_wins() {
    let filters = vec![Filter::MaxLength(10), Filter::Required, Filter::MaxLength(20)];
    assert_eq!(max_length(&filters), Some(10));
}

#[test]
fn hint_and_counter() {
    assert_eq!(input_hint("Project Name"), "Enter Project Name...");
    assert_eq!(char_counter("hello", 100), "5/100");
    assert_eq!(char_counter("", 0), "0/0");
    assert_eq!(char_counter("é", 7), "1/7");
    assert_eq!(char_counter("日本語", 10), "3/10");
    assert_eq!(max_length_attr(Some(1234567)), "1234567");
}

#[test]
fn select_options_prefer_filter() {
    let p = placeholder_with(
        vec![Filter::Options(vec!["A".to_string(), "B".to_string()])],
        Some(vec!["X".to_string()]),
    );
    assert_eq!(select_options(&p), vec!["A".to_string(), "B".to_string()]);
    let q = placeholder_with(vec![Filter::Required], Some(vec!["X".to_string()]));
    assert_eq!(select_options(&q), vec!["X".to_string()]);
    let r = placeholder_with(vec![], None);
    assert!(select_options(&r).is_empty());
}

#[test]
fn classes_and_toggle() {
    assert_eq!(toggle_value(true), "Yes");
    assert_eq!(toggle_value(false), "No");
    assert_eq!(option_class(true), "select-mobile-option selected");
    assert_eq!(option_class(false), "select-mobile-option");
    assert_eq!(filter_button_class(true), "filter-btn active");
    assert_eq!(filter_button_class(false), "filter-btn");
}

#[test]
fn categories_in_button_order() {
    assert_eq!(
        all_categories(),
        vec![
            Category::ImplementationPlan,
            Category::DesignPrompt,
            Category::UiComponent,
            Category::FullStackFlow,
            Category::BackendPattern
        ]
    );
}

#[test]
fn card_links() {
    assert_eq!(card_href("auth-flow"), "/template/auth-flow");
    assert_eq!(
        card_preview_src("/markdown-boxes", &Some("auth-flow-hero.svg".to_string())),
        Some("/markdown-boxes/previews/auth-flow-hero.svg".to_string())
    );
    assert_eq!(card_preview_src("/markdown-boxes", &None), None);
    assert_eq!(
        card_preview_src("", &Some("a.svg".to_string())),
        Some("/previews/a.svg".to_string())
    );
    assert_eq!(
        detail_preview_src("/markdown-boxes", &Some("a.svg".to_string())),
        Some("/markdown-boxes/previews/a.svg".to_string())
    );
    assert_eq!(detail_preview_src("/markdown-boxes", &None), None);
    assert_eq!(back_href("/markdown-boxes"), "/markdown-boxes/");
}

#[test]
fn gallery_search_then_category() {
    let ts = vec![
        template("a", "Auth Plan", Category::ImplementationPlan, &["jwt"]),
        template("b", "Auth Design", Category::DesignPrompt, &[]),
        template("c", "Dashboard", Category::DesignPrompt, &["charts"]),
    ];
    let all = gallery_templates(&ts, "", &None);
    assert_eq!(all.len(), 3);
    let auth = gallery_templates(&ts, "auth", &None);
    let slugs: Vec<&str> = auth.iter().map(|t| t.slug.as_str()).collect();
    assert_eq!(slugs, vec!["a", "b"]);
    let auth_design = gallery_templates(&ts, "AUTH", &Some(Category::DesignPrompt));
    let slugs: Vec<&str> = auth_design.iter().map(|t| t.slug.as_str()).collect();
    assert_eq!(slugs, vec!["b"]);
    let design = gallery_templates(&ts, "", &Some(Category::DesignPrompt));
    assert_eq!(design.len(), 2);
}

#[test]
fn initial_value_from_default_filter() {
    let p = placeholder_with(vec![Filter::Required, Filter::Default("React".to_string())], None);
    assert_eq!(initial_value(&p), "React");
    let q = placeholder_with(vec![Filter::Required], None);
    assert_eq!(initial_value(&q), "");
}

#[test]
fn preview_values_skip_empty_fields() {
    let fields = vec![
        ("name".to_string(), "Alice".to_string()),
        ("role".to_string(), String::new()),
        ("name".to_string(), "Bob".to_string()),
    ];
    let values = preview_values(&fields);
    assert_eq!(values.get("name"), Some("Bob".to_string()));
    assert_eq!(values.get("role"), None);
}

#[test]
fn preview_evaluates_blocks_then_placeholders() {
    let body = "{{#if name}}Hi {{name}}{{else}}Hi {{guest | default: \"guest\"}}{{/if}}!";
    let mut values = Values::new();
    values.insert("name".to_string(), "Ann".to_string());
    assert_eq!(render_preview(body, &values), "Hi Ann!");
    let empty = Values::new();
    assert_eq!(render_preview(body, &empty), "Hi guest!");
}

#[test]
fn each_item_placeholder_filled_before_substitution() {
    let body = "{{#each tags as tag}}[{{tag}}]{{/each}} by {{author}}";
    let mut values = Values::new();
    values.insert("tags".to_string(), "a, b".to_string());
    values.insert("author".to_string(), "me".to_string());
    assert_eq!(render_preview(body, &values), "[a][b] by me");
}

#[test]
fn section_type_names() {
    assert_eq!(SectionType::Component.name(), "component");
    assert_eq!(SectionType::Layout.name(), "layout");
    assert_eq!(SectionType::Logic.name(), "logic");
    assert_eq!(SectionType::Data.name(), "data");
    assert_eq!(SectionType::Style.name(), "style");
}

#[test]
fn missing_required_fields_block_the_export() {
    let required = |key: &str, label: &str| Placeholder {
        key: key.to_string(),
        label: label.to_string(),
        kind: PlaceholderType::Text,
        options: None,
        filters: vec![Filter::Required],
    };
    let optional = placeholder_with(vec![], None);
    let fields = vec![
        (required("name", "Project Name"), String::new()),
        (optional, String::new()),
        (required("goal", "Goal"), "ship".to_string()),
        (required("team", "Team"), String::new()),
    ];
    let missing = missing_required(&fields);
    assert_eq!(missing, vec!["Project Name".to_string(), "Team".to_string()]);
    assert_eq!(
        missing_message(&missing),
        Some("Fill in the required fields: Project Name, Team".to_string())
    );
    assert_eq!(missing_message(&vec![]), None);
    assert_eq!(missing_required(&vec![(required("a", "A"), "x".to_string())]), Vec::<String>::new());
}
