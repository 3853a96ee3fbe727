use markdown_boxes::models::placeholder::{Placeholder, PlaceholderType};
use markdown_boxes::models::template::{Category, Template};
use markdown_boxes::store::{get_template, search_templates};

fn placeholder(key: &str, label: &str, kind: PlaceholderType, options: Option<Vec<&str>>) -> Placeholder {
    Placeholder {
        key: key.to_string(),
        label: label.to_string(),
        kind,
        options: options.map(|o| o.into_iter().map(|s| s.to_string()).collect()),
        filters: Vec::new(),
    }
}

fn template(
    slug: &str,
    title: &str,
    category: Category,
    tags: &[&str],
    description: &str,
    placeholders: Vec<Placeholder>,
    body: &str,
) -> Template {
    Template {
        slug: slug.to_string(),
        title: title.to_string(),
        mdal_type: None,
        version: None,
        author: None,
        category,
        tags: tags.iter().map(|t| t.to_string()).collect(),
        preview: None,
        description: description.to_string(),
        outputs: Vec::new(),
        placeholders,
        sections: Vec::new(),
        style_spec: None,
        body: body.to_string(),
    }
}

/// The embedded template set, sorted by title as the generated index is.
fn load_templates() -> Vec<Template> {
    vec![
        template(
            "auth-flow",
            "Authentication Flow",
            Category::ImplementationPlan,
            &["auth", "jwt", "backend", "security"],
            "Step-by-step plan for building JWT-based authentication with login, registration, and token refresh.",
            vec![
                placeholder("project_name", "Project Name", PlaceholderType::Text, None),
                placeholder(
                    "auth_provider",
                    "Auth Provider",
                    PlaceholderType::Select,
                    Some(vec!["Firebase", "Supabase", "Custom JWT", "Auth0"]),
                ),
                placeholder(
                    "framework",
                    "Backend Framework",
                    PlaceholderType::Select,
                    Some(vec!["Express", "FastAPI", "Axum", "Django", "Rails"]),
                ),
                placeholder("additional_requirements", "Additional Requirements", PlaceholderType::Multiline, None),
            ],
            "# {{project_name}} — Authentication Flow",
        ),
        template(
            "data-table",
            "Data Table Component",
            Category::UiComponent,
            &["table", "data", "component", "ui"],
            "Prompt for building a sortable, filterable data table component with pagination.",
            vec![
                placeholder(
                    "framework",
                    "UI Framework",
                    PlaceholderType::Select,
                    Some(vec!["React", "Vue", "Svelte", "Solid"]),
                ),
                placeholder("columns", "Column Definitions (comma-separated)", PlaceholderType::Text, None),
                placeholder("has_pagination", "Include Pagination", PlaceholderType::Boolean, None),
            ],
            "# Data Table Component",
        ),
        template(
            "landing-page",
            "Landing Page Design",
            Category::DesignPrompt,
            &["design", "landing-page", "ui", "marketing"],
            "AI prompt for designing a modern landing page with hero, features, and CTA sections.",
            vec![
                placeholder("product_name", "Product Name", PlaceholderType::Text, None),
                placeholder("tagline", "Tagline", PlaceholderType::Text, None),
            ],
            "# {{product_name}}",
        ),
    ]
}

#[test]
fn load_embedded_templates() {
    let templates = load_templates();
    assert_eq!(templates.len(), 3);
}

#[test]
fn find_template_by_slug() {
    let templates = load_templates();
    let result = get_template(&templates, "auth-flow");
    assert!(result.is_some());
    assert_eq!(result.unwrap().title, "Authentication Flow");
}

#[test]
fn find_nonexistent_template() {
    let templates = load_templates();
    assert!(get_template(&templates, "nonexistent").is_none());
}

#[test]
fn filter_by_category() {
    let templates = load_templates();
    let results = markdown_boxes::store::filter_by_category(&templates, &Category::ImplementationPlan);
    assert_eq!(results.len(), 1);
    assert_eq!(results[0].slug, "auth-flow");
}

#[test]
fn search_by_title() {
    let templates = load_templates();
    let results = search_templates(&templates, "auth");
    assert!(results.iter().any(|t| t.slug == "auth-flow"));
}

#[test]
fn search_by_tag() {
    let templates = load_templates();
    let results = search_templates(&templates, "jwt");
    assert!(results.iter().any(|t| t.slug == "auth-flow"));
}

#[test]
fn empty_search_returns_all() {
    let templates = load_templates();
    let results = search_templates(&templates, "");
    assert_eq!(results.len(), templates.len());
}

#[test]
fn search_is_case_insensitive_and_keeps_order() {
    let templates = load_templates();
    let results = search_templates(&templates, "PROMPT");
    let slugs: Vec<&str> = results.iter().map(|t| t.slug.as_str()).collect();
    assert_eq!(slugs, vec!["data-table", "landing-page"]);
}

#[test]
fn search_without_match_is_empty() {
    let templates = load_templates();
    assert!(search_templates(&templates, "kubernetes").is_empty());
}

#[test]
fn filter_then_filter_again_is_unchanged() {
    let templates = load_templates();
    let once = markdown_boxes::store::filter_by_category(&templates, &Category::DesignPrompt);
    let twice = markdown_boxes::store::filter_by_category(&once, &Category::DesignPrompt);
    assert_eq!(once.len(), 1);
    assert_eq!(twice.len(), 1);
    assert_eq!(twice[0].slug, "landing-page");
}

#[test]
fn get_template_returns_full_copy() {
    let templates = load_templates();
    let t = get_template(&templates, "data-table").unwrap();
    assert_eq!(t.placeholders.len(), 3);
    assert_eq!(t.placeholders[0].options.as_ref().unwrap().len(), 4);
    assert_eq!(t.tags, vec!["table", "data", "component", "ui"]);
}
