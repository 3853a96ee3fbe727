use markdown_boxes::models::template::Category;

#[test]
fn category_label() {
    assert_eq!(Category::ImplementationPlan.label(), "Implementation Plan");
    assert_eq!(Category::FullStackFlow.label(), "Full-Stack Flow");
}

#[test]
fn every_category_has_its_label() {
    assert_eq!(Category::DesignPrompt.label(), "Design Prompt");
    assert_eq!(Category::UiComponent.label(), "UI Component");
    assert_eq!(Category::BackendPattern.label(), "Backend Pattern");
}
