use markdown_boxes::models::section::SectionType;
use markdown_boxes::sections::{parse_sections, parse_style_spec};

#[test]
fn sections_with_properties_and_content() {
    let body = "# Title\n\n## Section: Hero\n- type: component\n- layout: centered\n- required: true\n\n### Content\n- headline: {{headline}}\n\n## Section: Data Feed\n- type: data\nRows here\r\n## Other\ntext\n";
    let sections = parse_sections(body);
    assert_eq!(sections.len(), 2);
    assert_eq!(sections[0].name, "Hero");
    assert_eq!(sections[0].section_type, SectionType::Component);
    assert_eq!(sections[0].properties.get("layout"), Some("centered".to_string()));
    assert_eq!(sections[0].properties.get("required"), Some("true".to_string()));
    assert_eq!(sections[0].properties.get("type"), None);
    assert_eq!(sections[0].content, "### Content\n- headline: {{headline}}");
    assert_eq!(sections[1].name, "Data Feed");
    assert_eq!(sections[1].section_type, SectionType::Data);
    assert_eq!(sections[1].content, "Rows here");
}

#[test]
fn section_without_type_is_component() {
    let sections = parse_sections("## Section: Plain\nJust text");
    assert_eq!(sections.len(), 1);
    assert_eq!(sections[0].section_type, SectionType::Component);
    assert_eq!(sections[0].content, "Just text");
}

#[test]
fn unknown_section_type_left_as_text() {
    let sections = parse_sections("## Section: Odd\n- type: widget\nbody\n## Section: Ok\n- type: logic\n");
    assert_eq!(sections.len(), 1);
    assert_eq!(sections[0].name, "Ok");
    assert_eq!(sections[0].section_type, SectionType::Logic);
    assert_eq!(sections[0].content, "");
}

#[test]
fn no_sections() {
    assert!(parse_sections("# Heading\n## Overview\ntext").is_empty());
    assert!(parse_sections("").is_empty());
}

#[test]
fn styling_spec() {
    let body = "intro\n## Styling: DesignSystem\n- type: style\n- approach: brutalist\n\n### Colors\n- primary: {{accent_color | default: \"#000000\"}}\n- background: #ffffff\n\n### Typography\n- headings: JetBrains Mono\n\n### Effects\n- borders: 2px solid\n## Next\n- ignored: yes\n";
    let spec = parse_style_spec(body).unwrap();
    assert_eq!(spec.name, "DesignSystem");
    assert_eq!(spec.approach, Some("brutalist".to_string()));
    assert_eq!(spec.colors.get("primary"), Some("{{accent_color | default: \"#000000\"}}".to_string()));
    assert_eq!(spec.colors.get("background"), Some("#ffffff".to_string()));
    assert_eq!(spec.typography.get("headings"), Some("JetBrains Mono".to_string()));
    assert_eq!(spec.effects.get("borders"), Some("2px solid".to_string()));
    assert_eq!(spec.effects.get("ignored"), None);
}

#[test]
fn no_styling_spec() {
    assert!(parse_style_spec("## Section: A\n- type: style\n").is_none());
}

#[test]
fn styling_properties_before_subsection_ignored() {
    let spec = parse_style_spec("## Styling: S\n\n- stray: 1\n### Colors\n- a: b").unwrap();
    assert_eq!(spec.approach, None);
    assert_eq!(spec.colors.get("stray"), None);
    assert_eq!(spec.colors.get("a"), Some("b".to_string()));
}
