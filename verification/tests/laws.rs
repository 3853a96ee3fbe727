use markdown_boxes::store::sort_by_title;
use markdown_boxes::engine::evaluate_blocks;
use markdown_boxes::form::max_length_attr;
use markdown_boxes::gallery::all_categories;
use markdown_boxes::models::filter::{parse_inline_filters, Filter};
use markdown_boxes::models::template::{Category, Template};
use markdown_boxes::preview::render_preview;
use markdown_boxes::store::{filter_by_category as by_category, search_templates};
use markdown_boxes::substitute::substitute;
use markdown_boxes::values::Values;

fn template(slug: &str, title: &str, category: Category, tags: &[&str]) -> Template {
    Template {
        slug: slug.to_string(),
        title: title.to_string(),
        mdal_type: None,
        version: None,
        author: None,
        category,
        tags: tags.iter().map(|t| t.to_string()).collect(),
        preview: None,
        description: String::new(),
        outputs: Vec::new(),
        placeholders: Vec::new(),
        sections: Vec::new(),
        style_spec: None,
        body: String::new(),
    }
}

fn slugs(ts: &[Template]) -> Vec<String> {
    ts.iter().map(|t| t.slug.clone()).collect()
}

fn sample() -> Vec<Template> {
    vec![
        template("a", "Auth Plan", Category::ImplementationPlan, &["jwt"]),
        template("b", "Auth Design", Category::DesignPrompt, &[]),
        template("c", "Dashboard", Category::DesignPrompt, &["auth-charts"]),
        template("d", "Pipeline", Category::ImplementationPlan, &[]),
    ]
}

#[test]
fn labels_are_distinct() {
    let cats = all_categories();
    for a in &cats {
        for b in &cats {
            assert_eq!(a.label() == b.label(), a == b);
        }
    }
}

#[test]
fn search_twice_is_search_once() {
    let ts = sample();
    let once = search_templates(&ts, "Auth");
    let twice = search_templates(&once, "Auth");
    assert_eq!(slugs(&once), vec!["a", "b", "c"]);
    assert_eq!(slugs(&twice), slugs(&once));
}

#[test]
fn search_and_category_commute() {
    let ts = sample();
    for q in ["", "auth", "PLAN", "zzz"] {
        for c in all_categories() {
            let x = by_category(&search_templates(&ts, q), &c);
            let y = search_templates(&by_category(&ts, &c), q);
            assert_eq!(slugs(&x), slugs(&y));
        }
    }
}

#[test]
fn plain_text_passes_the_preview() {
    let mut values = Values::new();
    values.insert("x".to_string(), "1".to_string());
    let body = "# Title\n\nNo placeholders { at } all.";
    assert_eq!(render_preview(body, &values), body);
}

#[test]
fn placeholder_replaced_in_place() {
    let mut values = Values::new();
    values.insert("x".to_string(), "X".to_string());
    assert_eq!(substitute("pre {{x}} post {{y}}", &values), "pre X post {{y}}");
}

#[test]
fn filter_name_is_trimmed() {
    let (name, _) = parse_inline_filters(" \t name  | required");
    assert_eq!(name, "name");
    assert_eq!(name.trim(), name);
}

#[test]
fn max_length_attribute_reads_back() {
    for n in [0usize, 7, 100, 65535, usize::MAX] {
        let attr = max_length_attr(Some(n));
        let (_, filters) = parse_inline_filters(&format!("x | max_length: {}", attr));
        assert_eq!(filters, vec![Filter::MaxLength(n)]);
    }
}

#[test]
fn filters_other_than_default_do_not_change_rendering() {
    let mut values = Values::new();
    values.insert("x".to_string(), "V".to_string());
    values.insert("e".to_string(), String::new());
    for name in ["x", "e", "missing"] {
        let bare = substitute(&format!("{{{{{}}}}}", name), &values);
        let filtered = substitute(&format!("{{{{{} | required | max_length: 3 | options: [a, b]}}}}", name), &values);
        assert_eq!(bare, filtered);
    }
}

#[test]
fn if_else_block_picks_branch_and_continues() {
    let body = "pre {{#if  flag }}  yes  {{else}} no {{/if}} post {{#if flag}}again{{/if}}";
    let mut on = Values::new();
    on.insert("flag".to_string(), "1".to_string());
    assert_eq!(evaluate_blocks(body, &on), "pre yes post again");
    assert_eq!(evaluate_blocks(body, &Values::new()), "pre no post ");
}

#[test]
fn each_block_expands_and_continues() {
    let body = "list: {{#each xs as x}}({{x}}){{/each}} end {{#each ys}}[{{item}}]{{/each}}";
    let mut values = Values::new();
    values.insert("xs".to_string(), "1, 2,3".to_string());
    values.insert("ys".to_string(), "q".to_string());
    assert_eq!(evaluate_blocks(body, &values), "list: (1)(2)(3) end [q]");
}

#[test]
fn bare_condition_is_truthiness() {
    let body = "{{#if v}}T{{else}}F{{/if}}";
    let mut empty = Values::new();
    empty.insert("v".to_string(), String::new());
    assert_eq!(evaluate_blocks(body, &empty), "F");
    let mut full = Values::new();
    full.insert("v".to_string(), " ".to_string());
    assert_eq!(evaluate_blocks(body, &full), "T");
    assert_eq!(evaluate_blocks(body, &Values::new()), "F");
}

#[test]
fn nested_if_block_ends_at_its_own_end_tag() {
    let body = "pre {{#if a}}X {{#if b}} Y {{/if}} Z{{/if}} post";
    let mut both = Values::new();
    both.insert("a".to_string(), "1".to_string());
    both.insert("b".to_string(), "1".to_string());
    assert_eq!(evaluate_blocks(body, &both), "pre X Y Z post");
    let mut outer = Values::new();
    outer.insert("a".to_string(), "1".to_string());
    assert_eq!(evaluate_blocks(body, &outer), "pre X  Z post");
    let mut inner = Values::new();
    inner.insert("b".to_string(), "1".to_string());
    assert_eq!(evaluate_blocks(body, &inner), "pre  post");
}

#[test]
fn nested_each_block_ends_at_its_own_end_tag() {
    let body = "<{{#each rows as r}}({{#each cols as c}}{{r}}{{c}};{{/each}}){{/each}}>";
    let mut values = Values::new();
    values.insert("rows".to_string(), "1,2".to_string());
    values.insert("cols".to_string(), "a".to_string());
    assert_eq!(evaluate_blocks(body, &values), "<(1a;)(2a;)>");
}

#[test]
fn if_pass_never_lengthens() {
    let body = "a{{#if x}}long text here{{else}}s{{/if}}b";
    let mut on = Values::new();
    on.insert("x".to_string(), "1".to_string());
    for values in [Values::new(), on] {
        assert!(evaluate_blocks(body, &values).len() <= body.len());
    }
}

#[test]
fn length_condition_law_on_item_counts() {
    let body = "{{#if tags.length > 2}}many{{else}}few{{/if}}";
    let mut three = Values::new();
    three.insert("tags".to_string(), "a,b,c".to_string());
    assert_eq!(evaluate_blocks(body, &three), "many");
    let mut two = Values::new();
    two.insert("tags".to_string(), "a,b".to_string());
    assert_eq!(evaluate_blocks(body, &two), "few");
    let mut empty = Values::new();
    empty.insert("tags".to_string(), String::new());
    assert_eq!(evaluate_blocks(body, &empty), "few");
}

#[test]
fn longer_query_narrows_the_search() {
    let ts = sample();
    let short = search_templates(&ts, "auth");
    let long = search_templates(&ts, "AUTH P");
    assert_eq!(slugs(&long), vec!["a".to_string()]);
    assert_eq!(slugs(&search_templates(&short, "AUTH P")), slugs(&long));
}

#[test]
fn index_is_in_title_order() {
    let ts = vec![
        template("p", "Pipeline", Category::ImplementationPlan, &[]),
        template("a1", "Auth", Category::ImplementationPlan, &[]),
        template("d", "Dashboard", Category::DesignPrompt, &[]),
        template("a2", "Auth", Category::DesignPrompt, &[]),
        template("z", "Au", Category::DesignPrompt, &[]),
        template("l", "auth", Category::DesignPrompt, &[]),
    ];
    let sorted = sort_by_title(&ts);
    assert_eq!(slugs(&sorted), vec!["z", "a1", "a2", "d", "p", "l"]);
}

#[test]
fn index_order_keeps_every_template() {
    let ts = sample();
    let sorted = sort_by_title(&ts);
    let mut a = slugs(&ts);
    let mut b = slugs(&sorted);
    a.sort();
    b.sort();
    assert_eq!(a, b);
    assert!(sorted.windows(2).all(|w| w[0].title <= w[1].title));
}

#[test]
fn frontmatter_roundtrip() {
    use_split("title: x\ncategory: y\n", "# Body\ntext");
}

fn use_split(header: &str, body: &str) {
    let source = format!("---{}---{}", header, body);
    let (h, b) = markdown_boxes::frontmatter::split_frontmatter(&source).unwrap();
    assert_eq!(h, header);
    assert_eq!(b, body.trim());
}
