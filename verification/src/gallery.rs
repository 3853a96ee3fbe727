//! What the gallery shows: the category buttons, the cards and the templates that the
//! search and the selected category leave.

use vstd::prelude::*;
use crate::models::template::{Category, Template, template_views, TemplateModel};
use crate::store::{filter_by_category, of_category, search_result, search_templates};
use crate::text::concat;

verus! {

/// Every category, in the order of the gallery's filter buttons.
pub open spec fn category_order() -> Seq<Category> {
    seq![
        Category::ImplementationPlan,
        Category::DesignPrompt,
        Category::UiComponent,
        Category::FullStackFlow,
        Category::BackendPattern,
    ]
}

/// Every category, in the order of the gallery's filter buttons.
pub fn all_categories() -> (r: Vec<Category>)
    ensures
        r@ == category_order(),
{
    let mut v: Vec<Category> = Vec::new();
    v.push(Category::ImplementationPlan);
    v.push(Category::DesignPrompt);
    v.push(Category::UiComponent);
    v.push(Category::FullStackFlow);
    v.push(Category::BackendPattern);
    assert(v@ =~= category_order());
    v
}

/// The class of a category filter button, marked `active` where it is the selected one.
pub fn filter_button_class(active: bool) -> (r: &'static str)
    ensures
        r@ == if active {
            "filter-btn active"@
        } else {
            "filter-btn"@
        },
{
    if active {
        "filter-btn active"
    } else {
        "filter-btn"
    }
}

/// The link of a template's card: `/template/<slug>`.
pub fn card_href(slug: &str) -> (r: String)
    ensures
        r@ == "/template/"@ + slug@,
{
    concat("/template/", slug)
}

/// The image of a template's card, where it has a preview: `<base>/previews/<preview>`,
/// under the path that the site is served from.
pub fn card_preview_src(base: &str, preview: &Option<String>) -> (r: Option<String>)
    ensures
        match r {
            Some(s) => preview.is_some() && s@ == base@ + "/previews/"@ + preview->0@,
            None => preview.is_none(),
        },
{
    match preview {
        Some(p) => {
            let a = concat(base, "/previews/");
            Some(concat(a.as_str(), p.as_str()))
        },
        None => None,
    }
}

/// The templates the gallery shows: those the search finds, narrowed to the selected
/// category where one is selected.
pub open spec fn gallery_result(
    ts: Seq<TemplateModel>,
    query: Seq<char>,
    category: Option<Category>,
) -> Seq<TemplateModel> {
    match category {
        Some(c) => of_category(search_result(ts, query), c),
        None => search_result(ts, query),
    }
}

/// The templates the gallery shows for a search query and an optional category.
pub fn gallery_templates(templates: &[Template], query: &str, category: &Option<Category>) -> (r:
    Vec<Template>)
    ensures
        template_views(r@) == gallery_result(template_views(templates@), query@, *category),
{
    let found = search_templates(templates, query);
    match category {
        Some(c) => filter_by_category(found.as_slice(), c),
        None => found,
    }
}

} // verus!
