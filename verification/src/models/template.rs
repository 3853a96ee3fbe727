//! A template of the gallery and its category.

use vstd::prelude::*;
use crate::models::filter::string_views;
use crate::models::placeholder::{clone_strings, Placeholder, PlaceholderModel};
use crate::models::section::{Section, SectionModel};
use crate::models::style::{clone_opt_string, opt_string_view, StyleSpec, StyleSpecModel};

verus! {

/// The category a template belongs to.
#[derive(Debug, Clone, Copy, PartialEq, Eq, Structural)]
pub enum Category {
    ImplementationPlan,
    DesignPrompt,
    UiComponent,
    FullStackFlow,
    BackendPattern,
}

/// The label of a category, as the gallery shows it.
pub open spec fn label_of(c: Category) -> Seq<char> {
    match c {
        Category::ImplementationPlan => "Implementation Plan"@,
        Category::DesignPrompt => "Design Prompt"@,
        Category::UiComponent => "UI Component"@,
        Category::FullStackFlow => "Full-Stack Flow"@,
        Category::BackendPattern => "Backend Pattern"@,
    }
}

impl Category {
    /// The label of the category, as the gallery shows it.
    pub fn label(&self) -> (r: &'static str)
        ensures
            r@ == label_of(*self),
    {
        match self {
            Category::ImplementationPlan => "Implementation Plan",
            Category::DesignPrompt => "Design Prompt",
            Category::UiComponent => "UI Component",
            Category::FullStackFlow => "Full-Stack Flow",
            Category::BackendPattern => "Backend Pattern",
        }
    }
}

/// Where a template's output goes.
#[derive(Debug, PartialEq)]
pub struct OutputTarget {
    pub format: String,
    pub target: String,
}

/// What an output target holds, over character sequences.
pub struct OutputTargetModel {
    pub format: Seq<char>,
    pub target: Seq<char>,
}

impl View for OutputTarget {
    type V = OutputTargetModel;

    open spec fn view(&self) -> OutputTargetModel {
        OutputTargetModel { format: self.format@, target: self.target@ }
    }
}

impl Clone for OutputTarget {
    fn clone(&self) -> (r: OutputTarget)
        ensures
            r@ == self@,
    {
        OutputTarget { format: self.format.clone(), target: self.target.clone() }
    }
}

/// A template of the gallery.
#[derive(Debug)]
pub struct Template {
    pub slug: String,
    pub title: String,
    pub mdal_type: Option<String>,
    pub version: Option<String>,
    pub author: Option<String>,
    pub category: Category,
    pub tags: Vec<String>,
    pub preview: Option<String>,
    pub description: String,
    pub outputs: Vec<OutputTarget>,
    pub placeholders: Vec<Placeholder>,
    pub sections: Vec<Section>,
    pub style_spec: Option<StyleSpec>,
    pub body: String,
}

/// What a template holds, over character sequences.
pub struct TemplateModel {
    pub slug: Seq<char>,
    pub title: Seq<char>,
    pub mdal_type: Option<Seq<char>>,
    pub version: Option<Seq<char>>,
    pub author: Option<Seq<char>>,
    pub category: Category,
    pub tags: Seq<Seq<char>>,
    pub preview: Option<Seq<char>>,
    pub description: Seq<char>,
    pub outputs: Seq<OutputTargetModel>,
    pub placeholders: Seq<PlaceholderModel>,
    pub sections: Seq<SectionModel>,
    pub style_spec: Option<StyleSpecModel>,
    pub body: Seq<char>,
}

impl View for Template {
    type V = TemplateModel;

    open spec fn view(&self) -> TemplateModel {
        TemplateModel {
            slug: self.slug@,
            title: self.title@,
            mdal_type: opt_string_view(self.mdal_type),
            version: opt_string_view(self.version),
            author: opt_string_view(self.author),
            category: self.category,
            tags: string_views(self.tags@),
            preview: opt_string_view(self.preview),
            description: self.description@,
            outputs: self.outputs@.map_values(|o: OutputTarget| o@),
            placeholders: self.placeholders@.map_values(|p: Placeholder| p@),
            sections: self.sections@.map_values(|s: Section| s@),
            style_spec: match self.style_spec {
                Some(st) => Some(st@),
                None => None,
            },
            body: self.body@,
        }
    }
}

/// The views of a sequence of templates.
pub open spec fn template_views(v: Seq<Template>) -> Seq<TemplateModel> {
    v.map_values(|t: Template| t@)
}

impl Clone for Template {
    fn clone(&self) -> (r: Template)
        ensures
            r@ == self@,
    {
        let outputs = self.outputs.clone();
        assert forall|i: int| 0 <= i < self.outputs@.len() implies outputs@[i]@
            == self.outputs@[i]@ by {
            assert(cloned::<OutputTarget>(self.outputs[i], outputs[i]));
        }
        let placeholders = self.placeholders.clone();
        assert forall|i: int| 0 <= i < self.placeholders@.len() implies placeholders@[i]@
            == self.placeholders@[i]@ by {
            assert(cloned::<Placeholder>(self.placeholders[i], placeholders[i]));
        }
        let sections = self.sections.clone();
        assert forall|i: int| 0 <= i < self.sections@.len() implies sections@[i]@
            == self.sections@[i]@ by {
            assert(cloned::<Section>(self.sections[i], sections[i]));
        }
        let style_spec = match &self.style_spec {
            Some(st) => Some(st.clone()),
            None => None,
        };
        let r = Template {
            slug: self.slug.clone(),
            title: self.title.clone(),
            mdal_type: clone_opt_string(&self.mdal_type),
            version: clone_opt_string(&self.version),
            author: clone_opt_string(&self.author),
            category: self.category,
            tags: clone_strings(&self.tags),
            preview: clone_opt_string(&self.preview),
            description: self.description.clone(),
            outputs,
            placeholders,
            sections,
            style_spec,
            body: self.body.clone(),
        };
        assert(r@.outputs =~= self@.outputs);
        assert(r@.placeholders =~= self@.placeholders);
        assert(r@.sections =~= self@.sections);
        r
    }
}


impl OutputTarget {
    /// Whether two output targets hold the same format and target.
    pub fn same_as(&self, other: &OutputTarget) -> (r: bool)
        ensures
            r == (self@ == other@),
    {
        crate::text::str_same(self.format.as_str(), other.format.as_str())
            && crate::text::str_same(self.target.as_str(), other.target.as_str())
    }
}

fn outputs_same(a: &Vec<OutputTarget>, b: &Vec<OutputTarget>) -> (r: bool)
    ensures
        r == (a@.map_values(|o: OutputTarget| o@) == b@.map_values(|o: OutputTarget| o@)),
{
    let ghost va = a@.map_values(|o: OutputTarget| o@);
    let ghost vb = b@.map_values(|o: OutputTarget| o@);
    if a.len() != b.len() {
        assert(va.len() != vb.len());
        return false;
    }
    let n = a.len();
    let mut i: usize = 0;
    while i < n
        invariant
            n == a@.len(),
            n == b@.len(),
            i <= n,
            va == a@.map_values(|o: OutputTarget| o@),
            vb == b@.map_values(|o: OutputTarget| o@),
            forall|k: int| 0 <= k < i ==> a@[k]@ == b@[k]@,
        decreases n - i,
    {
        if !a[i].same_as(&b[i]) {
            assert(va[i as int] != vb[i as int]);
            return false;
        }
        i = i + 1;
    }
    assert(va =~= vb);
    true
}

fn placeholders_same(a: &Vec<Placeholder>, b: &Vec<Placeholder>) -> (r: bool)
    ensures
        r == (a@.map_values(|p: Placeholder| p@) == b@.map_values(|p: Placeholder| p@)),
{
    let ghost va = a@.map_values(|p: Placeholder| p@);
    let ghost vb = b@.map_values(|p: Placeholder| p@);
    if a.len() != b.len() {
        assert(va.len() != vb.len());
        return false;
    }
    let n = a.len();
    let mut i: usize = 0;
    while i < n
        invariant
            n == a@.len(),
            n == b@.len(),
            i <= n,
            va == a@.map_values(|p: Placeholder| p@),
            vb == b@.map_values(|p: Placeholder| p@),
            forall|k: int| 0 <= k < i ==> a@[k]@ == b@[k]@,
        decreases n - i,
    {
        if !a[i].same_as(&b[i]) {
            assert(va[i as int] != vb[i as int]);
            return false;
        }
        i = i + 1;
    }
    assert(va =~= vb);
    true
}

fn sections_same(a: &Vec<Section>, b: &Vec<Section>) -> (r: bool)
    ensures
        r == (a@.map_values(|s: Section| s@) == b@.map_values(|s: Section| s@)),
{
    let ghost va = a@.map_values(|s: Section| s@);
    let ghost vb = b@.map_values(|s: Section| s@);
    if a.len() != b.len() {
        assert(va.len() != vb.len());
        return false;
    }
    let n = a.len();
    let mut i: usize = 0;
    while i < n
        invariant
            n == a@.len(),
            n == b@.len(),
            i <= n,
            va == a@.map_values(|s: Section| s@),
            vb == b@.map_values(|s: Section| s@),
            forall|k: int| 0 <= k < i ==> a@[k]@ == b@[k]@,
        decreases n - i,
    {
        if !a[i].same_as(&b[i]) {
            assert(va[i as int] != vb[i as int]);
            return false;
        }
        i = i + 1;
    }
    assert(va =~= vb);
    true
}

fn style_specs_same(a: &Option<StyleSpec>, b: &Option<StyleSpec>) -> (r: bool)
    ensures
        r == ((match *a {
            Some(st) => Some(st@),
            None => None,
        }) == (match *b {
            Some(st) => Some(st@),
            None => None,
        })),
{
    match (a, b) {
        (Some(x), Some(y)) => x.same_as(y),
        (None, None) => true,
        _ => false,
    }
}

impl Template {
    /// Whether two templates hold the same data in every field.
    pub fn same_as(&self, other: &Template) -> (r: bool)
        ensures
            r == (self@ == other@),
    {
        crate::text::str_same(self.slug.as_str(), other.slug.as_str())
            && crate::text::str_same(self.title.as_str(), other.title.as_str())
            && crate::models::style::opt_strings_same(&self.mdal_type, &other.mdal_type)
            && crate::models::style::opt_strings_same(&self.version, &other.version)
            && crate::models::style::opt_strings_same(&self.author, &other.author)
            && self.category == other.category
            && crate::models::filter::string_lists_same(&self.tags, &other.tags)
            && crate::models::style::opt_strings_same(&self.preview, &other.preview)
            && crate::text::str_same(self.description.as_str(), other.description.as_str())
            && outputs_same(&self.outputs, &other.outputs)
            && placeholders_same(&self.placeholders, &other.placeholders)
            && sections_same(&self.sections, &other.sections)
            && style_specs_same(&self.style_spec, &other.style_spec)
            && crate::text::str_same(self.body.as_str(), other.body.as_str())
    }
}

impl PartialEq for Template {
    fn eq(&self, other: &Template) -> (r: bool) {
        self.same_as(other)
    }
}

impl vstd::std_specs::cmp::PartialEqSpecImpl for Template {
    open spec fn obeys_eq_spec() -> bool {
        true
    }

    open spec fn eq_spec(&self, other: &Template) -> bool {
        self@ == other@
    }
}

} // verus!
