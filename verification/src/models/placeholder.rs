//! The placeholders of a template, which become the fields of its form.

use vstd::prelude::*;
use crate::models::filter::{filter_views, string_views, Filter, FilterModel};

verus! {

/// The kind of input a placeholder asks for.
#[derive(Debug, Clone, Copy, PartialEq, Eq, Structural)]
pub enum PlaceholderType {
    Text,
    Select,
    Multiline,
    Boolean,
}

/// A named field of a template.
#[derive(Debug, PartialEq)]
pub struct Placeholder {
    pub key: String,
    pub label: String,
    pub kind: PlaceholderType,
    pub options: Option<Vec<String>>,
    pub filters: Vec<Filter>,
}

/// What a placeholder holds, over character sequences.
pub struct PlaceholderModel {
    pub key: Seq<char>,
    pub label: Seq<char>,
    pub kind: PlaceholderType,
    pub options: Option<Seq<Seq<char>>>,
    pub filters: Seq<FilterModel>,
}

/// The view of an optional list of strings.
pub open spec fn opt_strings_view(o: Option<Vec<String>>) -> Option<Seq<Seq<char>>> {
    match o {
        Some(v) => Some(string_views(v@)),
        None => None,
    }
}

impl View for Placeholder {
    type V = PlaceholderModel;

    open spec fn view(&self) -> PlaceholderModel {
        PlaceholderModel {
            key: self.key@,
            label: self.label@,
            kind: self.kind,
            options: opt_strings_view(self.options),
            filters: filter_views(self.filters@),
        }
    }
}

/// A copy of a list of strings.
pub fn clone_strings(v: &Vec<String>) -> (r: Vec<String>)
    ensures
        string_views(r@) == string_views(v@),
{
    let c = v.clone();
    assert forall|i: int| 0 <= i < v@.len() implies c@[i] == v@[i] by {
        assert(cloned::<String>(v[i], c[i]));
    }
    assert(c@ =~= v@);
    c
}

/// A copy of a list of filters.
pub fn clone_filters(v: &Vec<Filter>) -> (r: Vec<Filter>)
    ensures
        filter_views(r@) == filter_views(v@),
{
    let c = v.clone();
    assert forall|i: int| 0 <= i < v@.len() implies c@[i]@ == v@[i]@ by {
        assert(cloned::<Filter>(v[i], c[i]));
    }
    assert(filter_views(c@) =~= filter_views(v@));
    c
}

impl Clone for Placeholder {
    fn clone(&self) -> (r: Placeholder)
        ensures
            r@ == self@,
    {
        let options = match &self.options {
            Some(v) => Some(clone_strings(v)),
            None => None,
        };
        Placeholder {
            key: self.key.clone(),
            label: self.label.clone(),
            kind: self.kind,
            options,
            filters: clone_filters(&self.filters),
        }
    }
}


/// Whether two optional lists of strings are equal.
pub fn opt_string_lists_same(a: &Option<Vec<String>>, b: &Option<Vec<String>>) -> (r: bool)
    ensures
        r == (opt_strings_view(*a) == opt_strings_view(*b)),
{
    match (a, b) {
        (Some(x), Some(y)) => crate::models::filter::string_lists_same(x, y),
        (None, None) => true,
        _ => false,
    }
}

impl Placeholder {
    /// Whether two placeholders hold the same key, label, type, options and filters.
    pub fn same_as(&self, other: &Placeholder) -> (r: bool)
        ensures
            r == (self@ == other@),
    {
        crate::text::str_same(self.key.as_str(), other.key.as_str())
            && crate::text::str_same(self.label.as_str(), other.label.as_str())
            && self.kind == other.kind
            && opt_string_lists_same(&self.options, &other.options)
            && crate::models::filter::filter_lists_same(&self.filters, &other.filters)
    }
}

} // verus!
