//! The design system a template declares (`## Styling: Name` sections).

use vstd::prelude::*;
use crate::values::Values;

verus! {

/// A template's styling: its approach and its colors, typography and effects by name.
#[derive(Debug)]
pub struct StyleSpec {
    pub name: String,
    pub approach: Option<String>,
    pub colors: Values,
    pub typography: Values,
    pub effects: Values,
}

/// What a styling specification holds, over character sequences.
pub struct StyleSpecModel {
    pub name: Seq<char>,
    pub approach: Option<Seq<char>>,
    pub colors: Map<Seq<char>, Seq<char>>,
    pub typography: Map<Seq<char>, Seq<char>>,
    pub effects: Map<Seq<char>, Seq<char>>,
}

/// The view of an optional string.
pub open spec fn opt_string_view(o: Option<String>) -> Option<Seq<char>> {
    match o {
        Some(s) => Some(s@),
        None => None,
    }
}

/// A copy of an optional string.
pub fn clone_opt_string(o: &Option<String>) -> (r: Option<String>)
    ensures
        opt_string_view(r) == opt_string_view(*o),
{
    match o {
        Some(s) => Some(s.clone()),
        None => None,
    }
}

impl View for StyleSpec {
    type V = StyleSpecModel;

    open spec fn view(&self) -> StyleSpecModel {
        StyleSpecModel {
            name: self.name@,
            approach: opt_string_view(self.approach),
            colors: self.colors@,
            typography: self.typography@,
            effects: self.effects@,
        }
    }
}

impl Clone for StyleSpec {
    fn clone(&self) -> (r: StyleSpec)
        ensures
            r@ == self@,
    {
        StyleSpec {
            name: self.name.clone(),
            approach: clone_opt_string(&self.approach),
            colors: self.colors.clone(),
            typography: self.typography.clone(),
            effects: self.effects.clone(),
        }
    }
}


/// Whether two optional strings are equal.
pub fn opt_strings_same(a: &Option<String>, b: &Option<String>) -> (r: bool)
    ensures
        r == (opt_string_view(*a) == opt_string_view(*b)),
{
    match (a, b) {
        (Some(x), Some(y)) => crate::text::str_same(x.as_str(), y.as_str()),
        (None, None) => true,
        _ => false,
    }
}

impl StyleSpec {
    /// Whether two styling specifications hold the same name, approach, colors, typography
    /// and effects.
    pub fn same_as(&self, other: &StyleSpec) -> (r: bool)
        ensures
            r == (self@ == other@),
    {
        crate::text::str_same(self.name.as_str(), other.name.as_str())
            && opt_strings_same(&self.approach, &other.approach)
            && self.colors.same_as(&other.colors)
            && self.typography.same_as(&other.typography)
            && self.effects.same_as(&other.effects)
    }
}

impl PartialEq for StyleSpec {
    fn eq(&self, other: &StyleSpec) -> (r: bool) {
        self.same_as(other)
    }
}

impl vstd::std_specs::cmp::PartialEqSpecImpl for StyleSpec {
    open spec fn obeys_eq_spec() -> bool {
        true
    }

    open spec fn eq_spec(&self, other: &StyleSpec) -> bool {
        self@ == other@
    }
}

} // verus!
