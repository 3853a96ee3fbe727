//! Typed sections of a template body (`## Section: Name` headings).

use vstd::prelude::*;
use crate::values::Values;

verus! {

/// The role of a section.
#[derive(Debug, Clone, Copy, PartialEq, Eq, Structural)]
pub enum SectionType {
    Component,
    Layout,
    Logic,
    Data,
    Style,
}

/// A named section of a template body, with its properties and its content.
#[derive(Debug)]
pub struct Section {
    pub name: String,
    pub section_type: SectionType,
    pub properties: Values,
    pub content: String,
}

/// What a section holds, over character sequences.
pub struct SectionModel {
    pub name: Seq<char>,
    pub section_type: SectionType,
    pub properties: Map<Seq<char>, Seq<char>>,
    pub content: Seq<char>,
}

impl View for Section {
    type V = SectionModel;

    open spec fn view(&self) -> SectionModel {
        SectionModel {
            name: self.name@,
            section_type: self.section_type,
            properties: self.properties@,
            content: self.content@,
        }
    }
}

impl Clone for Section {
    fn clone(&self) -> (r: Section)
        ensures
            r@ == self@,
    {
        Section {
            name: self.name.clone(),
            section_type: self.section_type,
            properties: self.properties.clone(),
            content: self.content.clone(),
        }
    }
}

/// The name of a section type as it stands in a badge: the variant's name in lower case.
pub open spec fn section_type_name_of(t: SectionType) -> Seq<char> {
    match t {
        SectionType::Component => "component"@,
        SectionType::Layout => "layout"@,
        SectionType::Logic => "logic"@,
        SectionType::Data => "data"@,
        SectionType::Style => "style"@,
    }
}

impl SectionType {
    /// The name of the section type in lower case, as its badge shows it.
    pub fn name(&self) -> (r: &'static str)
        ensures
            r@ == section_type_name_of(*self),
    {
        match self {
            SectionType::Component => "component",
            SectionType::Layout => "layout",
            SectionType::Logic => "logic",
            SectionType::Data => "data",
            SectionType::Style => "style",
        }
    }
}


impl Section {
    /// Whether two sections hold the same name, type, properties and content.
    pub fn same_as(&self, other: &Section) -> (r: bool)
        ensures
            r == (self@ == other@),
    {
        crate::text::str_same(self.name.as_str(), other.name.as_str())
            && self.section_type == other.section_type
            && self.properties.same_as(&other.properties)
            && crate::text::str_same(self.content.as_str(), other.content.as_str())
    }
}

impl PartialEq for Section {
    fn eq(&self, other: &Section) -> (r: bool) {
        self.same_as(other)
    }
}

impl vstd::std_specs::cmp::PartialEqSpecImpl for Section {
    open spec fn obeys_eq_spec() -> bool {
        true
    }

    open spec fn eq_spec(&self, other: &Section) -> bool {
        self@ == other@
    }
}

} // verus!
