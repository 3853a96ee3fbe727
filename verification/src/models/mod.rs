//! The data that describes a template: filters, placeholders, sections, style and
//! the template itself.

pub mod filter;
pub mod placeholder;
pub mod section;
pub mod style;
pub mod template;
