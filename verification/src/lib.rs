//! Markdown Boxes: a gallery of markdown templates with placeholders,
//! inline filters, conditional and loop blocks.

pub mod text;
pub mod values;
pub mod models;
pub mod substitute;
pub mod engine;
pub mod store;
pub mod form;
pub mod gallery;
pub mod preview;
pub mod laws;
pub mod sections;
pub mod frontmatter;
