//! Conversion of difficulty configuration documents from the older schema
//! generation to the newer one: a tree-to-tree translation in ordered stages,
//! plus the text-level handling of a multi-line description field.

pub mod decimal;
pub mod tree;
pub mod tables;
pub mod diagnostics;
pub mod resupply;
pub mod top_modules;
pub mod enemies;
pub mod text;
pub mod multiline;
pub mod translate;
pub mod naming;
pub mod document;
