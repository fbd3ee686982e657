//! A small widget-template language: parsing, a template registry, and
//! recursive expansion of template references into a concrete widget tree.
//!
//! Source units written in the language declare parameters and a body of
//! widget instantiations.  A registry collects the templates parsed from a
//! set of units; the expander substitutes template bodies for instances
//! whose type names are registered, with declared-parameter argument
//! filtering, child appending, and id overriding.

pub mod ast;
pub mod grammar;
pub mod parser;
pub mod builder;
pub mod diag;
pub mod registry;
pub mod reload;
