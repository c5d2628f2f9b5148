//! Reformats whitespace-delimited utility-class lists found inside `class`
//! attribute values of component markup, wrapping them onto multiple lines
//! under a configured maximum width while leaving every other byte of the
//! source untouched.

pub mod configuration;
pub mod generate;
pub mod instructions;
pub mod laws;
pub mod position;
pub mod tw_visitor;
pub mod tw_wrapper;
pub mod types;

