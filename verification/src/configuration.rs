//! Immutable configuration for one format call.
//!
//! Builder-style construction is a convenience only: after construction the
//! value is never mutated.

use vstd::prelude::*;

verus! {

/// Version selector for the reserved token-ordering hook.
#[derive(Debug, Clone, PartialEq, Eq, Structural)]
pub enum SortVersion {
    Alphanumeric,
    V4,
}

#[derive(Debug, Clone)]
pub struct Configuration {
    /// Extension point, not wired into the current traversal.
    pub tailwind_attributes: Vec<String>,
    /// Extension point, not wired into the current traversal.
    pub tailwind_functions: Vec<String>,
    /// Reserved hook for future canonical token ordering; currently a no-op.
    pub enable_sort: bool,
    /// Ignored while `enable_sort` is a no-op.
    pub sort_version: SortVersion,
    /// Turns the wrapping engine on or off entirely.
    pub enable_wrap: bool,
    /// Permits an over-width token to finish its line rather than forcing a
    /// break before it. Ignored when `enable_wrap` is false.
    pub allow_line_overflow: bool,
    /// Selects indent-to-quote (true) versus indent-to-context (false) mode.
    /// Ignored when `enable_wrap` is false.
    pub indent_to_quote: bool,
    /// Unit size for indent-to-context mode; a positive integer.
    /// Ignored when `enable_wrap` is false.
    pub indent_width: u8,
    /// Whether the maximum width is measured inclusive of leading indent.
    /// Ignored when `enable_wrap` is false.
    pub line_width_includes_indent: bool,
    /// Maximum line width in characters.
    pub line_width: u32,
}

impl Default for Configuration {
    fn default() -> (r: Self)
        ensures
            r.tailwind_attributes@.len() == 0,
            r.tailwind_functions@.len() == 0,
            r.enable_sort == true,
            r.sort_version == SortVersion::V4,
            r.enable_wrap == true,
            r.allow_line_overflow == false,
            r.indent_to_quote == true,
            r.indent_width == 2u8,
            r.line_width_includes_indent == false,
            r.line_width == 120u32,
    {
        Self {
            tailwind_attributes: Vec::new(),
            tailwind_functions: Vec::new(),
            enable_sort: true,
            sort_version: SortVersion::V4,
            enable_wrap: true,
            allow_line_overflow: false,
            indent_to_quote: true,
            indent_width: 2,
            line_width_includes_indent: false,
            line_width: 120,
        }
    }
}

impl Configuration {
    pub fn with_tailwind_attributes(self, patterns: Vec<String>) -> (r: Self)
        ensures
            r == (Configuration { tailwind_attributes: patterns, ..self }),
    {
        Configuration { tailwind_attributes: patterns, ..self }
    }

    pub fn with_tailwind_functions(self, patterns: Vec<String>) -> (r: Self)
        ensures
            r == (Configuration { tailwind_functions: patterns, ..self }),
    {
        Configuration { tailwind_functions: patterns, ..self }
    }

    pub fn with_enable_sort(self, enabled: bool) -> (r: Self)
        ensures
            r == (Configuration { enable_sort: enabled, ..self }),
    {
        Configuration { enable_sort: enabled, ..self }
    }

    pub fn with_sort_version(self, version: SortVersion) -> (r: Self)
        ensures
            r == (Configuration { sort_version: version, ..self }),
    {
        Configuration { sort_version: version, ..self }
    }

    pub fn with_enable_wrap(self, enabled: bool) -> (r: Self)
        ensures
            r == (Configuration { enable_wrap: enabled, ..self }),
    {
        Configuration { enable_wrap: enabled, ..self }
    }

    pub fn with_allow_line_overflow(self, enabled: bool) -> (r: Self)
        ensures
            r == (Configuration { allow_line_overflow: enabled, ..self }),
    {
        Configuration { allow_line_overflow: enabled, ..self }
    }

    pub fn with_indent_to_quote(self, value: bool) -> (r: Self)
        ensures
            r == (Configuration { indent_to_quote: value, ..self }),
    {
        Configuration { indent_to_quote: value, ..self }
    }

    pub fn with_indent_width(self, width: u8) -> (r: Self)
        ensures
            r == (Configuration { indent_width: width, ..self }),
    {
        Configuration { indent_width: width, ..self }
    }

    pub fn with_line_width_includes_indent(self, enabled: bool) -> (r: Self)
        ensures
            r == (Configuration { line_width_includes_indent: enabled, ..self }),
    {
        Configuration { line_width_includes_indent: enabled, ..self }
    }

    pub fn with_line_width(self, width: u32) -> (r: Self)
        ensures
            r == (Configuration { line_width: width, ..self }),
    {
        Configuration { line_width: width, ..self }
    }
}

} // verus!
