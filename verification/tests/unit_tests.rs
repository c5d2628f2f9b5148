use dprint_plugin_tailwindcss::configuration::{Configuration, SortVersion};
use dprint_plugin_tailwindcss::instructions::{char_width, tokenize};
use dprint_plugin_tailwindcss::position::{get_column_number, get_indent_level, get_line_number};
use dprint_plugin_tailwindcss::tw_wrapper::{IndentCount, TailwindWrapper, TailwindWrapperOption};
use dprint_plugin_tailwindcss::types::{IntoU32, IntoUsize};

#[test]
fn line_and_column_numbers() {
    let text = b"ab\ncde\n\nf";
    assert_eq!(get_line_number(text, 0), 0);
    assert_eq!(get_line_number(text, 2), 0);
    assert_eq!(get_line_number(text, 3), 1);
    assert_eq!(get_line_number(text, 6), 1);
    assert_eq!(get_line_number(text, 8), 3);
    assert_eq!(get_column_number(text, 0), 0);
    assert_eq!(get_column_number(text, 2), 2);
    assert_eq!(get_column_number(text, 3), 0);
    assert_eq!(get_column_number(text, 5), 2);
    assert_eq!(get_column_number(text, 8), 0);
}

#[test]
fn indent_level_is_whole_units() {
    assert_eq!(get_indent_level(6, 4), 1);
    assert_eq!(get_indent_level(8, 4), 2);
    assert_eq!(get_indent_level(3, 4), 0);
}

#[test]
fn indent_count_value_and_level() {
    let q = IndentCount::IndentToQuote(6);
    assert_eq!(q.value(), 6);
    assert_eq!(q.level(4), 1);
    let p = IndentCount::IndentToPre(8);
    assert_eq!(p.value(), 8);
    assert_eq!(p.level(4), 2);
}

#[test]
fn tokenize_splits_on_whitespace() {
    let toks = tokenize(b"  'a  b\tcc\n d'  ");
    let expected: Vec<Vec<u8>> =
        vec![b"'a".to_vec(), b"b".to_vec(), b"cc".to_vec(), b"d'".to_vec()];
    assert_eq!(toks, expected);
    assert_eq!(tokenize(b"").len(), 0);
    assert_eq!(tokenize(b"   ").len(), 0);
}

#[test]
fn char_width_counts_characters_not_bytes() {
    assert_eq!(char_width(b"abcd"), 4);
    // Two-byte encoding counts as one character.
    assert_eq!(char_width("é".as_bytes()), 1);
    assert_eq!(char_width("héllo".as_bytes()), 5);
    assert_eq!(char_width(b""), 0);
}

#[test]
fn default_configuration_values() {
    let c = Configuration::default();
    assert!(c.tailwind_attributes.is_empty());
    assert!(c.tailwind_functions.is_empty());
    assert!(c.enable_sort);
    assert_eq!(c.sort_version, SortVersion::V4);
    assert!(c.enable_wrap);
    assert!(!c.allow_line_overflow);
    assert!(c.indent_to_quote);
    assert_eq!(c.indent_width, 2);
    assert!(!c.line_width_includes_indent);
    assert_eq!(c.line_width, 120);
}

#[test]
fn builders_set_their_fields() {
    let c = Configuration::default()
        .with_tailwind_attributes(vec!["cls".to_string()])
        .with_tailwind_functions(vec!["clsx".to_string()])
        .with_enable_sort(false)
        .with_sort_version(SortVersion::Alphanumeric)
        .with_enable_wrap(true)
        .with_allow_line_overflow(true)
        .with_indent_to_quote(false)
        .with_indent_width(4)
        .with_line_width_includes_indent(true)
        .with_line_width(80);
    assert_eq!(c.tailwind_attributes, vec!["cls".to_string()]);
    assert_eq!(c.tailwind_functions, vec!["clsx".to_string()]);
    assert!(!c.enable_sort);
    assert_eq!(c.sort_version, SortVersion::Alphanumeric);
    assert!(c.enable_wrap);
    assert!(c.allow_line_overflow);
    assert!(!c.indent_to_quote);
    assert_eq!(c.indent_width, 4);
    assert!(c.line_width_includes_indent);
    assert_eq!(c.line_width, 80);
}

#[test]
fn integer_conversions() {
    assert_eq!(7u32.into_usize(), 7usize);
    assert_eq!(7usize.into_u32(), 7u32);
    assert_eq!((u32::MAX as usize + 1).into_u32(), 0u32);
    assert_eq!(9u8.into_u32(), 9u32);
}

#[test]
fn wrapper_context_setters() {
    let mut w = TailwindWrapper::new(TailwindWrapperOption {
        allow_line_overflow: false,
        indent_to_quote: true,
        indent_width: 2,
        line_width_includes_indent: false,
        line_width: 120,
    });
    assert_eq!(w.pre_jsx_element_line, 0);
    assert_eq!(w.pre_indent_count, 0);
    assert!(!w.jsxexpression);
    let text = b"ab\n  <div>";
    w.set_pre_jsx_element_line(text, 5);
    w.set_pre_indent_count(text, 5);
    assert_eq!(w.pre_jsx_element_line, 1);
    assert_eq!(w.pre_indent_count, 2);
    w.enter_jsxexpression();
    assert!(w.jsxexpression);
    w.leave_jsxexpression();
    assert!(!w.jsxexpression);
}

#[test]
fn parse_indent_modes() {
    let text = b"<div class='abc def'>";
    let quote = TailwindWrapper::new(TailwindWrapperOption {
        allow_line_overflow: false,
        indent_to_quote: true,
        indent_width: 4,
        line_width_includes_indent: false,
        line_width: 120,
    });
    match quote.parse_indent(text, 5, 11) {
        IndentCount::IndentToQuote(n) => assert_eq!(n, 11),
        IndentCount::IndentToPre(_) => panic!("expected the quote column"),
    }
    let mut ctx = TailwindWrapper::new(TailwindWrapperOption {
        allow_line_overflow: false,
        indent_to_quote: false,
        indent_width: 4,
        line_width_includes_indent: false,
        line_width: 120,
    });
    ctx.set_pre_jsx_element_line(text, 0);
    ctx.set_pre_indent_count(text, 0);
    match ctx.parse_indent(text, 5, 11) {
        IndentCount::IndentToPre(n) => assert_eq!(n, 4),
        IndentCount::IndentToQuote(_) => panic!("expected the context anchor"),
    }
}
