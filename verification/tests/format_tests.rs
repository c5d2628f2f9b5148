use dprint_plugin_tailwindcss::configuration::Configuration;
use dprint_plugin_tailwindcss::generate::{format_text, generate, FormatError};
use dprint_plugin_tailwindcss::instructions::{render, Instruction};
use dprint_plugin_tailwindcss::tw_visitor::{AttrValue, JsxAttr, JsxNode};

fn class_elem(
    elem_start: usize,
    name_start: usize,
    value_start: usize,
    value_end: usize,
    in_expression: bool,
) -> JsxNode {
    let value = if in_expression {
        AttrValue::ExpressionString { span_start: value_start, span_end: value_end }
    } else {
        AttrValue::StringLiteral { span_start: value_start, span_end: value_end }
    };
    JsxNode::Element {
        span_start: elem_start,
        attributes: vec![JsxAttr {
            name: b"class".to_vec(),
            name_span_start: name_start,
            value,
        }],
        children: vec![],
    }
}

fn fmt(tree: &Vec<JsxNode>, text: &str, config: &Configuration) -> Option<String> {
    format_text(tree, text.as_bytes(), config)
        .expect("spans are valid")
        .map(|bytes| String::from_utf8(bytes).expect("output is UTF-8"))
}

#[test]
fn scenario_a_no_break_needed() {
    // `<div class='a b c'>` with a huge line width: output equals input.
    let text = "<div class='a b c'>";
    let tree = vec![class_elem(0, 5, 11, 18, false)];
    let config = Configuration::default().with_line_width(1000);
    assert_eq!(fmt(&tree, text, &config), None);
}

#[test]
fn scenario_b_quote_indent() {
    let text = "<div class='aaaaaaaaaa bbbbbbbbbb cccccccccc'>";
    let tree = vec![class_elem(0, 5, 11, 45, false)];
    let config = Configuration::default()
        .with_line_width(20)
        .with_indent_to_quote(true)
        .with_allow_line_overflow(false);
    let expected = "<div class=\n           'aaaaaaaaaa\n           bbbbbbbbbb\n           cccccccccc'>";
    assert_eq!(fmt(&tree, text, &config), Some(expected.to_string()));
}

#[test]
fn indent_to_quote_thirty_columns() {
    // The value's opening quote sits at column 30: every continuation line
    // gets exactly 30 leading spaces.
    let text = format!("<div {} class='tok1 tok2'>", "a".repeat(18));
    assert_eq!(text.as_bytes()[30], b'\'');
    let tree = vec![class_elem(0, 24, 30, 41, false)];
    let config = Configuration::default().with_line_width(20).with_indent_to_quote(true);
    let out = fmt(&tree, &text, &config).expect("a break is forced");
    let lines: Vec<&str> = out.split('\n').collect();
    assert_eq!(lines.len(), 2);
    assert!(lines[1].starts_with(&" ".repeat(30)));
    assert!(!lines[1].starts_with(&" ".repeat(31)));
    assert_eq!(lines[1].trim_start(), "'tok1 tok2'>");
}

#[test]
fn continuation_marker_in_expression() {
    let text = "<div class={'aaaa bbbb'}>";
    let tree = vec![class_elem(0, 5, 12, 23, true)];
    let config = Configuration::default().with_line_width(10).with_indent_to_quote(true);
    let expected = "<div class={ \\\n            'aaaa \\\n            bbbb'}>";
    assert_eq!(fmt(&tree, text, &config), Some(expected.to_string()));
}

#[test]
fn bare_value_never_emits_marker() {
    let text = "<div class='aaaaaaaaaa bbbbbbbbbb cccccccccc'>";
    let tree = vec![class_elem(0, 5, 11, 45, false)];
    let config = Configuration::default().with_line_width(20);
    let out = fmt(&tree, text, &config).expect("breaks are forced");
    assert!(!out.contains('\\'));
}

#[test]
fn disabled_wrap_returns_unchanged() {
    let text = "<div class='aaaaaaaaaa bbbbbbbbbb cccccccccc'>";
    let tree = vec![class_elem(0, 5, 11, 45, false)];
    let config = Configuration::default().with_line_width(20).with_enable_wrap(false);
    assert_eq!(fmt(&tree, text, &config), None);
}

#[test]
fn idempotence_fixed_point() {
    // First pass wraps; formatting the formatted output changes nothing.
    let text = "<div class='tok1 tok2'>";
    let tree = vec![class_elem(0, 5, 11, 22, false)];
    let config = Configuration::default().with_line_width(17).with_indent_to_quote(true);
    let out = fmt(&tree, text, &config).expect("one break is forced");
    assert_eq!(out, "<div class='tok1\n           tok2'>");
    // The reformatted value now spans bytes 11..33 of the new text.
    let tree2 = vec![class_elem(0, 5, 11, 33, false)];
    assert_eq!(fmt(&tree2, &out, &config), None);
}

#[test]
fn invalid_span_reported() {
    let text = "<div class='a'>";
    let tree = vec![class_elem(0, 5, 11, 9999, false)];
    let config = Configuration::default();
    assert_eq!(
        format_text(&tree, text.as_bytes(), &config),
        Err(FormatError::InvalidSpan)
    );
}

#[test]
fn overlapping_sites_reported() {
    // The second site starts before the first one ends: the cursor would move
    // backwards, an internal-invariant violation.
    let text = "<div class='a b' class='c d'>";
    let tree = vec![JsxNode::Element {
        span_start: 0,
        attributes: vec![
            JsxAttr {
                name: b"class".to_vec(),
                name_span_start: 5,
                value: AttrValue::StringLiteral { span_start: 11, span_end: 16 },
            },
            JsxAttr {
                name: b"class".to_vec(),
                name_span_start: 17,
                value: AttrValue::StringLiteral { span_start: 11, span_end: 16 },
            },
        ],
        children: vec![],
    }];
    let config = Configuration::default();
    assert_eq!(
        format_text(&tree, text.as_bytes(), &config),
        Err(FormatError::InvalidSpan)
    );
}

#[test]
fn overflow_allowed_token_finishes_line() {
    // With overflow allowed, the over-width token finishes its own line and
    // no break is forced before the token preceding it.
    let text = "<a class='bb cccccccccccc dd'>";
    let tree = vec![class_elem(0, 3, 9, 29, false)];
    let config = Configuration::default()
        .with_line_width(10)
        .with_allow_line_overflow(true)
        .with_indent_to_quote(true);
    let expected = "<a class= 'bb\n         cccccccccccc\n          dd'>";
    assert_eq!(fmt(&tree, text, &config), Some(expected.to_string()));
}

#[test]
fn indent_to_context_same_line_anchor() {
    // Indent-to-context with the value on the element's own line: one indent
    // unit past the element's column, applied to the whole block.
    let text = "<div class='aaaaaaaaaa bbbbbbbbbb'>";
    let tree = vec![class_elem(0, 5, 11, 34, false)];
    let config = Configuration::default()
        .with_line_width(20)
        .with_indent_to_quote(false)
        .with_indent_width(4);
    let expected = "<div class=\n    'aaaaaaaaaa\n    bbbbbbbbbb'>";
    assert_eq!(fmt(&tree, text, &config), Some(expected.to_string()));
}

#[test]
fn indent_to_context_attribute_anchor() {
    // The value sits on a later line than its element: the attribute name's
    // column anchors the indent instead.
    let text = "<div\n  class='aaaaaaaaaa bbbbbbbbbb'>";
    let tree = vec![class_elem(0, 7, 13, 36, false)];
    let config = Configuration::default()
        .with_line_width(10)
        .with_indent_to_quote(false)
        .with_indent_width(2);
    // Anchor column 2 plus one indent unit gives 4; level 4 / 2 * 2 = 4 spaces.
    let expected = "<div\n  class=\n    'aaaaaaaaaa\n    bbbbbbbbbb'>";
    assert_eq!(fmt(&tree, text, &config), Some(expected.to_string()));
}

#[test]
fn line_width_includes_indent_tightens_limit() {
    let text = "<div class='abc de'>";
    let tree = vec![class_elem(0, 5, 11, 19, false)];
    // Limit is 20 - 11 = 9: "'abc" no longer fits on the first line, while
    // "de'" still joins it on the continuation line (4 + 3 + 1 <= 9).
    let config = Configuration::default()
        .with_line_width(20)
        .with_indent_to_quote(true)
        .with_line_width_includes_indent(true);
    let expected = "<div class=\n           'abc de'>";
    assert_eq!(fmt(&tree, text, &config), Some(expected.to_string()));
}

#[test]
fn non_target_bytes_preserved() {
    let text = "<p>x</p><div class='aaaaaaaaaa bbbbbbbbbb cccccccccc'>tail</div>";
    let tree = vec![
        JsxNode::Other,
        class_elem(8, 13, 19, 53, false),
        JsxNode::Other,
    ];
    let config = Configuration::default().with_line_width(20);
    let out = fmt(&tree, text, &config).expect("breaks are forced");
    assert!(out.starts_with("<p>x</p><div class="));
    assert!(out.ends_with(">tail</div>"));
}

#[test]
fn token_order_preserved() {
    let text = "<div class='aaaaaaaaaa bbbbbbbbbb cccccccccc'>";
    let tree = vec![class_elem(0, 5, 11, 45, false)];
    let config = Configuration::default().with_line_width(20);
    let out = fmt(&tree, text, &config).expect("breaks are forced");
    let a = out.find("'aaaaaaaaaa").expect("first token present");
    let b = out.find("bbbbbbbbbb").expect("second token present");
    let c = out.find("cccccccccc'").expect("third token present");
    assert!(a < b && b < c);
    let tokens: Vec<&str> = out[a..].trim_end_matches('>').split_whitespace().collect();
    assert_eq!(tokens, vec!["'aaaaaaaaaa", "bbbbbbbbbb", "cccccccccc'"]);
}

#[test]
fn generate_without_wrap_is_single_chunk() {
    let text = "<div class='a b'>";
    let tree = vec![class_elem(0, 5, 11, 16, false)];
    let config = Configuration::default().with_enable_wrap(false);
    let items = generate(&tree, text.as_bytes(), &config).expect("nothing can fail");
    assert_eq!(items.len(), 1);
    assert_eq!(render(&items), text.as_bytes().to_vec());
}

#[test]
fn empty_document_is_unchanged() {
    let tree: Vec<JsxNode> = vec![];
    let config = Configuration::default();
    assert_eq!(fmt(&tree, "", &config), None);
}

#[test]
fn document_without_sites_is_unchanged() {
    let text = "<div id='x'>plain text</div>";
    let tree = vec![JsxNode::Element {
        span_start: 0,
        attributes: vec![JsxAttr {
            name: b"id".to_vec(),
            name_span_start: 5,
            value: AttrValue::StringLiteral { span_start: 8, span_end: 11 },
        }],
        children: vec![JsxNode::Other],
    }];
    let config = Configuration::default().with_line_width(5);
    assert_eq!(fmt(&tree, text, &config), None);
}

#[test]
fn class_attribute_with_other_value_shape_passes_through() {
    // A `class` attribute whose value is not a string literal is left alone.
    let text = "<div class={clsx('aaaaaaaaaaaaaaaaaaaaaa bbbbbbbb')}>";
    let tree = vec![JsxNode::Element {
        span_start: 0,
        attributes: vec![JsxAttr {
            name: b"class".to_vec(),
            name_span_start: 5,
            value: AttrValue::Other,
        }],
        children: vec![],
    }];
    let config = Configuration::default().with_line_width(10);
    assert_eq!(fmt(&tree, text, &config), None);
}

#[test]
fn render_primitives() {
    let items = vec![
        Instruction::Text(b"ab".to_vec()),
        Instruction::Space,
        Instruction::Break { marker: true, indent: 3 },
        Instruction::Text(b"c".to_vec()),
        Instruction::Break { marker: false, indent: 0 },
    ];
    assert_eq!(render(&items), b"ab  \\\n   c\n".to_vec());
}
