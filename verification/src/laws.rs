//! The library's laws: what holds of every wrapped value and of every whole
//! format call, proved once and for all inputs.

use vstd::prelude::*;

use crate::instructions::{char_count, instr_is_break, instr_is_text, lemma_render_app,
    lemma_render_single, render_of, tokens_of, InstrV};
use crate::generate::{spec_emit, wrapper_at};
use crate::tw_visitor::Site;
use crate::tw_wrapper::{spec_add_indent, spec_break, spec_break_indent_of, spec_format,
    spec_indent_value, spec_limit, spec_wrap_from, TailwindWrapper};

verus! {

/// The final text of one whole format call: the pass-through bytes up to each
/// site, the rendering of the wrapping engine's output for the site, and the
/// remaining bytes after the last site, concatenated in order.
pub open spec fn spec_output_text(
    sites: Seq<Site>,
    j: int,
    cursor: int,
    text: Seq<u8>,
    w: TailwindWrapper,
) -> Seq<u8>
    decreases sites.len() - j,
{
    if j < 0 || j >= sites.len() {
        text.subrange(cursor, text.len() as int)
    } else {
        let s = sites[j];
        text.subrange(cursor, s.value_start as int) + render_of(
            spec_format(
                wrapper_at(w, text, s),
                text.subrange(s.value_start as int, s.value_end as int),
                text,
                s.name_start as int,
                s.value_start as int,
            ),
        ) + spec_output_text(sites, j + 1, s.value_end as int, text, w)
    }
}

/// The literal text chunks of an instruction stream, in emission order.
pub open spec fn texts_of(items: Seq<InstrV>) -> Seq<Seq<u8>>
    decreases items.len(),
{
    if items.len() == 0 {
        Seq::empty()
    } else {
        match items[0] {
            InstrV::Text(t) => seq![t] + texts_of(items.drop_first()),
            _ => texts_of(items.drop_first()),
        }
    }
}

pub proof fn lemma_texts_app(a: Seq<InstrV>, b: Seq<InstrV>)
    ensures
        texts_of(a + b) == texts_of(a) + texts_of(b),
    decreases a.len(),
{
    if a.len() == 0 {
        assert(a + b =~= b);
        assert(texts_of(a) + texts_of(b) =~~= texts_of(b));
    } else {
        assert((a + b).drop_first() =~= a.drop_first() + b);
        lemma_texts_app(a.drop_first(), b);
        assert(texts_of(a + b) =~~= texts_of(a) + texts_of(b));
    }
}

pub proof fn lemma_texts_single(it: InstrV)
    ensures
        texts_of(seq![it]) == (match it {
            InstrV::Text(t) => seq![t],
            _ => Seq::<Seq<u8>>::empty(),
        }),
{
    let single = seq![it];
    assert(single.drop_first() =~= Seq::<InstrV>::empty());
    assert(texts_of(Seq::<InstrV>::empty()) =~~= Seq::<Seq<u8>>::empty());
    match it {
        InstrV::Text(t) => {
            assert(texts_of(single) =~~= seq![t]);
        },
        _ => {
            assert(texts_of(single) =~~= Seq::<Seq<u8>>::empty());
        },
    }
}

/// The layout emits each token as exactly one text chunk, in order.
pub proof fn lemma_wrap_texts(
    tokens: Seq<Seq<u8>>,
    i: int,
    cw: int,
    allow: bool,
    jsx: bool,
    includes_indent: bool,
    lw: int,
    icv: int,
    break_indent: int,
)
    requires
        0 <= i <= tokens.len(),
    ensures
        texts_of(spec_wrap_from(tokens, i, cw, allow, jsx, includes_indent, lw, icv, break_indent))
            == tokens.skip(i),
    decreases tokens.len() - i,
{
    let out = spec_wrap_from(tokens, i, cw, allow, jsx, includes_indent, lw, icv, break_indent);
    if i >= tokens.len() {
        assert(texts_of(Seq::<InstrV>::empty()) =~~= Seq::<Seq<u8>>::empty());
        assert(tokens.skip(i) =~~= Seq::<Seq<u8>>::empty());
    } else {
        let w = char_count(tokens[i]);
        let next = cw + w + 1;
        let exceeds = next > spec_limit(lw, includes_indent, icv);
        let space = seq![InstrV::Space];
        let text = seq![InstrV::Text(tokens[i])];
        let brk = seq![spec_break(jsx, break_indent)];
        let none = Seq::<InstrV>::empty();
        lemma_texts_single(InstrV::Space);
        lemma_texts_single(InstrV::Text(tokens[i]));
        lemma_texts_single(spec_break(jsx, break_indent));
        assert(texts_of(none) =~~= Seq::<Seq<u8>>::empty());
        if exceeds && allow {
            lemma_wrap_texts(
                tokens,
                i + 1,
                0,
                allow,
                jsx,
                includes_indent,
                lw,
                icv,
                break_indent,
            );
            let rest = spec_wrap_from(
                tokens,
                i + 1,
                0,
                allow,
                jsx,
                includes_indent,
                lw,
                icv,
                break_indent,
            );
            let lead = if cw > 0 {
                space
            } else {
                none
            };
            let tail = if i + 1 < tokens.len() {
                brk
            } else {
                none
            };
            lemma_texts_app(lead, text);
            lemma_texts_app(lead + text, tail);
            lemma_texts_app(lead + text + tail, rest);
            assert(out == lead + text + tail + rest);
            assert(texts_of(out) =~~= seq![tokens[i]] + tokens.skip(i + 1));
            assert(tokens.skip(i) =~~= seq![tokens[i]] + tokens.skip(i + 1));
        } else if exceeds {
            lemma_wrap_texts(
                tokens,
                i + 1,
                w,
                allow,
                jsx,
                includes_indent,
                lw,
                icv,
                break_indent,
            );
            let rest = spec_wrap_from(
                tokens,
                i + 1,
                w,
                allow,
                jsx,
                includes_indent,
                lw,
                icv,
                break_indent,
            );
            assert(seq![spec_break(jsx, break_indent), InstrV::Text(tokens[i])] =~= brk + text);
            lemma_texts_app(brk, text);
            lemma_texts_app(brk + text, rest);
            assert(out == seq![spec_break(jsx, break_indent), InstrV::Text(tokens[i])] + rest);
            assert(texts_of(out) =~~= seq![tokens[i]] + tokens.skip(i + 1));
            assert(tokens.skip(i) =~~= seq![tokens[i]] + tokens.skip(i + 1));
        } else {
            lemma_wrap_texts(
                tokens,
                i + 1,
                next,
                allow,
                jsx,
                includes_indent,
                lw,
                icv,
                break_indent,
            );
            let rest = spec_wrap_from(
                tokens,
                i + 1,
                next,
                allow,
                jsx,
                includes_indent,
                lw,
                icv,
                break_indent,
            );
            let lead = if i > 0 {
                space
            } else {
                none
            };
            lemma_texts_app(lead, text);
            lemma_texts_app(lead + text, rest);
            assert(out == lead + text + rest);
            assert(texts_of(out) =~~= seq![tokens[i]] + tokens.skip(i + 1));
            assert(tokens.skip(i) =~~= seq![tokens[i]] + tokens.skip(i + 1));
        }
    }
}

/// Applying a uniform block indent touches only the breaks: the text chunks
/// are unchanged.
pub proof fn lemma_texts_add_indent(items: Seq<InstrV>, extra: int)
    ensures
        texts_of(spec_add_indent(items, extra)) == texts_of(items),
    decreases items.len(),
{
    if items.len() > 0 {
        lemma_texts_add_indent(items.drop_first(), extra);
        assert(spec_add_indent(items, extra).drop_first() =~~= spec_add_indent(
            items.drop_first(),
            extra,
        ));
        assert(texts_of(spec_add_indent(items, extra)) =~~= texts_of(items));
    }
}

/// Token preservation: the text chunks the wrapping engine emits for one
/// value are exactly the whitespace-delimited tokens of that value, in their
/// original order (and so, in particular, the same multiset).
pub proof fn lemma_token_preservation(
    w: TailwindWrapper,
    node_text: Seq<u8>,
    text: Seq<u8>,
    name_start: int,
    value_start: int,
)
    ensures
        texts_of(spec_format(w, node_text, text, name_start, value_start)) == tokens_of(node_text),
{
    let icv = spec_indent_value(w, text, name_start, value_start);
    let base = spec_wrap_from(
        tokens_of(node_text),
        0,
        crate::position::spec_column_number(text, value_start),
        w.option.allow_line_overflow,
        w.jsxexpression,
        w.option.line_width_includes_indent,
        w.option.line_width as int,
        icv,
        spec_break_indent_of(w, icv),
    );
    lemma_wrap_texts(
        tokens_of(node_text),
        0,
        crate::position::spec_column_number(text, value_start),
        w.option.allow_line_overflow,
        w.jsxexpression,
        w.option.line_width_includes_indent,
        w.option.line_width as int,
        icv,
        spec_break_indent_of(w, icv),
    );
    assert(tokens_of(node_text).skip(0) =~~= tokens_of(node_text));
    if !w.option.indent_to_quote {
        lemma_texts_add_indent(base, crate::tw_wrapper::spec_block_indent(w, icv));
    }
}

/// Rendering a whole format call's instruction stream yields the pass-through
/// text verbatim around each site, with only the wrapping engine's rendered
/// output in between: every byte outside the recognized value spans is
/// byte-identical between input and output.
pub proof fn lemma_output_decomposition(
    sites: Seq<Site>,
    j: int,
    cursor: int,
    text: Seq<u8>,
    w: TailwindWrapper,
)
    ensures
        render_of(spec_emit(sites, j, cursor, text, w)) == spec_output_text(
            sites,
            j,
            cursor,
            text,
            w,
        ),
    decreases sites.len() - j,
{
    if j < 0 || j >= sites.len() {
        lemma_render_single(InstrV::Text(text.subrange(cursor, text.len() as int)));
    } else {
        let s = sites[j];
        let pre = seq![InstrV::Text(text.subrange(cursor, s.value_start as int))];
        let fmt = spec_format(
            wrapper_at(w, text, s),
            text.subrange(s.value_start as int, s.value_end as int),
            text,
            s.name_start as int,
            s.value_start as int,
        );
        let rest = spec_emit(sites, j + 1, s.value_end as int, text, w);
        lemma_output_decomposition(sites, j + 1, s.value_end as int, text, w);
        lemma_render_single(InstrV::Text(text.subrange(cursor, s.value_start as int)));
        lemma_render_app(pre, fmt);
        lemma_render_app(pre + fmt, rest);
        assert(spec_emit(sites, j, cursor, text, w) == pre + fmt + rest);
        assert(render_of(spec_emit(sites, j, cursor, text, w)) =~= spec_output_text(
            sites,
            j,
            cursor,
            text,
            w,
        ));
    }
}

/// Every break in `items` carries the continuation marker `m`.
pub open spec fn all_breaks_have_marker(items: Seq<InstrV>, m: bool) -> bool {
    forall|k: int|
        0 <= k < items.len() ==> (instr_is_break(#[trigger] items[k])
            ==> crate::instructions::instr_break_marker(items[k]) == m)
}

pub proof fn lemma_breaks_marker_app(a: Seq<InstrV>, b: Seq<InstrV>, m: bool)
    requires
        all_breaks_have_marker(a, m),
        all_breaks_have_marker(b, m),
    ensures
        all_breaks_have_marker(a + b, m),
{
    assert forall|k: int| 0 <= k < (a + b).len() implies (instr_is_break(#[trigger] (a + b)[k])
        ==> crate::instructions::instr_break_marker((a + b)[k]) == m) by {
        if k < a.len() {
            assert((a + b)[k] == a[k]);
        } else {
            assert((a + b)[k] == b[k - a.len()]);
        }
    }
}

pub proof fn lemma_wrap_break_markers(
    tokens: Seq<Seq<u8>>,
    i: int,
    cw: int,
    allow: bool,
    jsx: bool,
    includes_indent: bool,
    lw: int,
    icv: int,
    break_indent: int,
)
    ensures
        all_breaks_have_marker(
            spec_wrap_from(tokens, i, cw, allow, jsx, includes_indent, lw, icv, break_indent),
            jsx,
        ),
    decreases tokens.len() - i,
{
    let out = spec_wrap_from(tokens, i, cw, allow, jsx, includes_indent, lw, icv, break_indent);
    if 0 <= i < tokens.len() {
        let w = char_count(tokens[i]);
        let next = cw + w + 1;
        let exceeds = next > spec_limit(lw, includes_indent, icv);
        let space = seq![InstrV::Space];
        let text = seq![InstrV::Text(tokens[i])];
        let brk = seq![spec_break(jsx, break_indent)];
        let none = Seq::<InstrV>::empty();
        assert(all_breaks_have_marker(space, jsx));
        assert(all_breaks_have_marker(text, jsx));
        assert(all_breaks_have_marker(brk, jsx));
        assert(all_breaks_have_marker(none, jsx));
        if exceeds && allow {
            lemma_wrap_break_markers(tokens, i + 1, 0, allow, jsx, includes_indent, lw, icv, break_indent);
            let rest = spec_wrap_from(tokens, i + 1, 0, allow, jsx, includes_indent, lw, icv, break_indent);
            let lead = if cw > 0 { space } else { none };
            let tail = if i + 1 < tokens.len() { brk } else { none };
            lemma_breaks_marker_app(lead, text, jsx);
            lemma_breaks_marker_app(lead + text, tail, jsx);
            lemma_breaks_marker_app(lead + text + tail, rest, jsx);
            assert(out == lead + text + tail + rest);
        } else if exceeds {
            lemma_wrap_break_markers(tokens, i + 1, w, allow, jsx, includes_indent, lw, icv, break_indent);
            let rest = spec_wrap_from(tokens, i + 1, w, allow, jsx, includes_indent, lw, icv, break_indent);
            assert(seq![spec_break(jsx, break_indent), InstrV::Text(tokens[i])] =~= brk + text);
            lemma_breaks_marker_app(brk, text, jsx);
            lemma_breaks_marker_app(brk + text, rest, jsx);
            assert(out == seq![spec_break(jsx, break_indent), InstrV::Text(tokens[i])] + rest);
        } else {
            lemma_wrap_break_markers(tokens, i + 1, next, allow, jsx, includes_indent, lw, icv, break_indent);
            let rest = spec_wrap_from(tokens, i + 1, next, allow, jsx, includes_indent, lw, icv, break_indent);
            let lead = if i > 0 { space } else { none };
            lemma_breaks_marker_app(lead, text, jsx);
            lemma_breaks_marker_app(lead + text, rest, jsx);
            assert(out == lead + text + rest);
        }
    }
}

/// Continuation markers: every break the engine emits for a value inside an
/// expression container carries the marker (one space and one backslash
/// before the line break), and no break of a bare quoted value does.
pub proof fn lemma_continuation_marker(
    w: TailwindWrapper,
    node_text: Seq<u8>,
    text: Seq<u8>,
    name_start: int,
    value_start: int,
)
    ensures
        all_breaks_have_marker(
            spec_format(w, node_text, text, name_start, value_start),
            w.jsxexpression,
        ),
{
    let icv = spec_indent_value(w, text, name_start, value_start);
    let col = crate::position::spec_column_number(text, value_start);
    let base = spec_wrap_from(
        tokens_of(node_text),
        0,
        col,
        w.option.allow_line_overflow,
        w.jsxexpression,
        w.option.line_width_includes_indent,
        w.option.line_width as int,
        icv,
        spec_break_indent_of(w, icv),
    );
    lemma_wrap_break_markers(
        tokens_of(node_text),
        0,
        col,
        w.option.allow_line_overflow,
        w.jsxexpression,
        w.option.line_width_includes_indent,
        w.option.line_width as int,
        icv,
        spec_break_indent_of(w, icv),
    );
    if !w.option.indent_to_quote {
        let extra = crate::tw_wrapper::spec_block_indent(w, icv);
        let mapped = spec_add_indent(base, extra);
        assert forall|k: int| 0 <= k < mapped.len() implies (instr_is_break(#[trigger] mapped[k])
            ==> crate::instructions::instr_break_marker(mapped[k]) == w.jsxexpression) by {
            assert(instr_is_break(base[k]) ==> crate::instructions::instr_break_marker(base[k])
                == w.jsxexpression);
        }
    }
}

/// Breaks come only after tokens in the emitted stream.
pub open spec fn breaks_only_after_text(items: Seq<InstrV>) -> bool {
    forall|k: int|
        0 <= k < items.len() ==> (instr_is_break(#[trigger] items[k]) ==> k >= 1 && instr_is_text(
            items[k - 1],
        ))
}

/// Overflow-allowed placement: with overflow allowed, the engine never forces
/// a break before a token; every break comes directly after an emitted token
/// (in particular, after an over-width token that finished its line).
pub proof fn lemma_overflow_no_forced_break(
    tokens: Seq<Seq<u8>>,
    i: int,
    cw: int,
    jsx: bool,
    includes_indent: bool,
    lw: int,
    icv: int,
    break_indent: int,
)
    ensures
        breaks_only_after_text(
            spec_wrap_from(tokens, i, cw, true, jsx, includes_indent, lw, icv, break_indent),
        ),
    decreases tokens.len() - i,
{
    let out = spec_wrap_from(tokens, i, cw, true, jsx, includes_indent, lw, icv, break_indent);
    if 0 <= i < tokens.len() {
        let w = char_count(tokens[i]);
        let next = cw + w + 1;
        let exceeds = next > spec_limit(lw, includes_indent, icv);
        let space = seq![InstrV::Space];
        let text = seq![InstrV::Text(tokens[i])];
        let brk = seq![spec_break(jsx, break_indent)];
        let none = Seq::<InstrV>::empty();
        if exceeds {
            lemma_overflow_no_forced_break(tokens, i + 1, 0, jsx, includes_indent, lw, icv, break_indent);
            let rest = spec_wrap_from(tokens, i + 1, 0, true, jsx, includes_indent, lw, icv, break_indent);
            let lead = if cw > 0 { space } else { none };
            let tail = if i + 1 < tokens.len() { brk } else { none };
            let e = lead + text + tail;
            assert(out == e + rest);
            assert forall|k: int| 0 <= k < out.len() && instr_is_break(out[k]) implies k >= 1
                && instr_is_text(out[k - 1]) by {
                if k < e.len() {
                    assert(out[k] == e[k]);
                    if k < lead.len() {
                        assert(e[k] == lead[k]);
                        assert(!instr_is_break(lead[k]));
                    } else if k == lead.len() {
                        assert(e[k] == text[0]);
                        assert(!instr_is_break(e[k]));
                    } else {
                        assert(e[k] == tail[k - lead.len() - 1]);
                        assert(k == lead.len() + 1);
                        assert(out[k - 1] == e[k - 1]);
                        assert(e[k - 1] == text[0]);
                    }
                } else {
                    assert(out[k] == rest[k - e.len()]);
                    assert(k - e.len() >= 1 && instr_is_text(rest[k - e.len() - 1]));
                    assert(out[k - 1] == rest[k - e.len() - 1]);
                }
            }
        } else {
            lemma_overflow_no_forced_break(tokens, i + 1, next, jsx, includes_indent, lw, icv, break_indent);
            let rest = spec_wrap_from(tokens, i + 1, next, true, jsx, includes_indent, lw, icv, break_indent);
            let lead = if i > 0 { space } else { none };
            let e = lead + text;
            assert(out == e + rest);
            assert forall|k: int| 0 <= k < out.len() && instr_is_break(out[k]) implies k >= 1
                && instr_is_text(out[k - 1]) by {
                if k < e.len() {
                    assert(out[k] == e[k]);
                    if k < lead.len() {
                        assert(e[k] == lead[k]);
                        assert(!instr_is_break(lead[k]));
                    } else {
                        assert(e[k] == text[0]);
                        assert(!instr_is_break(e[k]));
                    }
                } else {
                    assert(out[k] == rest[k - e.len()]);
                    assert(k - e.len() >= 1 && instr_is_text(rest[k - e.len() - 1]));
                    assert(out[k - 1] == rest[k - e.len() - 1]);
                }
            }
        }
    }
}

/// Overflow-allowed placement, for a whole formatted value: an over-width
/// token finishes the line it was appended to, so no break ever stands
/// directly before a token — every break follows one.
pub proof fn lemma_overflow_placement(
    w: TailwindWrapper,
    node_text: Seq<u8>,
    text: Seq<u8>,
    name_start: int,
    value_start: int,
)
    requires
        w.option.allow_line_overflow,
    ensures
        breaks_only_after_text(spec_format(w, node_text, text, name_start, value_start)),
{
    let icv = spec_indent_value(w, text, name_start, value_start);
    let col = crate::position::spec_column_number(text, value_start);
    let base = spec_wrap_from(
        tokens_of(node_text),
        0,
        col,
        true,
        w.jsxexpression,
        w.option.line_width_includes_indent,
        w.option.line_width as int,
        icv,
        spec_break_indent_of(w, icv),
    );
    lemma_overflow_no_forced_break(
        tokens_of(node_text),
        0,
        col,
        w.jsxexpression,
        w.option.line_width_includes_indent,
        w.option.line_width as int,
        icv,
        spec_break_indent_of(w, icv),
    );
    if !w.option.indent_to_quote {
        let extra = crate::tw_wrapper::spec_block_indent(w, icv);
        let mapped = spec_add_indent(base, extra);
        assert forall|k: int| 0 <= k < mapped.len() && instr_is_break(mapped[k]) implies k >= 1
            && instr_is_text(mapped[k - 1]) by {
            assert(instr_is_break(base[k]));
            assert(k >= 1 && instr_is_text(base[k - 1]));
        }
    }
}

/// A line passes when its measured width stays within the limit, or when it
/// holds no more than a single token (a token is never split).
pub open spec fn line_ok(cur: int, ntext: int, lw: int) -> bool {
    cur <= lw || ntext <= 1
}

/// Walks an instruction stream line by line: `cur` is the measured width of
/// the line so far (text chunks and separating spaces; a break's indent run
/// counts toward the next line only when the width is measured inclusive of
/// indent), `ntext` the number of tokens on it. Each finished line, and the
/// last one, must pass `line_ok`.
pub open spec fn widths_ok(
    items: Seq<InstrV>,
    cur: int,
    ntext: int,
    lw: int,
    count_indent: bool,
) -> bool
    decreases items.len(),
{
    if items.len() == 0 {
        line_ok(cur, ntext, lw)
    } else {
        match items[0] {
            InstrV::Text(t) => widths_ok(
                items.drop_first(),
                cur + char_count(t),
                ntext + 1,
                lw,
                count_indent,
            ),
            InstrV::Space => widths_ok(items.drop_first(), cur + 1, ntext, lw, count_indent),
            InstrV::Break { marker, indent } => line_ok(cur, ntext, lw) && widths_ok(
                items.drop_first(),
                if count_indent {
                    indent
                } else {
                    0
                },
                0,
                lw,
                count_indent,
            ),
        }
    }
}

proof fn lemma_widths_cons(it: InstrV, rest: Seq<InstrV>, cur: int, ntext: int, lw: int, ci: bool)
    ensures
        widths_ok(seq![it] + rest, cur, ntext, lw, ci) == (match it {
            InstrV::Text(t) => widths_ok(rest, cur + char_count(t), ntext + 1, lw, ci),
            InstrV::Space => widths_ok(rest, cur + 1, ntext, lw, ci),
            InstrV::Break { marker, indent } => line_ok(cur, ntext, lw) && widths_ok(
                rest,
                if ci {
                    indent
                } else {
                    0
                },
                0,
                lw,
                ci,
            ),
        }),
{
    let s = seq![it] + rest;
    assert(s[0] == it);
    assert(s.drop_first() =~= rest);
}

/// The inductive heart of the width bound: whenever the line under
/// construction is accounted for by `cur` and `ntext` as `widths_ok` demands,
/// the layout without overflow keeps every line within the limit or down to a
/// single token.
proof fn lemma_wrap_widths(
    tokens: Seq<Seq<u8>>,
    i: int,
    cw: int,
    jsx: bool,
    includes_indent: bool,
    lw: int,
    icv: int,
    break_indent: int,
    cur: int,
    ntext: int,
)
    requires
        0 <= i <= tokens.len(),
        0 <= lw,
        0 <= icv,
        includes_indent ==> icv <= lw,
        includes_indent ==> 0 <= break_indent <= icv,
        (if cw <= spec_limit(lw, includes_indent, icv) {
            cur <= cw + (if includes_indent {
                icv
            } else {
                0int
            })
        } else {
            ntext <= 1
        }),
    ensures
        widths_ok(
            spec_wrap_from(tokens, i, cw, false, jsx, includes_indent, lw, icv, break_indent),
            cur,
            ntext,
            lw,
            includes_indent,
        ),
    decreases tokens.len() - i,
{
    let dd: int = if includes_indent {
        icv
    } else {
        0
    };
    let limit = spec_limit(lw, includes_indent, icv);
    let out = spec_wrap_from(tokens, i, cw, false, jsx, includes_indent, lw, icv, break_indent);
    if i >= tokens.len() {
        assert(widths_ok(Seq::<InstrV>::empty(), cur, ntext, lw, includes_indent) == line_ok(
            cur,
            ntext,
            lw,
        ));
        assert(line_ok(cur, ntext, lw));
    } else {
        crate::instructions::lemma_char_count_le_len(tokens[i]);
        let w = char_count(tokens[i]);
        let next = cw + w + 1;
        let exceeds = next > limit;
        let text_i = InstrV::Text(tokens[i]);
        let brk_i = spec_break(jsx, break_indent);
        if exceeds {
            let rest = spec_wrap_from(
                tokens,
                i + 1,
                w,
                false,
                jsx,
                includes_indent,
                lw,
                icv,
                break_indent,
            );
            assert(out =~= seq![brk_i] + (seq![text_i] + rest));
            let cur1: int = if includes_indent {
                break_indent
            } else {
                0
            };
            lemma_widths_cons(brk_i, seq![text_i] + rest, cur, ntext, lw, includes_indent);
            lemma_widths_cons(text_i, rest, cur1, 0, lw, includes_indent);
            assert(line_ok(cur, ntext, lw));
            lemma_wrap_widths(
                tokens,
                i + 1,
                w,
                jsx,
                includes_indent,
                lw,
                icv,
                break_indent,
                cur1 + w,
                1,
            );
        } else {
            let rest = spec_wrap_from(
                tokens,
                i + 1,
                next,
                false,
                jsx,
                includes_indent,
                lw,
                icv,
                break_indent,
            );
            assert(cw < next);
            if i > 0 {
                assert(out =~= seq![InstrV::Space] + (seq![text_i] + rest));
                lemma_widths_cons(InstrV::Space, seq![text_i] + rest, cur, ntext, lw, includes_indent);
                lemma_widths_cons(text_i, rest, cur + 1, ntext, lw, includes_indent);
                lemma_wrap_widths(
                    tokens,
                    i + 1,
                    next,
                    jsx,
                    includes_indent,
                    lw,
                    icv,
                    break_indent,
                    cur + 1 + w,
                    ntext + 1,
                );
            } else {
                assert(out =~= seq![text_i] + rest);
                lemma_widths_cons(text_i, rest, cur, ntext, lw, includes_indent);
                lemma_wrap_widths(
                    tokens,
                    i + 1,
                    next,
                    jsx,
                    includes_indent,
                    lw,
                    icv,
                    break_indent,
                    cur + w,
                    ntext + 1,
                );
            }
        }
    }
}

/// Applying a uniform extra indent to every break of a layout is the same as
/// having laid the tokens out with that larger break indent from the start.
proof fn lemma_add_indent_wrap(
    tokens: Seq<Seq<u8>>,
    i: int,
    cw: int,
    allow: bool,
    jsx: bool,
    includes_indent: bool,
    lw: int,
    icv: int,
    break_indent: int,
    extra: int,
)
    ensures
        spec_add_indent(
            spec_wrap_from(tokens, i, cw, allow, jsx, includes_indent, lw, icv, break_indent),
            extra,
        ) == spec_wrap_from(
            tokens,
            i,
            cw,
            allow,
            jsx,
            includes_indent,
            lw,
            icv,
            break_indent + extra,
        ),
    decreases tokens.len() - i,
{
    let out = spec_wrap_from(tokens, i, cw, allow, jsx, includes_indent, lw, icv, break_indent);
    let shifted = spec_wrap_from(
        tokens,
        i,
        cw,
        allow,
        jsx,
        includes_indent,
        lw,
        icv,
        break_indent + extra,
    );
    if i < 0 || i >= tokens.len() {
        assert(spec_add_indent(out, extra) =~~= shifted);
    } else {
        let w = char_count(tokens[i]);
        let next = cw + w + 1;
        let exceeds = next > spec_limit(lw, includes_indent, icv);
        if exceeds && allow {
            lemma_add_indent_wrap(
                tokens,
                i + 1,
                0,
                allow,
                jsx,
                includes_indent,
                lw,
                icv,
                break_indent,
                extra,
            );
        } else if exceeds {
            lemma_add_indent_wrap(
                tokens,
                i + 1,
                w,
                allow,
                jsx,
                includes_indent,
                lw,
                icv,
                break_indent,
                extra,
            );
        } else {
            lemma_add_indent_wrap(
                tokens,
                i + 1,
                next,
                allow,
                jsx,
                includes_indent,
                lw,
                icv,
                break_indent,
                extra,
            );
        }
        assert(spec_add_indent(out, extra) =~~= shifted);
    }
}

/// Width bound: with overflow not allowed, every line the wrapping engine
/// emits — measured as its tokens plus separating spaces, starting from the
/// value's column on the first line, plus the line's indent when the width is
/// measured inclusive of indent — stays within the configured line width,
/// except a line holding a single token that alone exceeds it (a token is
/// never split).
pub proof fn lemma_width_bound(
    w: TailwindWrapper,
    node_text: Seq<u8>,
    text: Seq<u8>,
    name_start: int,
    value_start: int,
)
    requires
        !w.option.allow_line_overflow,
        w.option.indent_width > 0,
        0 <= name_start <= text.len(),
        0 <= value_start <= text.len(),
        w.option.line_width_includes_indent ==> spec_indent_value(
            w,
            text,
            name_start,
            value_start,
        ) <= w.option.line_width as int,
    ensures
        widths_ok(
            spec_format(w, node_text, text, name_start, value_start),
            crate::position::spec_column_number(text, value_start),
            0,
            w.option.line_width as int,
            w.option.line_width_includes_indent,
        ),
{
    let icv = spec_indent_value(w, text, name_start, value_start);
    let col = crate::position::spec_column_number(text, value_start);
    let toks = tokens_of(node_text);
    let flag = w.option.line_width_includes_indent;
    let lw = w.option.line_width as int;
    let jsx = w.jsxexpression;
    crate::position::lemma_line_start_bounds(text, value_start);
    crate::position::lemma_line_start_bounds(text, name_start);
    assert(0 <= col);
    assert(0 <= icv);
    if w.option.indent_to_quote {
        lemma_wrap_widths(toks, 0, col, jsx, flag, lw, icv, icv, col, 0);
    } else {
        let iw = w.option.indent_width as int;
        let extra = crate::tw_wrapper::spec_block_indent(w, icv);
        vstd::arithmetic::div_mod::lemma_fundamental_div_mod(icv, iw);
        vstd::arithmetic::div_mod::lemma_mod_bound(icv, iw);
        vstd::arithmetic::div_mod::lemma_div_pos_is_pos(icv, iw);
        let q = icv / iw;
        assert(extra == q * iw);
        assert(q * iw == iw * q) by (nonlinear_arith);
        assert(0 <= extra <= icv);
        lemma_add_indent_wrap(toks, 0, col, false, jsx, flag, lw, icv, 0, extra);
        lemma_wrap_widths(toks, 0, col, jsx, flag, lw, icv, extra, col, 0);
    }
}

} // verus!
