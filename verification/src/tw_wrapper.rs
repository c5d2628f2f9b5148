//! The wrapping engine: lays the whitespace-delimited tokens of one attribute
//! value across one or more lines, under the configured maximum width.

use vstd::prelude::*;

use crate::instructions::{char_count, char_width, tokenize, tokens_of, InstrV, Instruction};
use crate::position::{get_column_number, get_line_number, spec_column_number, spec_line_number};

verus! {

/// The indentation chosen for the continuation lines of one value, as an
/// absolute column: either the column of the value's opening delimiter, or a
/// column derived from the structural context.
pub enum IndentCount {
    IndentToQuote(u32),
    IndentToPre(u32),
}

impl IndentCount {
    pub open spec fn spec_value(&self) -> int {
        match self {
            IndentCount::IndentToQuote(n) => *n as int,
            IndentCount::IndentToPre(n) => *n as int,
        }
    }

    pub fn value(&self) -> (r: u32)
        ensures
            r as int == self.spec_value(),
    {
        match self {
            IndentCount::IndentToQuote(n) => *n,
            IndentCount::IndentToPre(n) => *n,
        }
    }

    pub fn level(&self, indent_width: u8) -> (r: u32)
        requires
            indent_width > 0,
        ensures
            r as int == self.spec_value() / indent_width as int,
    {
        crate::position::get_indent_level(self.value() as usize, indent_width)
    }
}

/// The configuration slice that the wrapping engine reads.
#[derive(Clone, Copy)]
pub struct TailwindWrapperOption {
    pub allow_line_overflow: bool,
    pub indent_to_quote: bool,
    pub indent_width: u8,
    pub line_width_includes_indent: bool,
    pub line_width: u32,
}

/// The wrapping engine together with the traversal context it reads: the
/// line and column of the most recently visited opening element, and whether
/// the value currently being formatted sits inside a brace-delimited
/// expression container.
#[derive(Clone, Copy)]
pub struct TailwindWrapper {
    pub option: TailwindWrapperOption,
    pub pre_jsx_element_line: u32,
    pub pre_indent_count: u32,
    pub jsxexpression: bool,
}

/// The maximum width a candidate may reach: the configured width, less the
/// indent when the width is measured inclusive of it.
pub open spec fn spec_limit(lw: int, includes_indent: bool, icv: int) -> int {
    if includes_indent {
        lw - icv
    } else {
        lw
    }
}

/// The composed break instruction the engine emits.
pub open spec fn spec_break(jsx: bool, break_indent: int) -> InstrV {
    InstrV::Break { marker: jsx, indent: break_indent }
}

/// Token layout, from token `i` onward, with `cw` the width already used on
/// the current line. For each token of width `w`, the candidate width is
/// `cw + w + 1`; a candidate over the limit either finishes its line (when
/// overflow is allowed) or is moved, bare, to a fresh line.
pub open spec fn spec_wrap_from(
    tokens: Seq<Seq<u8>>,
    i: int,
    cw: int,
    allow: bool,
    jsx: bool,
    includes_indent: bool,
    lw: int,
    icv: int,
    break_indent: int,
) -> Seq<InstrV>
    decreases tokens.len() - i,
{
    if i < 0 || i >= tokens.len() {
        Seq::empty()
    } else {
        let w = char_count(tokens[i]);
        let next = cw + w + 1;
        let exceeds = next > spec_limit(lw, includes_indent, icv);
        if exceeds && allow {
            (if cw > 0 {
                seq![InstrV::Space]
            } else {
                Seq::<InstrV>::empty()
            }) + seq![InstrV::Text(tokens[i])] + (if i + 1 < tokens.len() {
                seq![spec_break(jsx, break_indent)]
            } else {
                Seq::<InstrV>::empty()
            }) + spec_wrap_from(tokens, i + 1, 0, allow, jsx, includes_indent, lw, icv, break_indent)
        } else if exceeds {
            seq![spec_break(jsx, break_indent), InstrV::Text(tokens[i])] + spec_wrap_from(
                tokens,
                i + 1,
                w,
                allow,
                jsx,
                includes_indent,
                lw,
                icv,
                break_indent,
            )
        } else {
            (if i > 0 {
                seq![InstrV::Space]
            } else {
                Seq::<InstrV>::empty()
            }) + seq![InstrV::Text(tokens[i])] + spec_wrap_from(
                tokens,
                i + 1,
                next,
                allow,
                jsx,
                includes_indent,
                lw,
                icv,
                break_indent,
            )
        }
    }
}

/// Every break in `items` carries the indent run `ind`.
pub open spec fn all_breaks_have_indent(items: Seq<InstrV>, ind: int) -> bool {
    forall|k: int|
        0 <= k < items.len() ==> (crate::instructions::instr_is_break(#[trigger] items[k])
            ==> crate::instructions::instr_break_indent(items[k]) == ind)
}

pub proof fn lemma_all_breaks_app(a: Seq<InstrV>, b: Seq<InstrV>, ind: int)
    requires
        all_breaks_have_indent(a, ind),
        all_breaks_have_indent(b, ind),
    ensures
        all_breaks_have_indent(a + b, ind),
{
    assert forall|k: int| 0 <= k < (a + b).len() implies (crate::instructions::instr_is_break(
        #[trigger] (a + b)[k],
    ) ==> crate::instructions::instr_break_indent((a + b)[k]) == ind) by {
        if k < a.len() {
            assert((a + b)[k] == a[k]);
        } else {
            assert((a + b)[k] == b[k - a.len()]);
        }
    }
}

/// Every break the layout emits carries the same indent run.
pub proof fn lemma_wrap_break_indents(
    tokens: Seq<Seq<u8>>,
    i: int,
    cw: int,
    allow: bool,
    jsx: bool,
    includes_indent: bool,
    lw: int,
    icv: int,
    break_indent: int,
)
    ensures
        all_breaks_have_indent(
            spec_wrap_from(tokens, i, cw, allow, jsx, includes_indent, lw, icv, break_indent),
            break_indent,
        ),
    decreases tokens.len() - i,
{
    let out = spec_wrap_from(tokens, i, cw, allow, jsx, includes_indent, lw, icv, break_indent);
    if 0 <= i < tokens.len() {
        let w = char_count(tokens[i]);
        let next = cw + w + 1;
        let exceeds = next > spec_limit(lw, includes_indent, icv);
        let space = seq![InstrV::Space];
        let text = seq![InstrV::Text(tokens[i])];
        let brk = seq![spec_break(jsx, break_indent)];
        let none = Seq::<InstrV>::empty();
        assert(all_breaks_have_indent(space, break_indent));
        assert(all_breaks_have_indent(text, break_indent));
        assert(all_breaks_have_indent(brk, break_indent));
        assert(all_breaks_have_indent(none, break_indent));
        if exceeds && allow {
            lemma_wrap_break_indents(
                tokens,
                i + 1,
                0,
                allow,
                jsx,
                includes_indent,
                lw,
                icv,
                break_indent,
            );
            let rest = spec_wrap_from(
                tokens,
                i + 1,
                0,
                allow,
                jsx,
                includes_indent,
                lw,
                icv,
                break_indent,
            );
            let lead = if cw > 0 {
                space
            } else {
                none
            };
            let tail = if i + 1 < tokens.len() {
                brk
            } else {
                none
            };
            lemma_all_breaks_app(lead, text, break_indent);
            lemma_all_breaks_app(lead + text, tail, break_indent);
            lemma_all_breaks_app(lead + text + tail, rest, break_indent);
            assert(out == lead + text + tail + rest);
        } else if exceeds {
            lemma_wrap_break_indents(
                tokens,
                i + 1,
                w,
                allow,
                jsx,
                includes_indent,
                lw,
                icv,
                break_indent,
            );
            let rest = spec_wrap_from(
                tokens,
                i + 1,
                w,
                allow,
                jsx,
                includes_indent,
                lw,
                icv,
                break_indent,
            );
            assert(seq![spec_break(jsx, break_indent), InstrV::Text(tokens[i])] =~= brk + text);
            lemma_all_breaks_app(brk, text, break_indent);
            lemma_all_breaks_app(brk + text, rest, break_indent);
            assert(out == seq![spec_break(jsx, break_indent), InstrV::Text(tokens[i])] + rest);
        } else {
            lemma_wrap_break_indents(
                tokens,
                i + 1,
                next,
                allow,
                jsx,
                includes_indent,
                lw,
                icv,
                break_indent,
            );
            let rest = spec_wrap_from(
                tokens,
                i + 1,
                next,
                allow,
                jsx,
                includes_indent,
                lw,
                icv,
                break_indent,
            );
            let lead = if i > 0 {
                space
            } else {
                none
            };
            lemma_all_breaks_app(lead, text, break_indent);
            lemma_all_breaks_app(lead + text, rest, break_indent);
            assert(out == lead + text + rest);
        }
    }
}

/// The indentation column the engine derives for one value: the column of the
/// value's opening delimiter in indent-to-quote mode; otherwise one indent
/// unit past the nearest relevant anchor (the preceding element's column when
/// the value shares its line, else the attribute name's column).
pub open spec fn spec_indent_value(
    w: TailwindWrapper,
    text: Seq<u8>,
    name_start: int,
    value_start: int,
) -> int {
    if w.option.indent_to_quote {
        spec_column_number(text, value_start)
    } else if spec_line_number(text, value_start) == w.pre_jsx_element_line as int {
        w.pre_indent_count as int + w.option.indent_width as int
    } else {
        spec_column_number(text, name_start) + w.option.indent_width as int
    }
}

/// Per-break indent carried by the emitted break instructions: the absolute
/// quote column in indent-to-quote mode, nothing in indent-to-context mode
/// (whose indentation is applied once over the whole block).
pub open spec fn spec_break_indent_of(w: TailwindWrapper, icv: int) -> int {
    if w.option.indent_to_quote {
        icv
    } else {
        0
    }
}

/// Uniform extra indentation applied to every break of a block.
pub open spec fn spec_add_indent(items: Seq<InstrV>, extra: int) -> Seq<InstrV> {
    items.map(
        |j: int, it: InstrV|
            match it {
                InstrV::Break { marker, indent } => InstrV::Break {
                    marker,
                    indent: indent + extra,
                },
                other => other,
            },
    )
}

/// The whole-block indentation of indent-to-context mode: the indent level of
/// the derived column, in spaces.
pub open spec fn spec_block_indent(w: TailwindWrapper, icv: int) -> int {
    (icv / w.option.indent_width as int) * w.option.indent_width as int
}

/// Everything the wrapping engine emits for one value.
pub open spec fn spec_format(
    w: TailwindWrapper,
    node_text: Seq<u8>,
    text: Seq<u8>,
    name_start: int,
    value_start: int,
) -> Seq<InstrV> {
    let icv = spec_indent_value(w, text, name_start, value_start);
    let base = spec_wrap_from(
        tokens_of(node_text),
        0,
        spec_column_number(text, value_start),
        w.option.allow_line_overflow,
        w.jsxexpression,
        w.option.line_width_includes_indent,
        w.option.line_width as int,
        icv,
        spec_break_indent_of(w, icv),
    );
    if w.option.indent_to_quote {
        base
    } else {
        spec_add_indent(base, spec_block_indent(w, icv))
    }
}

/// The traversal context a wrapper must satisfy with respect to the text it
/// formats against: positions recorded earlier lie inside the text.
pub open spec fn wrapper_pre_wf(w: TailwindWrapper, text: Seq<u8>) -> bool {
    &&& w.pre_indent_count as int <= text.len()
    &&& w.pre_jsx_element_line as int <= text.len()
}

impl TailwindWrapper {
    pub fn new(option: TailwindWrapperOption) -> (r: Self)
        ensures
            r.option == option,
            r.pre_jsx_element_line == 0u32,
            r.pre_indent_count == 0u32,
            r.jsxexpression == false,
    {
        Self { option, pre_jsx_element_line: 0, pre_indent_count: 0, jsxexpression: false }
    }

    pub fn set_pre_jsx_element_line(&mut self, source_text: &[u8], node_span_start: usize)
        requires
            node_span_start <= source_text@.len(),
            source_text@.len() <= u32::MAX,
        ensures
            *final(self) == (TailwindWrapper {
                pre_jsx_element_line: (spec_line_number(
                    source_text@,
                    node_span_start as int,
                ) as u32),
                ..*old(self)
            }),
    {
        self.pre_jsx_element_line = get_line_number(source_text, node_span_start);
    }

    pub fn set_pre_indent_count(&mut self, source_text: &[u8], node_span_start: usize)
        requires
            node_span_start <= source_text@.len(),
            source_text@.len() <= u32::MAX,
        ensures
            *final(self) == (TailwindWrapper {
                pre_indent_count: (spec_column_number(
                    source_text@,
                    node_span_start as int,
                ) as u32),
                ..*old(self)
            }),
    {
        self.pre_indent_count = get_column_number(source_text, node_span_start);
    }

    pub fn enter_jsxexpression(&mut self)
        ensures
            *final(self) == (TailwindWrapper { jsxexpression: true, ..*old(self) }),
    {
        self.jsxexpression = true;
    }

    pub fn leave_jsxexpression(&mut self)
        ensures
            *final(self) == (TailwindWrapper { jsxexpression: false, ..*old(self) }),
    {
        self.jsxexpression = false;
    }

    /// Chooses the indentation for one value's continuation lines.
    pub fn parse_indent(
        &self,
        source_text: &[u8],
        attr_name_span_start: usize,
        attr_value_span_start: usize,
    ) -> (r: IndentCount)
        requires
            attr_name_span_start <= source_text@.len(),
            attr_value_span_start <= source_text@.len(),
            source_text@.len() + 256 <= u32::MAX,
            wrapper_pre_wf(*self, source_text@),
        ensures
            r.spec_value() == spec_indent_value(
                *self,
                source_text@,
                attr_name_span_start as int,
                attr_value_span_start as int,
            ),
            r is IndentToQuote <==> self.option.indent_to_quote,
    {
        proof {
            crate::position::lemma_line_start_bounds(source_text@, attr_value_span_start as int);
            crate::position::lemma_line_start_bounds(source_text@, attr_name_span_start as int);
            crate::position::lemma_line_number_bounds(source_text@, attr_value_span_start as int);
        }
        if self.option.indent_to_quote {
            IndentCount::IndentToQuote(get_column_number(source_text, attr_value_span_start))
        } else {
            let line = get_line_number(source_text, attr_value_span_start);
            let indent_count = if line == self.pre_jsx_element_line {
                self.pre_indent_count + (self.option.indent_width as u32)
            } else {
                get_column_number(source_text, attr_name_span_start)
                    + (self.option.indent_width as u32)
            };
            IndentCount::IndentToPre(indent_count)
        }
    }

    /// Lays out the tokens of one value, emitting text, separating spaces and
    /// composed breaks in order.
    #[verifier::rlimit(100)]
    pub fn wrap_text(
        &self,
        node_text: &[u8],
        indent_count: &IndentCount,
        first_line_column: u32,
    ) -> (r: Vec<Instruction>)
        requires
            node_text@.len() + 256 <= u32::MAX,
            tokens_of(node_text@).len() > 0,
            self.option.line_width_includes_indent ==> indent_count.spec_value()
                <= self.option.line_width as int,
        ensures
            r.deep_view() == spec_wrap_from(
                tokens_of(node_text@),
                0,
                first_line_column as int,
                self.option.allow_line_overflow,
                self.jsxexpression,
                self.option.line_width_includes_indent,
                self.option.line_width as int,
                indent_count.spec_value(),
                (match indent_count {
                    IndentCount::IndentToQuote(column) => *column as int,
                    IndentCount::IndentToPre(_) => 0int,
                }),
        ),
    {
        let ghost tseq = tokens_of(node_text@);
        let ghost allow = self.option.allow_line_overflow;
        let ghost jsx = self.jsxexpression;
        let ghost flag = self.option.line_width_includes_indent;
        let ghost lw = self.option.line_width as int;
        let ghost icv = indent_count.spec_value();
        let ghost bind: int = match indent_count {
            IndentCount::IndentToQuote(column) => *column as int,
            IndentCount::IndentToPre(_) => 0int,
        };

        let toks = tokenize(node_text);
        let mut items: Vec<Instruction> = Vec::new();
        let mut current_width: u32 = first_line_column;
        let last_index = toks.len() - 1;
        let mut i: usize = 0;
        while i < toks.len()
            invariant
                tseq == tokens_of(node_text@),
                icv == indent_count.spec_value(),
                bind == (match indent_count {
                    IndentCount::IndentToQuote(column) => *column as int,
                    IndentCount::IndentToPre(_) => 0int,
                }),
                toks.deep_view() == tseq,
                toks@.len() == tseq.len(),
                forall|k: int| 0 <= k < toks@.len() ==> (#[trigger] toks@[k])@.len()
                    <= node_text@.len(),
                node_text@.len() + 256 <= u32::MAX,
                flag ==> icv <= lw,
                lw == self.option.line_width as int,
                allow == self.option.allow_line_overflow,
                jsx == self.jsxexpression,
                flag == self.option.line_width_includes_indent,
                0 <= bind <= u32::MAX,
                last_index == toks@.len() - 1,
                i <= toks@.len(),
                items.deep_view() + spec_wrap_from(
                    tseq,
                    i as int,
                    current_width as int,
                    allow,
                    jsx,
                    flag,
                    lw,
                    icv,
                    bind,
                ) == spec_wrap_from(tseq, 0, first_line_column as int, allow, jsx, flag, lw, icv, bind),
            decreases toks@.len() - i,
        {
            let ghost items_before = items.deep_view();
            let ghost cw0 = current_width as int;
            let t = &toks[i];
            proof {
                assert(toks@[i as int].deep_view() == tseq[i as int]);
                assert(t.deep_view() =~= t@);
            }
            let w: usize = char_width(t.as_slice());
            let next64: u64 = current_width as u64 + w as u64 + 1;
            let limit64: u64 = if self.option.line_width_includes_indent {
                (self.option.line_width - indent_count.value()) as u64
            } else {
                self.option.line_width as u64
            };
            let exceeds = next64 > limit64;
            let ghost wg = char_count(tseq[i as int]);
            proof {
                assert(wg == w as int);
                assert(exceeds == (cw0 + wg + 1 > spec_limit(lw, flag, icv)));
            }
            if exceeds && self.option.allow_line_overflow {
                if current_width > 0 {
                    items.push(Instruction::Space);
                }
                items.push(Instruction::Text(vstd::slice::slice_to_vec(t.as_slice())));
                current_width = 0;
                if i < last_index {
                    items.push(self.break_instruction(indent_count));
                }
                proof {
                    let emitted = (if cw0 > 0 {
                        seq![InstrV::Space]
                    } else {
                        Seq::<InstrV>::empty()
                    }) + seq![InstrV::Text(tseq[i as int])] + (if i + 1 < tseq.len() {
                        seq![spec_break(jsx, bind)]
                    } else {
                        Seq::<InstrV>::empty()
                    });
                    assert(items.deep_view() =~~= items_before + emitted);
                    assert(spec_wrap_from(tseq, i as int, cw0, allow, jsx, flag, lw, icv, bind)
                        =~~= emitted + spec_wrap_from(tseq, i + 1, 0, allow, jsx, flag, lw, icv, bind));
                    assert(items.deep_view() + spec_wrap_from(
                        tseq,
                        i + 1,
                        0,
                        allow,
                        jsx,
                        flag,
                        lw,
                        icv,
                        bind,
                    ) =~~= spec_wrap_from(tseq, 0, first_line_column as int, allow, jsx, flag, lw, icv, bind));
                }
            } else if exceeds {
                items.push(self.break_instruction(indent_count));
                items.push(Instruction::Text(vstd::slice::slice_to_vec(t.as_slice())));
                current_width = w as u32;
                proof {
                    let emitted = seq![spec_break(jsx, bind), InstrV::Text(tseq[i as int])];
                    assert(items.deep_view() =~~= items_before + emitted);
                    assert(spec_wrap_from(tseq, i as int, cw0, allow, jsx, flag, lw, icv, bind)
                        =~~= emitted + spec_wrap_from(tseq, i + 1, wg, allow, jsx, flag, lw, icv, bind));
                    assert(items.deep_view() + spec_wrap_from(
                        tseq,
                        i + 1,
                        wg,
                        allow,
                        jsx,
                        flag,
                        lw,
                        icv,
                        bind,
                    ) =~~= spec_wrap_from(tseq, 0, first_line_column as int, allow, jsx, flag, lw, icv, bind));
                }
            } else {
                if i > 0 {
                    items.push(Instruction::Space);
                }
                items.push(Instruction::Text(vstd::slice::slice_to_vec(t.as_slice())));
                proof {
                    assert(next64 <= limit64);
                    assert(next64 <= u32::MAX as u64);
                }
                current_width = next64 as u32;
                proof {
                    let emitted = (if i > 0 {
                        seq![InstrV::Space]
                    } else {
                        Seq::<InstrV>::empty()
                    }) + seq![InstrV::Text(tseq[i as int])];
                    assert(items.deep_view() =~~= items_before + emitted);
                    assert(spec_wrap_from(tseq, i as int, cw0, allow, jsx, flag, lw, icv, bind)
                        =~~= emitted + spec_wrap_from(
                            tseq,
                            i + 1,
                            cw0 + wg + 1,
                            allow,
                            jsx,
                            flag,
                            lw,
                            icv,
                            bind,
                        ));
                    assert(items.deep_view() + spec_wrap_from(
                        tseq,
                        i + 1,
                        cw0 + wg + 1,
                        allow,
                        jsx,
                        flag,
                        lw,
                        icv,
                        bind,
                    ) =~~= spec_wrap_from(tseq, 0, first_line_column as int, allow, jsx, flag, lw, icv, bind));
                }
            }
            i = i + 1;
        }
        proof {
            assert(spec_wrap_from(tseq, tseq.len() as int, current_width as int, allow, jsx, flag, lw, icv, bind)
                =~= Seq::<InstrV>::empty());
            assert(items.deep_view() =~~= spec_wrap_from(
                tseq,
                0,
                first_line_column as int,
                allow,
                jsx,
                flag,
                lw,
                icv,
                bind,
            ));
        }
        items
    }

    /// The composed break this wrapper emits: a continuation marker inside an
    /// expression container, a hard line break, and the quote column's run of
    /// spaces in indent-to-quote mode.
    fn break_instruction(&self, indent_count: &IndentCount) -> (r: Instruction)
        ensures
            r@ == spec_break(
                self.jsxexpression,
                (match indent_count {
                    IndentCount::IndentToQuote(column) => *column as int,
                    IndentCount::IndentToPre(_) => 0int,
                }),
            ),
    {
        match indent_count {
            IndentCount::IndentToQuote(column) => Instruction::Break {
                marker: self.jsxexpression,
                indent: *column,
            },
            IndentCount::IndentToPre(_) => Instruction::Break {
                marker: self.jsxexpression,
                indent: 0,
            },
        }
    }

    /// Formats one attribute value: chooses the indentation, lays the tokens
    /// out, and, in indent-to-context mode, applies the block indentation
    /// once over the whole produced block.
    pub fn format(
        &self,
        node_text: &[u8],
        source_text: &[u8],
        attr_name_span_start: usize,
        attr_value_span_start: usize,
    ) -> (r: Vec<Instruction>)
        requires
            attr_name_span_start <= source_text@.len(),
            attr_value_span_start <= source_text@.len(),
            source_text@.len() + 256 <= u32::MAX,
            node_text@.len() + 256 <= u32::MAX,
            wrapper_pre_wf(*self, source_text@),
            self.option.indent_width > 0,
            tokens_of(node_text@).len() > 0,
            self.option.line_width_includes_indent ==> spec_indent_value(
                *self,
                source_text@,
                attr_name_span_start as int,
                attr_value_span_start as int,
            ) <= self.option.line_width as int,
        ensures
            r.deep_view() == spec_format(
                *self,
                node_text@,
                source_text@,
                attr_name_span_start as int,
                attr_value_span_start as int,
            ),
    {
        let indent_count = self.parse_indent(
            source_text,
            attr_name_span_start,
            attr_value_span_start,
        );
        let first_line_column = get_column_number(source_text, attr_value_span_start);
        proof {
            crate::position::lemma_line_start_bounds(source_text@, attr_value_span_start as int);
        }
        let wrapped_items = self.wrap_text(node_text, &indent_count, first_line_column);

        if self.option.indent_to_quote {
            return wrapped_items;
        }

        let level = indent_count.level(self.option.indent_width);
        proof {
            let icv = indent_count.spec_value();
            let iw = self.option.indent_width as int;
            vstd::arithmetic::div_mod::lemma_fundamental_div_mod(icv, iw);
            vstd::arithmetic::div_mod::lemma_mod_bound(icv, iw);
            vstd::arithmetic::div_mod::lemma_div_pos_is_pos(icv, iw);
            assert(level as int * iw == spec_block_indent(*self, icv));
            assert(level as int * iw == iw * (icv / iw)) by (nonlinear_arith)
                requires
                    level as int == icv / iw,
            ;
            assert(0 <= level as int * iw <= icv);
        }
        let extra = level * (self.option.indent_width as u32);
        let ghost base = wrapped_items.deep_view();
        let ghost extra_g = extra as int;
        proof {
            lemma_wrap_break_indents(
                tokens_of(node_text@),
                0,
                first_line_column as int,
                self.option.allow_line_overflow,
                self.jsxexpression,
                self.option.line_width_includes_indent,
                self.option.line_width as int,
                indent_count.spec_value(),
                0,
            );
        }
        let mut out: Vec<Instruction> = Vec::new();
        let mut i: usize = 0;
        while i < wrapped_items.len()
            invariant
                wrapped_items.deep_view() == base,
                wrapped_items@.len() == base.len(),
                i <= base.len(),
                extra_g == extra as int,
                out.deep_view() == spec_add_indent(base.take(i as int), extra_g),
                forall|k: int|
                    0 <= k < base.len() ==> (crate::instructions::instr_is_break(
                        #[trigger] base[k],
                    ) ==> crate::instructions::instr_break_indent(base[k]) + extra_g
                        <= u32::MAX),
            decreases base.len() - i,
        {
            proof {
                assert(wrapped_items@[i as int].deep_view() == base[i as int]);
            }
            match &wrapped_items[i] {
                Instruction::Text(t) => {
                    out.push(Instruction::Text(vstd::slice::slice_to_vec(t.as_slice())));
                },
                Instruction::Space => {
                    out.push(Instruction::Space);
                },
                Instruction::Break { marker, indent } => {
                    out.push(Instruction::Break { marker: *marker, indent: *indent + extra });
                },
            }
            proof {
                assert(base.take(i + 1) =~= base.take(i as int).push(base[i as int]));
                assert(spec_add_indent(base.take(i + 1), extra_g) =~~= spec_add_indent(
                    base.take(i as int),
                    extra_g,
                ).push(
                    (match base[i as int] {
                        InstrV::Break { marker, indent } => InstrV::Break {
                            marker,
                            indent: indent + extra_g,
                        },
                        other => other,
                    }),
                ));
                assert(out.deep_view() =~~= spec_add_indent(base.take(i + 1), extra_g));
            }
            i = i + 1;
        }
        proof {
            assert(base.take(base.len() as int) =~= base);
            assert(out.deep_view() =~~= spec_format(
                *self,
                node_text@,
                source_text@,
                attr_name_span_start as int,
                attr_value_span_start as int,
            ));
        }
        out
    }
}

} // verus!
