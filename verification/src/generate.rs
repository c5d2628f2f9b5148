//! The format entry point: wires a parsed tree into the traversal driver and
//! returns the completed instruction stream, or the rendered text.

use vstd::prelude::*;

use crate::configuration::Configuration;
use crate::instructions::{render, render_of, tokens_of, InstrV, Instruction};
use crate::position::{lemma_line_number_bounds, lemma_line_start_bounds, spec_column_number,
    spec_line_number};
use crate::tw_visitor::{collect_sites, spec_walk_nodes, JsxNode, Site};
use crate::tw_wrapper::{spec_format, spec_indent_value, TailwindWrapper, TailwindWrapperOption};

verus! {

/// How a format call fails.
#[derive(Clone, Copy, Debug, PartialEq, Eq, Structural)]
pub enum FormatError {
    /// A span of the tree falls outside the bounds of the source text, or
    /// overlaps a span already consumed: an internal-invariant violation,
    /// reported rather than ignored.
    InvalidSpan,
}

/// The wrapping engine that a configuration asks for, in its initial state.
pub open spec fn spec_wrapper_of(config: Configuration) -> TailwindWrapper {
    TailwindWrapper {
        option: TailwindWrapperOption {
            allow_line_overflow: config.allow_line_overflow,
            indent_to_quote: config.indent_to_quote,
            indent_width: config.indent_width,
            line_width_includes_indent: config.line_width_includes_indent,
            line_width: config.line_width,
        },
        pre_jsx_element_line: 0u32,
        pre_indent_count: 0u32,
        jsxexpression: false,
    }
}

/// The wrapper state in force when one site is formatted: the positional
/// context of the site's preceding element, and the expression flag of the
/// site's shape.
pub open spec fn wrapper_at(w: TailwindWrapper, text: Seq<u8>, s: Site) -> TailwindWrapper {
    TailwindWrapper {
        pre_jsx_element_line: spec_line_number(text, s.elem_start as int) as u32,
        pre_indent_count: spec_column_number(text, s.elem_start as int) as u32,
        jsxexpression: s.in_expression,
        ..w
    }
}

/// A site's spans lie inside the text and past everything already consumed.
pub open spec fn site_wf(s: Site, cursor: int, len: int) -> bool {
    &&& cursor <= s.value_start as int
    &&& s.value_start <= s.value_end
    &&& s.value_end as int <= len
    &&& s.name_start as int <= len
    &&& s.elem_start as int <= len
}

/// All sites from `j` on are well formed, with the cursor advancing past each
/// value in turn.
pub open spec fn sites_wf_from(sites: Seq<Site>, j: int, cursor: int, len: int) -> bool
    decreases sites.len() - j,
{
    if j < 0 || j >= sites.len() {
        true
    } else {
        site_wf(sites[j], cursor, len) && sites_wf_from(
            sites,
            j + 1,
            sites[j].value_end as int,
            len,
        )
    }
}

/// What the wrapping engine asks of one site: the value holds at least one
/// token (a quoted value always does), and, when the line width is measured
/// inclusive of indent, the derived indent stays within the line width.
pub open spec fn site_formattable(s: Site, text: Seq<u8>, w: TailwindWrapper) -> bool {
    &&& tokens_of(text.subrange(s.value_start as int, s.value_end as int)).len() > 0
    &&& (w.option.line_width_includes_indent ==> spec_indent_value(
        wrapper_at(w, text, s),
        text,
        s.name_start as int,
        s.value_start as int,
    ) <= w.option.line_width as int)
}

pub open spec fn sites_formattable(sites: Seq<Site>, text: Seq<u8>, w: TailwindWrapper) -> bool {
    forall|j: int| 0 <= j < sites.len() ==> site_formattable(#[trigger] sites[j], text, w)
}

/// The instruction stream of one whole format call, from site `j` on: the
/// pass-through text up to each site, the wrapping engine's output for the
/// site, and finally the pass-through text to the end of the document.
pub open spec fn spec_emit(
    sites: Seq<Site>,
    j: int,
    cursor: int,
    text: Seq<u8>,
    w: TailwindWrapper,
) -> Seq<InstrV>
    decreases sites.len() - j,
{
    if j < 0 || j >= sites.len() {
        seq![InstrV::Text(text.subrange(cursor, text.len() as int))]
    } else {
        let s = sites[j];
        seq![InstrV::Text(text.subrange(cursor, s.value_start as int))] + spec_format(
            wrapper_at(w, text, s),
            text.subrange(s.value_start as int, s.value_end as int),
            text,
            s.name_start as int,
            s.value_start as int,
        ) + spec_emit(sites, j + 1, s.value_end as int, text, w)
    }
}

/// The traversal driver: owns the instruction stream under construction, the
/// cursor, and the optional wrapping engine (absent when wrapping is
/// disabled) and reserved sorting hook (always absent).
pub struct TailwindVisitor {
    pub print_items: Vec<Instruction>,
    pub wrapper: Option<TailwindWrapper>,
    pub sorter: Option<()>,
    pub last_offset: usize,
}

impl TailwindVisitor {
    pub fn new() -> (r: Self)
        ensures
            r.print_items@.len() == 0,
            r.wrapper is None,
            r.sorter is None,
            r.last_offset == 0,
    {
        Self { print_items: Vec::new(), wrapper: None, sorter: None, last_offset: 0 }
    }

    pub fn with_sorter(self, sorter: Option<()>) -> (r: Self)
        ensures
            r == (TailwindVisitor { sorter, ..self }),
    {
        TailwindVisitor { sorter, ..self }
    }

    pub fn with_wrapper(self, wrapper: Option<TailwindWrapper>) -> (r: Self)
        ensures
            r == (TailwindVisitor { wrapper, ..self }),
    {
        TailwindVisitor { wrapper, ..self }
    }

    pub fn print_items(self) -> (r: Vec<Instruction>)
        ensures
            r == self.print_items,
    {
        self.print_items
    }

    /// Visits the whole tree: copies pass-through text, formats each
    /// recognized `class` value, and copies the remaining text. With no
    /// wrapping engine the source passes through unchanged as a single
    /// chunk. Fails, producing no guarantees on the partial stream, when a
    /// site's spans fall outside the text or overlap.
    #[verifier::rlimit(100)]
    pub fn visit_program(&mut self, tree: &Vec<JsxNode>, source_text: &[u8]) -> (r: Result<
        (),
        FormatError,
    >)
        requires
            old(self).last_offset == 0,
            old(self).print_items@.len() == 0,
            source_text@.len() + 256 <= u32::MAX,
            (match old(self).wrapper {
                Some(w) => w.option.indent_width > 0 && w.jsxexpression == false
                    && sites_formattable(spec_walk_nodes(tree@, 0, 0).sites, source_text@, w),
                None => true,
            }),
        ensures
            (match old(self).wrapper {
                None => r is Ok && final(self).print_items.deep_view() == seq![
                    InstrV::Text(source_text@),
                ],
                Some(w) => {
                    let sites = spec_walk_nodes(tree@, 0, 0).sites;
                    &&& (r is Ok <==> sites_wf_from(sites, 0, 0, source_text@.len() as int))
                    &&& (r is Ok ==> final(self).print_items.deep_view() == spec_emit(
                        sites,
                        0,
                        0,
                        source_text@,
                        w,
                    ))
                },
            }),
    {
        let ghost len = source_text@.len() as int;
        let ghost sitesg = spec_walk_nodes(tree@, 0, 0).sites;
        let sites = collect_sites(tree);
        let wopt = self.wrapper;
        match wopt {
            None => {
                self.print_items.push(
                    Instruction::Text(vstd::slice::slice_to_vec(source_text)),
                );
                proof {
                    assert(self.print_items.deep_view() =~~= seq![InstrV::Text(source_text@)]);
                }
                Ok(())
            },
            Some(w_init) => {
                let ghost w0 = w_init;
                let mut w = w_init;
                let mut cursor: usize = 0;
                let mut j: usize = 0;
                while j < sites.len()
                    invariant
                        sitesg == spec_walk_nodes(tree@, 0, 0).sites,
                        sites@ == sitesg,
                        len == source_text@.len() as int,
                        source_text@.len() + 256 <= u32::MAX,
                        j <= sites@.len(),
                        cursor <= source_text@.len(),
                        w.option == w0.option,
                        w.jsxexpression == false,
                        w0.option.indent_width > 0,
                        sites_formattable(sitesg, source_text@, w0),
                        self.print_items.deep_view() + spec_emit(
                            sitesg,
                            j as int,
                            cursor as int,
                            source_text@,
                            w0,
                        ) == spec_emit(sitesg, 0, 0, source_text@, w0),
                        sites_wf_from(sitesg, 0, 0, len) == sites_wf_from(
                            sitesg,
                            j as int,
                            cursor as int,
                            len,
                        ),
                        self.wrapper == old(self).wrapper,
                        old(self).wrapper == Some(w0),
                        self.sorter == old(self).sorter,
                    decreases sites@.len() - j,
                {
                    let s = sites[j];
                    if !(cursor <= s.value_start && s.value_start <= s.value_end && s.value_end
                        <= source_text.len() && s.name_start <= source_text.len() && s.elem_start
                        <= source_text.len()) {
                        proof {
                            assert(!site_wf(sitesg[j as int], cursor as int, len));
                            assert(!sites_wf_from(sitesg, j as int, cursor as int, len));
                        }
                        return Err(FormatError::InvalidSpan);
                    }
                    let ghost items_before = self.print_items.deep_view();
                    let ghost cursor0 = cursor as int;
                    let pre = vstd::slice::slice_subrange(source_text, cursor, s.value_start);
                    self.print_items.push(Instruction::Text(vstd::slice::slice_to_vec(pre)));
                    w.set_pre_jsx_element_line(source_text, s.elem_start);
                    w.set_pre_indent_count(source_text, s.elem_start);
                    if s.in_expression {
                        w.enter_jsxexpression();
                    }
                    proof {
                        lemma_line_number_bounds(source_text@, s.elem_start as int);
                        lemma_line_start_bounds(source_text@, s.elem_start as int);
                        assert(w == wrapper_at(w0, source_text@, sitesg[j as int]));
                        assert(crate::tw_wrapper::wrapper_pre_wf(w, source_text@));
                        assert(site_formattable(sitesg[j as int], source_text@, w0));
                    }
                    let node_text = vstd::slice::slice_subrange(
                        source_text,
                        s.value_start,
                        s.value_end,
                    );
                    let mut formatted = w.format(node_text, source_text, s.name_start, s.value_start);
                    self.print_items.append(&mut formatted);
                    if s.in_expression {
                        w.leave_jsxexpression();
                    }
                    cursor = s.value_end;
                    proof {
                        let sv = sitesg[j as int];
                        let fmt = spec_format(
                            wrapper_at(w0, source_text@, sv),
                            source_text@.subrange(sv.value_start as int, sv.value_end as int),
                            source_text@,
                            sv.name_start as int,
                            sv.value_start as int,
                        );
                        assert(self.print_items.deep_view() =~~= items_before + (seq![
                            InstrV::Text(source_text@.subrange(cursor0, sv.value_start as int)),
                        ] + fmt));
                        assert(spec_emit(sitesg, j as int, cursor0, source_text@, w0) =~~= (seq![
                            InstrV::Text(source_text@.subrange(cursor0, sv.value_start as int)),
                        ] + fmt) + spec_emit(sitesg, j + 1, sv.value_end as int, source_text@, w0));
                        assert(self.print_items.deep_view() + spec_emit(
                            sitesg,
                            j + 1,
                            sv.value_end as int,
                            source_text@,
                            w0,
                        ) =~~= spec_emit(sitesg, 0, 0, source_text@, w0));
                    }
                    j = j + 1;
                }
                let ghost items_before = self.print_items.deep_view();
                let post = vstd::slice::slice_subrange(source_text, cursor, source_text.len());
                self.print_items.push(Instruction::Text(vstd::slice::slice_to_vec(post)));
                self.last_offset = source_text.len();
                self.wrapper = Some(w);
                proof {
                    assert(spec_emit(sitesg, sitesg.len() as int, cursor as int, source_text@, w0)
                        =~~= seq![InstrV::Text(source_text@.subrange(cursor as int, len))]);
                    assert(self.print_items.deep_view() =~~= items_before + seq![
                        InstrV::Text(source_text@.subrange(cursor as int, len)),
                    ]);
                    assert(self.print_items.deep_view() =~~= spec_emit(
                        sitesg,
                        0,
                        0,
                        source_text@,
                        w0,
                    ));
                }
                Ok(())
            },
        }
    }
}

/// Builds the traversal driver for one configuration and runs it over the
/// tree, returning the completed instruction stream. With wrapping disabled
/// the whole source passes through as one chunk, untransformed.
pub fn generate(tree: &Vec<JsxNode>, source_text: &[u8], config: &Configuration) -> (r: Result<
    Vec<Instruction>,
    FormatError,
>)
    requires
        source_text@.len() + 256 <= u32::MAX,
        config.enable_wrap ==> config.indent_width > 0,
        config.enable_wrap ==> sites_formattable(
            spec_walk_nodes(tree@, 0, 0).sites,
            source_text@,
            spec_wrapper_of(*config),
        ),
    ensures
        (if config.enable_wrap {
            let sites = spec_walk_nodes(tree@, 0, 0).sites;
            &&& (r is Ok <==> sites_wf_from(sites, 0, 0, source_text@.len() as int))
            &&& (r is Ok ==> r->Ok_0.deep_view() == spec_emit(
                sites,
                0,
                0,
                source_text@,
                spec_wrapper_of(*config),
            ))
            &&& (r is Err ==> r->Err_0 == FormatError::InvalidSpan)
        } else {
            r is Ok && r->Ok_0.deep_view() == seq![InstrV::Text(source_text@)]
        }),
{
    let mut visitor = TailwindVisitor::new().with_sorter(None).with_wrapper(
        if config.enable_wrap {
            Some(
                TailwindWrapper::new(
                    TailwindWrapperOption {
                        allow_line_overflow: config.allow_line_overflow,
                        indent_to_quote: config.indent_to_quote,
                        indent_width: config.indent_width,
                        line_width_includes_indent: config.line_width_includes_indent,
                        line_width: config.line_width,
                    },
                ),
            )
        } else {
            None
        },
    );
    match visitor.visit_program(tree, source_text) {
        Ok(()) => Ok(visitor.print_items()),
        Err(e) => Err(e),
    }
}

fn bytes_eq(a: &Vec<u8>, b: &[u8]) -> (r: bool)
    ensures
        r == (a@ == b@),
{
    if a.len() != b.len() {
        return false;
    }
    let mut i: usize = 0;
    while i < a.len()
        invariant
            i <= a@.len(),
            a@.len() == b@.len(),
            forall|k: int| 0 <= k < i ==> a@[k] == b@[k],
        decreases a@.len() - i,
    {
        if a[i] != b[i] {
            return false;
        }
        i = i + 1;
    }
    proof {
        assert(a@ =~= b@);
    }
    true
}

/// Formats one document: runs the traversal, renders the instruction stream,
/// and returns the produced text — or no text at all when the output would be
/// identical to the input, signaling callers that no rewrite is needed.
pub fn format_text(tree: &Vec<JsxNode>, source_text: &[u8], config: &Configuration) -> (r: Result<
    Option<Vec<u8>>,
    FormatError,
>)
    requires
        source_text@.len() + 256 <= u32::MAX,
        config.enable_wrap ==> config.indent_width > 0,
        config.enable_wrap ==> sites_formattable(
            spec_walk_nodes(tree@, 0, 0).sites,
            source_text@,
            spec_wrapper_of(*config),
        ),
    ensures
        (if config.enable_wrap {
            let sites = spec_walk_nodes(tree@, 0, 0).sites;
            let out = render_of(spec_emit(sites, 0, 0, source_text@, spec_wrapper_of(*config)));
            &&& (r is Ok <==> sites_wf_from(sites, 0, 0, source_text@.len() as int))
            &&& (r is Ok ==> (match r->Ok_0 {
                Some(t) => t@ == out && out != source_text@,
                None => out == source_text@,
            }))
            &&& (r is Err ==> r->Err_0 == FormatError::InvalidSpan)
        } else {
            r is Ok && r->Ok_0 is None
        }),
{
    match generate(tree, source_text, config) {
        Ok(items) => {
            let out = render(&items);
            proof {
                if !config.enable_wrap {
                    let single = seq![InstrV::Text(source_text@)];
                    assert(single.drop_first() =~= Seq::<InstrV>::empty());
                    assert(render_of(single.drop_first()) =~= Seq::<u8>::empty());
                    assert(render_of(single) == crate::instructions::render_one(single[0])
                        + render_of(single.drop_first()));
                    assert(single[0] == InstrV::Text(source_text@));
                    assert(render_of(single) =~= source_text@);
                }
            }
            if bytes_eq(&out, source_text) {
                Ok(None)
            } else {
                Ok(Some(out))
            }
        },
        Err(e) => Err(e),
    }
}

} // verus!
