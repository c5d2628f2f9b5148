//! The instruction stream: the ordered sequence of primitive output
//! operations that one format call produces and a renderer consumes.
//!
//! Concatenating the rendered instructions reconstructs the whole document,
//! verbatim outside reformatted attribute values.

use vstd::prelude::*;

verus! {

/// Mathematical model of one instruction.
pub enum InstrV {
    /// A literal chunk of text, emitted byte for byte.
    Text(Seq<u8>),
    /// One explicit separating space.
    Space,
    /// A composed line break: an optional continuation marker (a space and a
    /// backslash), a hard line break, then a run of `indent` spaces.
    Break { marker: bool, indent: int },
}

/// One primitive output instruction.
pub enum Instruction {
    /// A literal chunk of text, emitted byte for byte.
    Text(Vec<u8>),
    /// One explicit separating space.
    Space,
    /// A composed line break: an optional continuation marker (a space and a
    /// backslash), a hard line break, then a run of `indent` spaces.
    Break { marker: bool, indent: u32 },
}

impl View for Instruction {
    type V = InstrV;

    open spec fn view(&self) -> InstrV {
        match self {
            Instruction::Text(t) => InstrV::Text(t@),
            Instruction::Space => InstrV::Space,
            Instruction::Break { marker, indent } => InstrV::Break {
                marker: *marker,
                indent: *indent as int,
            },
        }
    }
}

impl DeepView for Instruction {
    type V = InstrV;

    open spec fn deep_view(&self) -> InstrV {
        self@
    }
}

/// Whether an instruction is a composed line break.
pub open spec fn instr_is_break(it: InstrV) -> bool {
    match it {
        InstrV::Break { .. } => true,
        _ => false,
    }
}

/// The indent run of a break instruction.
pub open spec fn instr_break_indent(it: InstrV) -> int {
    match it {
        InstrV::Break { marker, indent } => indent,
        _ => 0,
    }
}

/// The continuation-marker flag of a break instruction.
pub open spec fn instr_break_marker(it: InstrV) -> bool {
    match it {
        InstrV::Break { marker, indent } => marker,
        _ => false,
    }
}

/// Whether an instruction is a literal text chunk.
pub open spec fn instr_is_text(it: InstrV) -> bool {
    match it {
        InstrV::Text(_) => true,
        _ => false,
    }
}

/// Whitespace as token delimiters: space, tab, line feed, vertical tab,
/// form feed, carriage return.
pub open spec fn is_ws(b: u8) -> bool {
    b == 32 || b == 9 || b == 10 || b == 11 || b == 12 || b == 13
}

pub fn is_ws_byte(b: u8) -> (r: bool)
    ensures
        r == is_ws(b),
{
    b == 32 || b == 9 || b == 10 || b == 11 || b == 12 || b == 13
}

/// A UTF-8 continuation byte starts a new character in no encoding position.
pub open spec fn is_cont_byte(b: u8) -> bool {
    b & 0xC0u8 == 0x80u8
}

/// Number of characters a byte sequence encodes: its non-continuation bytes.
pub open spec fn char_count(s: Seq<u8>) -> int
    decreases s.len(),
{
    if s.len() == 0 {
        0
    } else {
        char_count(s.drop_last()) + if is_cont_byte(s.last()) {
            0int
        } else {
            1int
        }
    }
}

pub proof fn lemma_char_count_le_len(s: Seq<u8>)
    ensures
        0 <= char_count(s) <= s.len(),
    decreases s.len(),
{
    if s.len() > 0 {
        lemma_char_count_le_len(s.drop_last());
    }
}

/// Measured width of a token, in characters.
pub fn char_width(t: &[u8]) -> (r: usize)
    ensures
        r == char_count(t@),
        r <= t@.len(),
{
    let mut r: usize = 0;
    let mut i: usize = 0;
    while i < t.len()
        invariant
            i <= t@.len(),
            r == char_count(t@.take(i as int)),
            r <= i,
        decreases t@.len() - i,
    {
        let b = t[i];
        proof {
            assert(t@.take(i + 1).drop_last() =~= t@.take(i as int));
            assert(t@.take(i + 1).last() == t@[i as int]);
        }
        if (b & 0xC0u8) != 0x80u8 {
            r = r + 1;
        }
        i = i + 1;
    }
    proof {
        assert(t@.take(t@.len() as int) =~= t@);
    }
    r
}

/// The whitespace-delimited tokens of a byte sequence, in order.
pub open spec fn tokens_of(s: Seq<u8>) -> Seq<Seq<u8>>
    decreases s.len(),
{
    if s.len() == 0 {
        Seq::empty()
    } else {
        let rest = tokens_of(s.drop_last());
        let c = s[s.len() - 1];
        if is_ws(c) {
            rest
        } else if s.len() >= 2 && !is_ws(s[s.len() - 2]) {
            rest.update(rest.len() - 1, rest[rest.len() - 1].push(c))
        } else {
            rest.push(seq![c])
        }
    }
}

/// A well-formed token: nonempty, holding no whitespace byte.
pub open spec fn token_wf(t: Seq<u8>) -> bool {
    &&& t.len() > 0
    &&& forall|j: int| 0 <= j < t.len() ==> !is_ws(#[trigger] t[j])
}

/// A sequence that ends in a non-whitespace byte holds at least one token.
pub proof fn lemma_tokens_of_nonempty(s: Seq<u8>)
    requires
        s.len() > 0,
        !is_ws(s.last()),
    ensures
        tokens_of(s).len() > 0,
    decreases s.len(),
{
    if s.len() >= 2 && !is_ws(s[s.len() - 2]) {
        assert(s.drop_last().last() == s[s.len() - 2]);
        lemma_tokens_of_nonempty(s.drop_last());
    }
}

/// Every token of a byte sequence is nonempty and free of whitespace.
pub proof fn lemma_tokens_of_wf(s: Seq<u8>)
    ensures
        forall|k: int| 0 <= k < tokens_of(s).len() ==> token_wf(#[trigger] tokens_of(s)[k]),
    decreases s.len(),
{
    if s.len() > 0 {
        lemma_tokens_of_wf(s.drop_last());
        let rest = tokens_of(s.drop_last());
        let c = s[s.len() - 1];
        let out = tokens_of(s);
        if is_ws(c) {
        } else if s.len() >= 2 && !is_ws(s[s.len() - 2]) {
            assert(s.drop_last().last() == s[s.len() - 2]);
            lemma_tokens_of_nonempty(s.drop_last());
            let grown = rest[rest.len() - 1].push(c);
            assert(token_wf(rest[rest.len() - 1]));
            assert forall|j: int| 0 <= j < grown.len() implies !is_ws(#[trigger] grown[j]) by {
                if j < grown.len() - 1 {
                    assert(grown[j] == rest[rest.len() - 1][j]);
                }
            }
            assert forall|k: int| 0 <= k < out.len() implies token_wf(#[trigger] out[k]) by {
                if k == rest.len() - 1 {
                    assert(out[k] == grown);
                } else {
                    assert(out[k] == rest[k]);
                }
            }
        } else {
            assert(token_wf(seq![c]));
            assert forall|k: int| 0 <= k < out.len() implies token_wf(#[trigger] out[k]) by {
                if k == rest.len() {
                    assert(out[k] == seq![c]);
                } else {
                    assert(out[k] == rest[k]);
                }
            }
        }
    }
}

/// Splits a byte sequence into its whitespace-delimited tokens.
pub fn tokenize(text: &[u8]) -> (toks: Vec<Vec<u8>>)
    ensures
        toks.deep_view() == tokens_of(text@),
        forall|k: int| 0 <= k < toks@.len() ==> (#[trigger] toks@[k])@.len() <= text@.len(),
{
    let mut toks: Vec<Vec<u8>> = Vec::new();
    let mut i: usize = 0;
    let mut in_tok: bool = false;
    while i < text.len()
        invariant
            i <= text@.len(),
            toks.deep_view() == tokens_of(text@.take(i as int)),
            in_tok == (i > 0 && !is_ws(text@[i as int - 1])),
            in_tok ==> toks@.len() > 0,
            forall|k: int| 0 <= k < toks@.len() ==> (#[trigger] toks@[k])@.len() <= i,
        decreases text@.len() - i,
    {
        let b = text[i];
        proof {
            assert(text@.take(i + 1).drop_last() =~= text@.take(i as int));
            assert(text@.take(i + 1).last() == text@[i as int]);
            if i > 0 {
                assert(text@.take(i + 1)[i as int - 1] == text@[i as int - 1]);
            }
        }
        if is_ws_byte(b) {
            in_tok = false;
        } else if in_tok {
            let mut t = toks.pop().unwrap();
            t.push(b);
            toks.push(t);
            proof {
                assert(toks.deep_view() =~~= tokens_of(text@.take(i + 1)));
            }
        } else {
            let mut t: Vec<u8> = Vec::new();
            t.push(b);
            toks.push(t);
            in_tok = true;
            proof {
                assert(toks.deep_view() =~~= tokens_of(text@.take(i + 1)));
            }
        }
        i = i + 1;
    }
    proof {
        assert(text@.take(text@.len() as int) =~= text@);
    }
    toks
}

/// Rendering of one instruction into output bytes.
pub open spec fn render_one(it: InstrV) -> Seq<u8> {
    match it {
        InstrV::Text(t) => t,
        InstrV::Space => seq![32u8],
        InstrV::Break { marker, indent } => (if marker {
            seq![32u8, 92u8]
        } else {
            Seq::<u8>::empty()
        }) + seq![10u8] + Seq::new(indent as nat, |j: int| 32u8),
    }
}

/// Rendering of an instruction sequence: the concatenation of its
/// instructions' renderings, in order.
pub open spec fn render_of(items: Seq<InstrV>) -> Seq<u8>
    decreases items.len(),
{
    if items.len() == 0 {
        Seq::empty()
    } else {
        render_one(items[0]) + render_of(items.drop_first())
    }
}

pub proof fn lemma_render_app(a: Seq<InstrV>, b: Seq<InstrV>)
    ensures
        render_of(a + b) == render_of(a) + render_of(b),
    decreases a.len(),
{
    if a.len() == 0 {
        assert(a + b =~= b);
        assert(render_of(a) + render_of(b) =~= render_of(b));
    } else {
        assert((a + b).drop_first() =~= a.drop_first() + b);
        lemma_render_app(a.drop_first(), b);
        assert(render_of(a + b) =~= render_of(a) + render_of(b));
    }
}

pub proof fn lemma_render_single(it: InstrV)
    ensures
        render_of(seq![it]) == render_one(it),
{
    let single = seq![it];
    assert(single.drop_first() =~= Seq::<InstrV>::empty());
    assert(render_of(single.drop_first()) =~= Seq::<u8>::empty());
    assert(render_of(single) == render_one(single[0]) + render_of(single.drop_first()));
    assert(render_one(it) + Seq::<u8>::empty() =~= render_one(it));
}

pub proof fn lemma_render_one_more(s: Seq<InstrV>, i: int)
    requires
        0 <= i < s.len(),
    ensures
        render_of(s.take(i + 1)) == render_of(s.take(i)) + render_one(s[i]),
{
    assert(s.take(i + 1) =~= s.take(i) + seq![s[i]]);
    lemma_render_app(s.take(i), seq![s[i]]);
    let single = seq![s[i]];
    assert(single.drop_first() =~= Seq::<InstrV>::empty());
    assert(render_of(single.drop_first()) =~= Seq::<u8>::empty());
    assert(render_of(single) == render_one(single[0]) + render_of(single.drop_first()));
    assert(render_of(single) =~= render_one(s[i]));
}

/// Turns an instruction stream into final output bytes.
pub fn render(items: &Vec<Instruction>) -> (out: Vec<u8>)
    ensures
        out@ == render_of(items.deep_view()),
{
    let ghost dv = items.deep_view();
    let mut out: Vec<u8> = Vec::new();
    let mut i: usize = 0;
    while i < items.len()
        invariant
            dv == items.deep_view(),
            i <= items@.len(),
            dv.len() == items@.len(),
            out@ == render_of(dv.take(i as int)),
        decreases items@.len() - i,
    {
        proof {
            lemma_render_one_more(dv, i as int);
        }
        let ghost before = out@;
        match &items[i] {
            Instruction::Text(t) => {
                let mut j: usize = 0;
                while j < t.len()
                    invariant
                        j <= t@.len(),
                        out@ == before + t@.take(j as int),
                    decreases t@.len() - j,
                {
                    out.push(t[j]);
                    proof {
                        assert(before + t@.take(j + 1) =~= (before + t@.take(j as int)).push(
                            t@[j as int],
                        ));
                    }
                    j = j + 1;
                }
                proof {
                    assert(t@.take(t@.len() as int) =~= t@);
                }
            },
            Instruction::Space => {
                out.push(32u8);
                proof {
                    assert(before + render_one(dv[i as int]) =~= before.push(32u8));
                }
            },
            Instruction::Break { marker, indent } => {
                if *marker {
                    out.push(32u8);
                    out.push(92u8);
                }
                out.push(10u8);
                let ghost mid = out@;
                let n: u32 = *indent;
                let mut k: u32 = 0;
                while k < n
                    invariant
                        k <= n,
                        out@ == mid + Seq::new(k as nat, |j: int| 32u8),
                    decreases n - k,
                {
                    out.push(32u8);
                    proof {
                        assert(mid + Seq::new((k + 1) as nat, |j: int| 32u8) =~= (mid + Seq::new(
                            k as nat,
                            |j: int| 32u8,
                        )).push(32u8));
                    }
                    k = k + 1;
                }
                proof {
                    assert(out@ =~= before + render_one(dv[i as int]));
                }
            },
        }
        i = i + 1;
    }
    proof {
        assert(dv.take(dv.len() as int) =~= dv);
    }
    out
}

} // verus!
