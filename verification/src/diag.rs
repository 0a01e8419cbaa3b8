//! Diagnostics: the failure value the parser hands back, and its rendering.
//!
//! A syntax failure carries a trace of context frames, nearest production
//! first, each with the position where that production started. Rendering
//! turns the trace into one multi-line message with a line/column excerpt per
//! frame. An irrecoverable scan (a numeral whose exponent never gets its
//! digits) collapses to the fatal case, which renders as one fixed word.

use crate::textops::chars_to_string;
use crate::textops::push_str_chars;
use vstd::prelude::*;

verus! {

broadcast use vstd::std_specs::vec::group_vec_axioms;

/// The grammar production a context frame names.
#[derive(Debug, Clone, Copy, PartialEq, Eq, Structural)]
pub enum Ctx {
    Str,
    Escape,
    HexChar,
    Value,
    Array,
    Object,
}

/// One step of a failure trace: a production and the position, in characters,
/// where it started.
#[derive(Debug, Clone, Copy, PartialEq, Eq, Structural)]
pub struct Frame {
    pub ctx: Ctx,
    pub pos: usize,
}

/// Why a parse attempt failed: a located syntax error with its context trace,
/// or an irrecoverable scan.
#[derive(Debug, PartialEq)]
pub enum ParseError {
    Syntax(Vec<Frame>),
    Fatal,
}

/// The trace as the grammar specification states it: pairs of production and
/// position.
pub open spec fn frames_of(fs: Seq<Frame>) -> Seq<(Ctx, int)> {
    Seq::new(fs.len(), |i: int| (fs[i].ctx, fs[i].pos as int))
}

/// The character of one decimal digit.
pub open spec fn digit_char(d: int) -> char {
    ((48 + d) as u8) as char
}

/// A number written in decimal.
pub open spec fn dec_seq(n: int) -> Seq<char>
    decreases n,
{
    if n < 10 {
        seq![digit_char(n)]
    } else {
        dec_seq(n / 10).push(digit_char(n % 10))
    }
}

/// One more than the count of line feeds before `pos`: the 1-based line.
pub open spec fn line_no(s: Seq<char>, pos: int) -> int
    decreases pos,
{
    if pos <= 0 {
        1
    } else {
        line_no(s, pos - 1) + if s[pos - 1] == '\n' {
            1int
        } else {
            0int
        }
    }
}

/// Where the line holding `pos` starts: right after the previous line feed.
pub open spec fn line_start(s: Seq<char>, pos: int) -> int
    decreases pos,
{
    if pos <= 0 {
        0
    } else if s[pos - 1] == '\n' {
        pos
    } else {
        line_start(s, pos - 1)
    }
}

/// Where the line holding `pos` stops: at the next line feed, or at the end
/// of the input.
pub open spec fn line_stop(s: Seq<char>, pos: int) -> int
    decreases s.len() - pos,
{
    if 0 <= pos < s.len() && s[pos] != '\n' {
        line_stop(s, pos + 1)
    } else {
        pos
    }
}

/// A run of spaces.
pub open spec fn spaces(n: int) -> Seq<char>
    decreases n,
{
    if n <= 0 {
        Seq::empty()
    } else {
        spaces(n - 1).push(' ')
    }
}

/// The label of a production, as it appears in a rendered trace.
pub open spec fn ctx_text(c: Ctx) -> Seq<char> {
    match c {
        Ctx::Str => "string"@,
        Ctx::Escape => "escape"@,
        Ctx::HexChar => "hex_char"@,
        Ctx::Value => "value"@,
        Ctx::Array => "array"@,
        Ctx::Object => "object"@,
    }
}

/// A position forced into the input's range.
pub open spec fn clamp_pos(p: int, len: int) -> int {
    if p < 0 {
        0
    } else if p > len {
        len
    } else {
        p
    }
}

/// One rendered frame: its index, the line, column and production, the text
/// of the offending line, and a caret under the offending column.
pub open spec fn frame_text(s: Seq<char>, idx: int, f: (Ctx, int)) -> Seq<char> {
    let p = clamp_pos(f.1, s.len() as int);
    let ls = line_start(s, p);
    let le = line_stop(s, p);
    dec_seq(idx) + ": at line "@ + dec_seq(line_no(s, p)) + ", column "@ + dec_seq(p - ls + 1)
        + ", in "@ + ctx_text(f.0) + ":\n"@ + s.subrange(ls, le) + "\n"@ + spaces(p - ls) + "^\n\n"@
}

/// The rendered frames from `i` on, concatenated.
pub open spec fn trace_text_from(s: Seq<char>, fr: Seq<(Ctx, int)>, i: int) -> Seq<char>
    decreases fr.len() - i,
{
    if 0 <= i < fr.len() {
        frame_text(s, i, fr[i]) + trace_text_from(s, fr, i + 1)
    } else {
        Seq::empty()
    }
}

/// The whole rendered trace, nearest frame first.
pub open spec fn trace_text(s: Seq<char>, fr: Seq<(Ctx, int)>) -> Seq<char> {
    trace_text_from(s, fr, 0)
}

/// The label of a production.
fn ctx_name(c: Ctx) -> (r: &'static str)
    ensures
        r@ == ctx_text(c),
{
    match c {
        Ctx::Str => "string",
        Ctx::Escape => "escape",
        Ctx::HexChar => "hex_char",
        Ctx::Value => "value",
        Ctx::Array => "array",
        Ctx::Object => "object",
    }
}

/// Appends a number in decimal.
fn push_dec(out: &mut Vec<char>, n: usize)
    ensures
        final(out)@ == old(out)@ + dec_seq(n as int),
    decreases n,
{
    let ghost out0 = old(out)@;
    if n >= 10 {
        push_dec(out, n / 10);
    }
    let d = (48 + (n % 10) as u8) as char;
    out.push(d);
    proof {
        if n < 10 {
            assert(out0.push(d) =~= out0 + seq![digit_char(n as int)]);
        } else {
            assert((out0 + dec_seq(n as int / 10)).push(d) =~= out0 + dec_seq(
                n as int / 10,
            ).push(digit_char(n as int % 10)));
        }
    }
}

/// Appends the characters from `from` to `to`.
fn push_range(out: &mut Vec<char>, s: &Vec<char>, from: usize, to: usize)
    requires
        from <= to <= s@.len(),
    ensures
        final(out)@ == old(out)@ + s@.subrange(from as int, to as int),
{
    let ghost out0 = old(out)@;
    proof {
        assert(out0 + s@.subrange(from as int, from as int) =~= out0);
    }
    let mut i = from;
    while i < to
        invariant
            from <= i <= to <= s@.len(),
            out@ == out0 + s@.subrange(from as int, i as int),
        decreases to - i,
    {
        out.push(s[i]);
        proof {
            assert((out0 + s@.subrange(from as int, i as int)).push(s@[i as int]) =~= out0
                + s@.subrange(from as int, (i + 1) as int));
        }
        i = i + 1;
    }
}

/// Appends a run of spaces.
fn push_spaces(out: &mut Vec<char>, n: usize)
    ensures
        final(out)@ == old(out)@ + spaces(n as int),
{
    let ghost out0 = old(out)@;
    proof {
        assert(out0 + spaces(0) =~= out0);
    }
    let mut i: usize = 0;
    while i < n
        invariant
            i <= n,
            out@ == out0 + spaces(i as int),
        decreases n - i,
    {
        out.push(' ');
        proof {
            assert((out0 + spaces(i as int)).push(' ') =~= out0 + spaces(i as int).push(' '));
        }
        i = i + 1;
    }
}

/// Appends one rendered frame.
#[verifier::rlimit(100)]
fn render_frame(out: &mut Vec<char>, s: &Vec<char>, idx: usize, f: Frame)
    requires
        s@.len() < usize::MAX,
    ensures
        final(out)@ == old(out)@ + frame_text(s@, idx as int, (f.ctx, f.pos as int)),
{
    let ghost out0 = old(out)@;
    let p = if f.pos > s.len() {
        s.len()
    } else {
        f.pos
    };
    let mut cnt: usize = 0;
    let mut j: usize = 0;
    while j < p
        invariant
            j <= p <= s@.len(),
            cnt <= j,
            1 + cnt as int == line_no(s@, j as int),
        decreases p - j,
    {
        if s[j] == '\n' {
            cnt = cnt + 1;
        }
        j = j + 1;
    }
    let ln = cnt + 1;
    let mut ls: usize = p;
    while ls > 0 && s[ls - 1] != '\n'
        invariant
            ls <= p <= s@.len(),
            line_start(s@, p as int) == line_start(s@, ls as int),
        decreases ls,
    {
        ls = ls - 1;
    }
    let mut le: usize = p;
    while le < s.len() && s[le] != '\n'
        invariant
            p <= le <= s@.len(),
            line_stop(s@, p as int) == line_stop(s@, le as int),
        decreases s@.len() - le,
    {
        le = le + 1;
    }
    push_dec(out, idx);
    push_str_chars(out, ": at line ");
    push_dec(out, ln);
    push_str_chars(out, ", column ");
    push_dec(out, p - ls + 1);
    push_str_chars(out, ", in ");
    push_str_chars(out, ctx_name(f.ctx));
    push_str_chars(out, ":\n");
    push_range(out, s, ls, le);
    push_str_chars(out, "\n");
    push_spaces(out, p - ls);
    push_str_chars(out, "^\n\n");
    proof {
        assert(out@ =~= out0 + frame_text(s@, idx as int, (f.ctx, f.pos as int)));
    }
}

/// The whole trace, rendered: one block per frame, nearest production
/// first, each naming the line, column and production and pointing at the
/// offending character.
pub(crate) fn render_trace(s: &Vec<char>, frames: &Vec<Frame>) -> (r: String)
    requires
        s@.len() < usize::MAX,
    ensures
        r@ == trace_text(s@, frames_of(frames@)),
{
    let mut out: Vec<char> = Vec::new();
    let ghost fv = frames_of(frames@);
    let mut i: usize = 0;
    while i < frames.len()
        invariant
            i <= frames@.len(),
            s@.len() < usize::MAX,
            fv == frames_of(frames@),
            trace_text(s@, fv) == out@ + trace_text_from(s@, fv, i as int),
        decreases frames@.len() - i,
    {
        let ghost out0 = out@;
        render_frame(&mut out, s, i, frames[i]);
        proof {
            assert(fv[i as int] == (frames@[i as int].ctx, frames@[i as int].pos as int));
            assert(out0 + (frame_text(s@, i as int, fv[i as int]) + trace_text_from(
                s@,
                fv,
                i as int + 1,
            )) =~= (out0 + frame_text(s@, i as int, fv[i as int])) + trace_text_from(
                s@,
                fv,
                i as int + 1,
            ));
        }
        i = i + 1;
    }
    proof {
        assert(out@ + Seq::<char>::empty() =~= out@);
    }
    chars_to_string(&out)
}

} // verus!
