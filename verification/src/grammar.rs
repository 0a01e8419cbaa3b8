//! The grammar, stated as recursive specification functions.
//!
//! Each function gives the meaning of one production over the input as a
//! `Seq<char>` and a position: what it accepts, the value it denotes, where
//! the remainder starts, and on failure the context trace, nearest production
//! first. The executable parser is proved to return exactly these outcomes.
//!
//! The productions mirror the accepted language: a document is whitespace, an
//! object or an array, and trailing whitespace; a value is any production
//! behind single-character dispatch; containers take comma-separated items
//! with no trailing comma; a string decodes escape sequences, rejecting a
//! backslash before anything outside the escape table, a `\u` escape without
//! its four hex digits, and a `\u` escape naming a lone UTF-16 surrogate,
//! which is no Unicode scalar value. A numeral whose exponent marker is not
//! followed by a digit is the one irrecoverable scan: it aborts the whole
//! parse instead of letting another production have the input.

use crate::diag::Ctx;
use crate::value::JsonModel;
use crate::value::lemma_obj_insert_all_wf;
use crate::value::obj_insert_all;
use crate::value::wf_model;
use vstd::prelude::*;

verus! {

/// Whitespace: space, tab, line feed, carriage return.
pub open spec fn is_ws_char(c: char) -> bool {
    c == ' ' || c == '\n' || c == '\r' || c == '\t'
}

/// A decimal digit.
pub open spec fn is_digit_char(c: char) -> bool {
    48 <= c as u32 <= 57
}

/// An ASCII control character, code 0x00 through 0x1F.
pub open spec fn is_control_char(c: char) -> bool {
    c as u32 <= 0x1F
}

/// A character a string may hold without an escape.
pub open spec fn is_normal_char(c: char) -> bool {
    c != '\\' && c != '"' && !is_control_char(c)
}

/// A hexadecimal digit, either case.
pub open spec fn is_hex_char(c: char) -> bool {
    is_digit_char(c) || (97 <= c as u32 <= 102) || (65 <= c as u32 <= 70)
}

/// The value of a hexadecimal digit.
pub open spec fn hex_val(c: char) -> int {
    if is_digit_char(c) {
        c as u32 - 48
    } else if 97 <= c as u32 <= 102 {
        c as u32 - 87
    } else {
        c as u32 - 55
    }
}

/// The position right after the whitespace run starting at `pos`.
pub open spec fn ws_end(s: Seq<char>, pos: int) -> int
    decreases s.len() - pos,
{
    if 0 <= pos < s.len() && is_ws_char(s[pos]) {
        ws_end(s, pos + 1)
    } else {
        pos
    }
}

/// The position right after the digit run starting at `pos`.
pub open spec fn digits_end(s: Seq<char>, pos: int) -> int
    decreases s.len() - pos,
{
    if 0 <= pos < s.len() && is_digit_char(s[pos]) {
        digits_end(s, pos + 1)
    } else {
        pos
    }
}

/// The position right after the run of unescaped string characters at `pos`.
pub open spec fn normal_end(s: Seq<char>, pos: int) -> int
    decreases s.len() - pos,
{
    if 0 <= pos < s.len() && is_normal_char(s[pos]) {
        normal_end(s, pos + 1)
    } else {
        pos
    }
}

/// How a numeral scan ends: accepted up to a position, not a numeral at all,
/// or irrecoverable (an exponent marker with no digit after it).
pub enum NumOut {
    Hit(int),
    Miss,
    Fatal,
}

/// The numeral production: optional sign, digits, optional fraction,
/// optional exponent.
pub open spec fn sp_number(s: Seq<char>, pos: int) -> NumOut {
    let p1 = if 0 <= pos < s.len() && (s[pos] == '+' || s[pos] == '-') {
        pos + 1
    } else {
        pos
    };
    let p2 = digits_end(s, p1);
    if p2 == p1 {
        NumOut::Miss
    } else {
        let p3 = if p2 < s.len() && s[p2] == '.' {
            digits_end(s, p2 + 1)
        } else {
            p2
        };
        if p3 < s.len() && (s[p3] == 'e' || s[p3] == 'E') {
            let p4 = if p3 + 1 < s.len() && (s[p3 + 1] == '+' || s[p3 + 1] == '-') {
                p3 + 2
            } else {
                p3 + 1
            };
            let p5 = digits_end(s, p4);
            if p5 == p4 {
                NumOut::Fatal
            } else {
                NumOut::Hit(p5)
            }
        } else {
            NumOut::Hit(p3)
        }
    }
}

/// How an escape scan ends: the decoded character and the position after the
/// escape, or a failure trace.
pub enum EscOut {
    Hit(char, int),
    Fail(Seq<(Ctx, int)>),
}

/// The four-hex-digit escape tail, `pos` at the expected `u`. A lone UTF-16
/// surrogate value names no character and is rejected here.
pub open spec fn sp_hex(s: Seq<char>, pos: int) -> EscOut {
    if 0 <= pos && pos + 5 <= s.len() && s[pos] == 'u' && is_hex_char(s[pos + 1]) && is_hex_char(
        s[pos + 2],
    ) && is_hex_char(s[pos + 3]) && is_hex_char(s[pos + 4]) {
        let v = hex_val(s[pos + 1]) * 4096 + hex_val(s[pos + 2]) * 256 + hex_val(s[pos + 3]) * 16
            + hex_val(s[pos + 4]);
        if 0xD800 <= v < 0xE000 {
            EscOut::Fail(seq![(Ctx::HexChar, pos)])
        } else {
            EscOut::Hit((v as u32) as char, pos + 5)
        }
    } else {
        EscOut::Fail(seq![(Ctx::HexChar, pos)])
    }
}

/// The escape table, `pos` at the character right after the backslash.
pub open spec fn sp_escape(s: Seq<char>, pos: int) -> EscOut {
    if !(0 <= pos < s.len()) {
        EscOut::Fail(seq![(Ctx::Escape, pos)])
    } else {
        let c = s[pos];
        if c == '"' || c == '\\' || c == '/' {
            EscOut::Hit(c, pos + 1)
        } else if c == 'b' {
            EscOut::Hit('\u{0008}', pos + 1)
        } else if c == 'f' {
            EscOut::Hit('\u{000C}', pos + 1)
        } else if c == 'n' {
            EscOut::Hit('\n', pos + 1)
        } else if c == 'r' {
            EscOut::Hit('\r', pos + 1)
        } else if c == 't' {
            EscOut::Hit('\t', pos + 1)
        } else if c == 'u' {
            match sp_hex(s, pos) {
                EscOut::Hit(h, e) => EscOut::Hit(h, e),
                EscOut::Fail(fr) => EscOut::Fail(fr.push((Ctx::Escape, pos))),
            }
        } else {
            EscOut::Fail(seq![(Ctx::Escape, pos)])
        }
    }
}

/// How a string-content scan ends: the decoded text and the stop position,
/// or a failure trace.
pub enum StrOut {
    Hit(Seq<char>, int),
    Fail(Seq<(Ctx, int)>),
}

/// String content after the opening quote: unescaped characters and escapes,
/// decoded and concatenated, stopping (successfully) at the first character
/// no chunk can begin — the closing quote the caller demands, a control
/// character, or the end of the input.
pub open spec fn sp_str_body(s: Seq<char>, pos: int) -> StrOut
    decreases s.len() - pos,
{
    if !(0 <= pos < s.len()) {
        StrOut::Hit(Seq::empty(), pos)
    } else {
        let c = s[pos];
        if is_normal_char(c) {
            match sp_str_body(s, pos + 1) {
                StrOut::Hit(d, e) => StrOut::Hit(seq![c] + d, e),
                f => f,
            }
        } else if c == '\\' {
            match sp_escape(s, pos + 1) {
                EscOut::Hit(d, e) => if pos + 2 <= e <= s.len() {
                    match sp_str_body(s, e) {
                        StrOut::Hit(d2, e2) => StrOut::Hit(seq![d] + d2, e2),
                        f => f,
                    }
                } else {
                    StrOut::Fail(Seq::empty())
                },
                EscOut::Fail(fr) => StrOut::Fail(fr),
            }
        } else {
            StrOut::Hit(Seq::empty(), pos)
        }
    }
}

/// The string production: an immediate pair of quotes for the empty string,
/// or quote, content, quote.
pub open spec fn sp_string(s: Seq<char>, pos: int) -> StrOut {
    if 0 <= pos && pos + 2 <= s.len() && s[pos] == '"' && s[pos + 1] == '"' {
        StrOut::Hit(Seq::empty(), pos + 2)
    } else if 0 <= pos < s.len() && s[pos] == '"' {
        match sp_str_body(s, pos + 1) {
            StrOut::Hit(d, e) => if e < s.len() && s[e] == '"' {
                StrOut::Hit(d, e + 1)
            } else {
                StrOut::Fail(seq![(Ctx::Str, pos)])
            },
            StrOut::Fail(fr) => StrOut::Fail(fr.push((Ctx::Str, pos))),
        }
    } else {
        StrOut::Fail(seq![(Ctx::Str, pos)])
    }
}

/// The boolean literals, matched exactly.
pub open spec fn sp_bool(s: Seq<char>, pos: int) -> Option<(bool, int)> {
    if 0 <= pos && pos + 5 <= s.len() && s[pos] == 'f' && s[pos + 1] == 'a' && s[pos + 2] == 'l'
        && s[pos + 3] == 's' && s[pos + 4] == 'e' {
        Some((false, pos + 5))
    } else if 0 <= pos && pos + 4 <= s.len() && s[pos] == 't' && s[pos + 1] == 'r' && s[pos + 2]
        == 'u' && s[pos + 3] == 'e' {
        Some((true, pos + 4))
    } else {
        None
    }
}

/// The null literal, matched exactly.
pub open spec fn sp_null(s: Seq<char>, pos: int) -> Option<int> {
    if 0 <= pos && pos + 4 <= s.len() && s[pos] == 'n' && s[pos + 1] == 'u' && s[pos + 2] == 'l'
        && s[pos + 3] == 'l' {
        Some(pos + 4)
    } else {
        None
    }
}

/// How a value parse ends: the value's model and the position after its
/// trailing whitespace, a failure trace, or an irrecoverable scan.
pub enum ValOut {
    Hit(JsonModel, int),
    Fail(Seq<(Ctx, int)>),
    Fatal,
}

/// How an array parse (or an element-list parse) ends.
pub enum ArrOut {
    Hit(Seq<JsonModel>, int),
    Fail(Seq<(Ctx, int)>),
    Fatal,
}

/// How an object parse (or a pair-list parse) ends. For the pair list the
/// entries are raw, in document order, repeats and all; the object production
/// folds them so that the last occurrence of a key wins.
pub enum ObjOut {
    Hit(Seq<(Seq<char>, JsonModel)>, int),
    Fail(Seq<(Ctx, int)>),
    Fatal,
}

/// The value production: leading whitespace, then one alternative picked by
/// the first character — quoted string, boolean, numeral, null, object or
/// array — then trailing whitespace.
pub open spec fn sp_value(s: Seq<char>, pos: int) -> ValOut
    decreases s.len() - pos, 3int,
{
    let p1 = ws_end(s, pos);
    if !(pos <= p1 <= s.len()) {
        ValOut::Fail(Seq::empty())
    } else if p1 == s.len() {
        ValOut::Fail(seq![(Ctx::Value, pos)])
    } else {
        let c = s[p1];
        if c == '"' {
            match sp_string(s, p1) {
                StrOut::Hit(d, e) => ValOut::Hit(JsonModel::String(d), ws_end(s, e)),
                StrOut::Fail(fr) => ValOut::Fail(fr.push((Ctx::Value, pos))),
            }
        } else if c == 't' || c == 'f' {
            match sp_bool(s, p1) {
                Some((b, e)) => ValOut::Hit(JsonModel::Bool(b), ws_end(s, e)),
                None => ValOut::Fail(seq![(Ctx::Value, pos)]),
            }
        } else if is_digit_char(c) || c == '-' || c == '+' {
            match sp_number(s, p1) {
                NumOut::Hit(e) => ValOut::Hit(JsonModel::Number(s.subrange(p1, e)), ws_end(s, e)),
                NumOut::Miss => ValOut::Fail(seq![(Ctx::Value, pos)]),
                NumOut::Fatal => ValOut::Fatal,
            }
        } else if c == 'n' {
            match sp_null(s, p1) {
                Some(e) => ValOut::Hit(JsonModel::Null, ws_end(s, e)),
                None => ValOut::Fail(seq![(Ctx::Value, pos)]),
            }
        } else if c == '{' {
            match sp_object(s, p1) {
                ObjOut::Hit(m, e) => ValOut::Hit(JsonModel::Object(m), ws_end(s, e)),
                ObjOut::Fail(fr) => ValOut::Fail(fr.push((Ctx::Value, pos))),
                ObjOut::Fatal => ValOut::Fatal,
            }
        } else if c == '[' {
            match sp_array(s, p1) {
                ArrOut::Hit(ms, e) => ValOut::Hit(JsonModel::Array(ms), ws_end(s, e)),
                ArrOut::Fail(fr) => ValOut::Fail(fr.push((Ctx::Value, pos))),
                ArrOut::Fatal => ValOut::Fatal,
            }
        } else {
            ValOut::Fail(seq![(Ctx::Value, pos)])
        }
    }
}

/// One or more comma-separated values: a comma commits to another value.
pub open spec fn sp_elems(s: Seq<char>, pos: int) -> ArrOut
    decreases s.len() - pos, 4int,
{
    match sp_value(s, pos) {
        ValOut::Hit(m, e) => if !(pos <= e <= s.len()) {
            ArrOut::Fail(Seq::empty())
        } else if e < s.len() && s[e] == ',' {
            match sp_elems(s, e + 1) {
                ArrOut::Hit(ms, e2) => ArrOut::Hit(seq![m] + ms, e2),
                f => f,
            }
        } else {
            ArrOut::Hit(seq![m], e)
        },
        ValOut::Fail(fr) => ArrOut::Fail(fr),
        ValOut::Fatal => ArrOut::Fatal,
    }
}

/// The array production: bracket, optional elements, bracket; an empty array
/// may hold whitespace.
pub open spec fn sp_array(s: Seq<char>, pos: int) -> ArrOut
    decreases s.len() - pos, 1int,
{
    if !(0 <= pos < s.len() && s[pos] == '[') {
        ArrOut::Fail(seq![(Ctx::Array, pos)])
    } else {
        let p1 = ws_end(s, pos + 1);
        if !(pos + 1 <= p1 <= s.len()) {
            ArrOut::Fail(Seq::empty())
        } else if p1 < s.len() && s[p1] == ']' {
            ArrOut::Hit(Seq::empty(), p1 + 1)
        } else {
            match sp_elems(s, p1) {
                ArrOut::Hit(ms, e) => if e < s.len() && s[e] == ']' {
                    ArrOut::Hit(ms, e + 1)
                } else {
                    ArrOut::Fail(seq![(Ctx::Array, pos)])
                },
                ArrOut::Fail(fr) => ArrOut::Fail(fr.push((Ctx::Array, pos))),
                ArrOut::Fatal => ArrOut::Fatal,
            }
        }
    }
}

/// One or more comma-separated key/value pairs: whitespace, a quoted key,
/// whitespace, a colon, a value; a comma commits to another pair.
pub open spec fn sp_pairs(s: Seq<char>, pos: int) -> ObjOut
    decreases s.len() - pos, 4int,
{
    let pk = ws_end(s, pos);
    if !(pos <= pk <= s.len()) {
        ObjOut::Fail(Seq::empty())
    } else {
        match sp_string(s, pk) {
            StrOut::Fail(fr) => ObjOut::Fail(fr),
            StrOut::Hit(k, e1) => if !(pk + 2 <= e1 <= s.len()) {
                ObjOut::Fail(Seq::empty())
            } else {
                let p2 = ws_end(s, e1);
                if !(e1 <= p2 <= s.len()) {
                    ObjOut::Fail(Seq::empty())
                } else if p2 < s.len() && s[p2] == ':' {
                    match sp_value(s, p2 + 1) {
                        ValOut::Hit(v, e2) => if !(p2 + 1 <= e2 <= s.len()) {
                            ObjOut::Fail(Seq::empty())
                        } else if e2 < s.len() && s[e2] == ',' {
                            match sp_pairs(s, e2 + 1) {
                                ObjOut::Hit(ps, e3) => ObjOut::Hit(seq![(k, v)] + ps, e3),
                                f => f,
                            }
                        } else {
                            ObjOut::Hit(seq![(k, v)], e2)
                        },
                        ValOut::Fail(fr) => ObjOut::Fail(fr),
                        ValOut::Fatal => ObjOut::Fatal,
                    }
                } else {
                    ObjOut::Fail(Seq::empty())
                }
            },
        }
    }
}

/// The object production: brace, optional pairs, brace; an empty object may
/// hold whitespace; a repeated key keeps the value of its last occurrence.
pub open spec fn sp_object(s: Seq<char>, pos: int) -> ObjOut
    decreases s.len() - pos, 1int,
{
    if !(0 <= pos < s.len() && s[pos] == '{') {
        ObjOut::Fail(seq![(Ctx::Object, pos)])
    } else {
        let p1 = ws_end(s, pos + 1);
        if !(pos + 1 <= p1 <= s.len()) {
            ObjOut::Fail(Seq::empty())
        } else if p1 < s.len() && s[p1] == '}' {
            ObjOut::Hit(Seq::empty(), p1 + 1)
        } else {
            match sp_pairs(s, p1) {
                ObjOut::Hit(raw, e) => if e < s.len() && s[e] == '}' {
                    ObjOut::Hit(obj_insert_all(Seq::empty(), raw), e + 1)
                } else {
                    ObjOut::Fail(seq![(Ctx::Object, pos)])
                },
                ObjOut::Fail(fr) => ObjOut::Fail(fr.push((Ctx::Object, pos))),
                ObjOut::Fatal => ObjOut::Fatal,
            }
        }
    }
}

/// The root production: leading whitespace, an object or an array and
/// nothing else, trailing whitespace. When neither bracket opens the input,
/// the trace reports the last alternative tried.
pub open spec fn sp_root(s: Seq<char>) -> ValOut {
    let p1 = ws_end(s, 0);
    if 0 <= p1 < s.len() && s[p1] == '{' {
        match sp_object(s, p1) {
            ObjOut::Hit(m, e) => ValOut::Hit(JsonModel::Object(m), ws_end(s, e)),
            ObjOut::Fail(fr) => ValOut::Fail(fr),
            ObjOut::Fatal => ValOut::Fatal,
        }
    } else if 0 <= p1 < s.len() && s[p1] == '[' {
        match sp_array(s, p1) {
            ArrOut::Hit(ms, e) => ValOut::Hit(JsonModel::Array(ms), ws_end(s, e)),
            ArrOut::Fail(fr) => ValOut::Fail(fr),
            ArrOut::Fatal => ValOut::Fatal,
        }
    } else {
        ValOut::Fail(seq![(Ctx::Array, p1)])
    }
}

/// How a whole parse ends: the document's value, data left after the root
/// value, a syntax failure with its trace, or an irrecoverable scan.
pub enum DocOut {
    Val(JsonModel),
    TrailingData,
    Syn(Seq<(Ctx, int)>),
    Fatal,
}

/// A whole document: the root value with no text after it.
pub open spec fn sp_doc(s: Seq<char>) -> DocOut {
    match sp_root(s) {
        ValOut::Hit(m, e) => if e == s.len() {
            DocOut::Val(m)
        } else {
            DocOut::TrailingData
        },
        ValOut::Fail(fr) => DocOut::Syn(fr),
        ValOut::Fatal => DocOut::Fatal,
    }
}

/// Every value the value production yields is well formed.
pub proof fn lemma_value_wf(s: Seq<char>, pos: int)
    ensures
        sp_value(s, pos) matches ValOut::Hit(m, e) ==> wf_model(m),
    decreases s.len() - pos, 3int,
{
    let p1 = ws_end(s, pos);
    if pos <= p1 <= s.len() && p1 < s.len() {
        if s[p1] == '{' {
            lemma_object_wf(s, p1);
        } else if s[p1] == '[' {
            lemma_array_wf(s, p1);
        }
    }
}

/// Every element an element-list parse yields is well formed.
pub proof fn lemma_elems_wf(s: Seq<char>, pos: int)
    ensures
        sp_elems(s, pos) matches ArrOut::Hit(ms, e) ==> forall|i: int|
            0 <= i < ms.len() ==> wf_model(#[trigger] ms[i]),
    decreases s.len() - pos, 4int,
{
    lemma_value_wf(s, pos);
    if let ValOut::Hit(m, e) = sp_value(s, pos) {
        if pos <= e <= s.len() && e < s.len() && s[e] == ',' {
            lemma_elems_wf(s, e + 1);
            if let ArrOut::Hit(ms2, e2) = sp_elems(s, e + 1) {
                let whole = seq![m] + ms2;
                assert forall|i: int| 0 <= i < whole.len() implies wf_model(
                    #[trigger] whole[i],
                ) by {
                    if i == 0 {
                        assert(whole[i] == m);
                    } else {
                        assert(whole[i] == ms2[i - 1]);
                    }
                }
            }
        }
    }
}

/// Every array the array production yields is well formed.
pub proof fn lemma_array_wf(s: Seq<char>, pos: int)
    ensures
        sp_array(s, pos) matches ArrOut::Hit(ms, e) ==> wf_model(JsonModel::Array(ms)),
    decreases s.len() - pos, 1int,
{
    if 0 <= pos < s.len() && s[pos] == '[' {
        let p1 = ws_end(s, pos + 1);
        if pos + 1 <= p1 <= s.len() && !(p1 < s.len() && s[p1] == ']') {
            lemma_elems_wf(s, p1);
        }
    }
}

/// Every value a pair-list parse yields is well formed.
pub proof fn lemma_pairs_wf(s: Seq<char>, pos: int)
    ensures
        sp_pairs(s, pos) matches ObjOut::Hit(ps, e) ==> forall|i: int|
            0 <= i < ps.len() ==> wf_model((#[trigger] ps[i]).1),
    decreases s.len() - pos, 4int,
{
    let pk = ws_end(s, pos);
    if pos <= pk <= s.len() {
        if let StrOut::Hit(k, e1) = sp_string(s, pk) {
            if pk + 2 <= e1 <= s.len() {
                let p2 = ws_end(s, e1);
                if e1 <= p2 <= s.len() && p2 < s.len() && s[p2] == ':' {
                    lemma_value_wf(s, p2 + 1);
                    if let ValOut::Hit(v, e2) = sp_value(s, p2 + 1) {
                        if p2 + 1 <= e2 <= s.len() && e2 < s.len() && s[e2] == ',' {
                            lemma_pairs_wf(s, e2 + 1);
                            if let ObjOut::Hit(ps2, e3) = sp_pairs(s, e2 + 1) {
                                let whole = seq![(k, v)] + ps2;
                                assert forall|i: int| 0 <= i < whole.len() implies wf_model(
                                    (#[trigger] whole[i]).1,
                                ) by {
                                    if i == 0 {
                                        assert(whole[i] == (k, v));
                                    } else {
                                        assert(whole[i] == ps2[i - 1]);
                                    }
                                }
                            }
                        }
                    }
                }
            }
        }
    }
}

/// Every object the object production yields is well formed: its keys are
/// unique, its values well formed.
pub proof fn lemma_object_wf(s: Seq<char>, pos: int)
    ensures
        sp_object(s, pos) matches ObjOut::Hit(es, e) ==> wf_model(JsonModel::Object(es)),
    decreases s.len() - pos, 1int,
{
    if 0 <= pos < s.len() && s[pos] == '{' {
        let p1 = ws_end(s, pos + 1);
        if pos + 1 <= p1 <= s.len() && !(p1 < s.len() && s[p1] == '}') {
            lemma_pairs_wf(s, p1);
            if let ObjOut::Hit(raw, e) = sp_pairs(s, p1) {
                lemma_obj_insert_all_wf(Seq::empty(), raw);
            }
        }
    }
}

/// Every tree a successful parse yields is well formed: at every object
/// node of the tree the keys are unique.
pub proof fn lemma_doc_wf(s: Seq<char>)
    ensures
        sp_doc(s) matches DocOut::Val(m) ==> wf_model(m),
{
    let p1 = ws_end(s, 0);
    if 0 <= p1 < s.len() && s[p1] == '{' {
        lemma_object_wf(s, p1);
    } else if 0 <= p1 < s.len() && s[p1] == '[' {
        lemma_array_wf(s, p1);
    }
}

/// A document whose first character after the leading whitespace opens
/// neither an object nor an array — in particular one holding a bare string,
/// number, boolean or null — never yields a value.
pub proof fn lemma_scalar_root_rejected(s: Seq<char>)
    requires
        ws_end(s, 0) < s.len() ==> (s[ws_end(s, 0)] != '{' && s[ws_end(s, 0)] != '['),
    ensures
        !(sp_doc(s) is Val),
{
}

} // verus!
