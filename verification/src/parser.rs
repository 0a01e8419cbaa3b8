//! The executable recursive-descent parser.
//!
//! Every function here is proved to return exactly the outcome of the
//! corresponding grammar production in `crate::grammar`: the same value
//! model, the same remainder position, the same failure trace, the same
//! irrecoverable cases. Positions count characters; the input is a
//! `Vec<char>`.

use crate::diag::Ctx;
use crate::diag::Frame;
use crate::diag::ParseError;
use crate::diag::frames_of;
use crate::grammar::ArrOut;
use crate::grammar::EscOut;
use crate::grammar::NumOut;
use crate::grammar::ObjOut;
use crate::grammar::StrOut;
use crate::grammar::ValOut;
use crate::grammar::digits_end;
use crate::grammar::hex_val;
use crate::grammar::is_hex_char;
use crate::grammar::normal_end;
use crate::grammar::sp_bool;
use crate::grammar::sp_escape;
use crate::grammar::sp_hex;
use crate::grammar::sp_null;
use crate::grammar::sp_number;
use crate::grammar::sp_str_body;
use crate::grammar::sp_string;
use crate::grammar::ws_end;
use crate::grammar::sp_array;
use crate::grammar::sp_elems;
use crate::grammar::sp_object;
use crate::grammar::sp_pairs;
use crate::grammar::sp_root;
use crate::grammar::sp_value;
use crate::textops::char_of_u32;
use crate::textops::chars_to_string;
use crate::textops::str_to_chars;
use crate::value::JsonModel;
use crate::value::JsonValue;
use crate::value::lemma_model_array;
use crate::value::lemma_model_object;
use crate::value::lemma_obj_insert_append;
use crate::value::lemma_obj_insert_update;
use crate::value::lemma_insert_all_snoc;
use crate::value::model_of;
use crate::value::models_of_pairs;
use crate::value::models_of_seq;
use crate::value::obj_insert;
use crate::value::obj_insert_all;
use vstd::prelude::*;

verus! {

broadcast use vstd::std_specs::vec::group_vec_axioms, vstd::utf8::char_u32_cast;

/// What the executable outcome of an escape production must be: the decoded
/// character and stop position on a hit, the same trace on a failure.
pub open spec fn esc_matches(r: Result<(char, usize), ParseError>, o: EscOut) -> bool {
    match o {
        EscOut::Hit(c, e) => r matches Ok(p) && p.0 == c && p.1 as int == e,
        EscOut::Fail(fr) => r matches Err(ParseError::Syntax(f)) && frames_of(f@) == fr,
    }
}

/// What the executable outcome of a string production must be; `lo` bounds
/// the stop position from below, so that callers know the scan advanced.
pub open spec fn str_matches(
    r: Result<(String, usize), ParseError>,
    o: StrOut,
    lo: int,
    len: int,
) -> bool {
    match o {
        StrOut::Hit(d, e) => r matches Ok(p) && p.0@ == d && p.1 as int == e && lo <= e <= len,
        StrOut::Fail(fr) => r matches Err(ParseError::Syntax(f)) && frames_of(f@) == fr,
    }
}

/// What the executable outcome of the numeral production must be.
pub open spec fn num_matches(
    r: Result<(String, usize), ParseError>,
    o: NumOut,
    s: Seq<char>,
    pos: int,
) -> bool {
    match o {
        NumOut::Hit(e) => r matches Ok(p) && p.0@ == s.subrange(pos, e) && p.1 as int == e && pos
            < e <= s.len(),
        NumOut::Miss => r matches Err(ParseError::Syntax(f)) && f@.len() == 0,
        NumOut::Fatal => r matches Err(ParseError::Fatal),
    }
}

/// A one-frame trace.
fn frames1(ctx: Ctx, pos: usize) -> (r: Vec<Frame>)
    ensures
        frames_of(r@) == seq![(ctx, pos as int)],
{
    let mut v: Vec<Frame> = Vec::new();
    v.push(Frame { ctx, pos });
    proof {
        assert(frames_of(v@) =~= seq![(ctx, pos as int)]);
    }
    v
}

/// The trace with one more (outer) context frame.
fn push_ctx(f: Vec<Frame>, ctx: Ctx, pos: usize) -> (r: Vec<Frame>)
    ensures
        frames_of(r@) == frames_of(f@).push((ctx, pos as int)),
{
    let ghost f0 = f@;
    let mut g = f;
    g.push(Frame { ctx, pos });
    proof {
        assert(frames_of(g@) =~= frames_of(f0).push((ctx, pos as int)));
    }
    g
}

/// Consumes the longest run of whitespace: the whitespace production, which
/// always succeeds.
pub fn parse_whitespace(s: &Vec<char>, pos: usize) -> (r: usize)
    requires
        pos <= s@.len(),
    ensures
        r as int == ws_end(s@, pos as int),
        pos <= r <= s@.len(),
{
    let mut cur = pos;
    while cur < s.len() && (s[cur] == ' ' || s[cur] == '\n' || s[cur] == '\r' || s[cur] == '\t')
        invariant
            pos <= cur <= s@.len(),
            ws_end(s@, pos as int) == ws_end(s@, cur as int),
        decreases s@.len() - cur,
    {
        cur = cur + 1;
    }
    cur
}

/// The position after the digit run at `pos`.
fn scan_digits(s: &Vec<char>, pos: usize) -> (r: usize)
    requires
        pos <= s@.len(),
    ensures
        r as int == digits_end(s@, pos as int),
        pos <= r <= s@.len(),
{
    let mut cur = pos;
    while cur < s.len() && 48 <= (s[cur] as u32) && (s[cur] as u32) <= 57
        invariant
            pos <= cur <= s@.len(),
            digits_end(s@, pos as int) == digits_end(s@, cur as int),
        decreases s@.len() - cur,
    {
        cur = cur + 1;
    }
    cur
}

/// The decoded text of the characters from `from` to `to`.
fn copy_range(s: &Vec<char>, from: usize, to: usize) -> (r: String)
    requires
        from <= to <= s@.len(),
    ensures
        r@ == s@.subrange(from as int, to as int),
{
    let mut out: Vec<char> = Vec::new();
    proof {
        assert(s@.subrange(from as int, from as int) =~= Seq::<char>::empty());
    }
    let mut i = from;
    while i < to
        invariant
            from <= i <= to <= s@.len(),
            out@ == s@.subrange(from as int, i as int),
        decreases to - i,
    {
        out.push(s[i]);
        proof {
            assert(s@.subrange(from as int, (i + 1) as int) =~= s@.subrange(
                from as int,
                i as int,
            ).push(s@[i as int]));
        }
        i = i + 1;
    }
    chars_to_string(&out)
}

/// The numeral production: optional sign, digits, optional fraction,
/// optional exponent. Returns the numeral's text; an exponent marker without
/// a digit after it is the irrecoverable failure.
pub fn parse_number(s: &Vec<char>, pos: usize) -> (r: Result<(String, usize), ParseError>)
    requires
        pos <= s@.len(),
    ensures
        num_matches(r, sp_number(s@, pos as int), s@, pos as int),
{
    let len = s.len();
    let mut p1 = pos;
    if p1 < len && (s[p1] == '+' || s[p1] == '-') {
        p1 = p1 + 1;
    }
    let p2 = scan_digits(s, p1);
    if p2 == p1 {
        return Err(ParseError::Syntax(Vec::new()));
    }
    let mut p3 = p2;
    if p2 < len && s[p2] == '.' {
        p3 = scan_digits(s, p2 + 1);
    }
    if p3 < len && (s[p3] == 'e' || s[p3] == 'E') {
        let mut p4 = p3 + 1;
        if p4 < len && (s[p4] == '+' || s[p4] == '-') {
            p4 = p4 + 1;
        }
        let p5 = scan_digits(s, p4);
        if p5 == p4 {
            return Err(ParseError::Fatal);
        }
        let t = copy_range(s, pos, p5);
        return Ok((t, p5));
    }
    let t = copy_range(s, pos, p3);
    Ok((t, p3))
}

/// The longest nonempty run of characters needing no escape; fails without
/// consuming anything when the very first character would need one.
pub fn normal_str(s: &Vec<char>, pos: usize) -> (r: Result<(String, usize), ParseError>)
    requires
        pos <= s@.len(),
    ensures
        ({
            let e = normal_end(s@, pos as int);
            if e > pos {
                r matches Ok(p) && p.0@ == s@.subrange(pos as int, e) && p.1 as int == e && e
                    <= s@.len()
            } else {
                r matches Err(ParseError::Syntax(f)) && f@.len() == 0
            }
        }),
{
    let mut cur = pos;
    while cur < s.len() && s[cur] != '\\' && s[cur] != '"' && (s[cur] as u32) > 0x1F
        invariant
            pos <= cur <= s@.len(),
            normal_end(s@, pos as int) == normal_end(s@, cur as int),
        decreases s@.len() - cur,
    {
        cur = cur + 1;
    }
    if cur == pos {
        return Err(ParseError::Syntax(Vec::new()));
    }
    let t = copy_range(s, pos, cur);
    Ok((t, cur))
}

/// The value of one hexadecimal digit.
fn hex_digit_val(c: char) -> (r: u32)
    requires
        is_hex_char(c),
    ensures
        r as int == hex_val(c),
        r < 16,
{
    let u = c as u32;
    if u >= 97 {
        u - 87
    } else if u >= 65 {
        u - 55
    } else {
        u - 48
    }
}

/// Whether the character is a hexadecimal digit.
fn is_hex_digit(c: char) -> (r: bool)
    ensures
        r == is_hex_char(c),
{
    let u = c as u32;
    (48 <= u && u <= 57) || (97 <= u && u <= 102) || (65 <= u && u <= 70)
}

/// The four-hex-digit escape tail, starting at the expected `u`. A lone
/// UTF-16 surrogate value is rejected: it names no character.
pub fn hex_char(s: &Vec<char>, pos: usize) -> (r: Result<(char, usize), ParseError>)
    requires
        pos <= s@.len(),
    ensures
        esc_matches(r, sp_hex(s@, pos as int)),
{
    let len = s.len();
    if pos < len && s[pos] == 'u' && len - pos >= 5 && is_hex_digit(s[pos + 1]) && is_hex_digit(
        s[pos + 2],
    ) && is_hex_digit(s[pos + 3]) && is_hex_digit(s[pos + 4]) {
        let v = hex_digit_val(s[pos + 1]) * 4096 + hex_digit_val(s[pos + 2]) * 256 + hex_digit_val(
            s[pos + 3],
        ) * 16 + hex_digit_val(s[pos + 4]);
        if 0xD800 <= v && v < 0xE000 {
            Err(ParseError::Syntax(frames1(Ctx::HexChar, pos)))
        } else {
            let c = char_of_u32(v);
            Ok((c, pos + 5))
        }
    } else {
        Err(ParseError::Syntax(frames1(Ctx::HexChar, pos)))
    }
}

/// The escape table: the character after the backslash picks what the escape
/// decodes to.
pub fn escapable(s: &Vec<char>, pos: usize) -> (r: Result<(char, usize), ParseError>)
    requires
        pos <= s@.len(),
    ensures
        esc_matches(r, sp_escape(s@, pos as int)),
{
    let len = s.len();
    if pos >= len {
        return Err(ParseError::Syntax(frames1(Ctx::Escape, pos)));
    }
    let c = s[pos];
    if c == '"' || c == '\\' || c == '/' {
        Ok((c, pos + 1))
    } else if c == 'b' {
        Ok(('\u{0008}', pos + 1))
    } else if c == 'f' {
        Ok(('\u{000C}', pos + 1))
    } else if c == 'n' {
        Ok(('\n', pos + 1))
    } else if c == 'r' {
        Ok(('\r', pos + 1))
    } else if c == 't' {
        Ok(('\t', pos + 1))
    } else if c == 'u' {
        match hex_char(s, pos) {
            Ok(p) => Ok(p),
            Err(e) => match e {
                ParseError::Syntax(f) => Err(ParseError::Syntax(push_ctx(f, Ctx::Escape, pos))),
                ParseError::Fatal => Err(ParseError::Fatal),
            },
        }
    } else {
        Err(ParseError::Syntax(frames1(Ctx::Escape, pos)))
    }
}

/// A string-content outcome with decoded text already accumulated before it.
pub open spec fn sb_combine(prefix: Seq<char>, o: StrOut) -> StrOut {
    match o {
        StrOut::Hit(d, e) => StrOut::Hit(prefix + d, e),
        f => f,
    }
}

/// String content after the opening quote: chunks of unescaped characters
/// and escapes, decoded and concatenated; stops at the closing quote, at a
/// control character, or at the end of the input, and leaves the stop
/// character unconsumed.
pub fn parse_str(s: &Vec<char>, pos: usize) -> (r: Result<(String, usize), ParseError>)
    requires
        pos <= s@.len(),
    ensures
        str_matches(r, sp_str_body(s@, pos as int), pos as int, s@.len() as int),
{
    let ghost goal = sp_str_body(s@, pos as int);
    let mut cur = pos;
    let mut out: Vec<char> = Vec::new();
    proof {
        if let StrOut::Hit(d, e) = sp_str_body(s@, pos as int) {
            assert(Seq::<char>::empty() + d =~= d);
        }
    }
    while cur < s.len() && (s[cur] == '\\' || (s[cur] != '"' && (s[cur] as u32) > 0x1F))
        invariant
            pos <= cur <= s@.len(),
            sb_combine(out@, sp_str_body(s@, cur as int)) == sp_str_body(s@, pos as int),
        decreases s@.len() - cur,
    {
        let c = s[cur];
        if c != '\\' {
            let ghost out0 = out@;
            out.push(c);
            proof {
                if let StrOut::Hit(d, e) = sp_str_body(s@, cur + 1) {
                    assert(out0.push(c) + d =~= out0 + (seq![c] + d));
                }
            }
            cur = cur + 1;
        } else {
            match escapable(s, cur + 1) {
                Ok(p) => {
                    let (ch, e) = p;
                    let ghost out0 = out@;
                    out.push(ch);
                    proof {
                        if let StrOut::Hit(d, e2) = sp_str_body(s@, e as int) {
                            assert(out0.push(ch) + d =~= out0 + (seq![ch] + d));
                        }
                    }
                    cur = e;
                },
                Err(e) => {
                    return Err(e);
                },
            }
        }
    }
    proof {
        assert(out@ + Seq::<char>::empty() =~= out@);
    }
    let t = chars_to_string(&out);
    Ok((t, cur))
}

/// The string production: an immediate pair of quotes for the empty string,
/// or quote, decoded content, quote.
pub fn parse_string(s: &Vec<char>, pos: usize) -> (r: Result<(String, usize), ParseError>)
    requires
        pos <= s@.len(),
    ensures
        str_matches(r, sp_string(s@, pos as int), pos as int + 2, s@.len() as int),
{
    let len = s.len();
    if pos < len && s[pos] == '"' {
        if pos + 1 < len && s[pos + 1] == '"' {
            return Ok((String::new(), pos + 2));
        }
        match parse_str(s, pos + 1) {
            Ok(p) => {
                let (d, e) = p;
                if e < len && s[e] == '"' {
                    Ok((d, e + 1))
                } else {
                    Err(ParseError::Syntax(frames1(Ctx::Str, pos)))
                }
            },
            Err(e) => match e {
                ParseError::Syntax(f) => Err(ParseError::Syntax(push_ctx(f, Ctx::Str, pos))),
                ParseError::Fatal => Err(ParseError::Fatal),
            },
        }
    } else {
        Err(ParseError::Syntax(frames1(Ctx::Str, pos)))
    }
}

/// The boolean literals `true` and `false`, matched exactly.
pub fn parse_bool(s: &Vec<char>, pos: usize) -> (r: Result<(bool, usize), ParseError>)
    requires
        pos <= s@.len(),
    ensures
        ({
            match sp_bool(s@, pos as int) {
                Some(be) => r matches Ok(p) && p.0 == be.0 && p.1 as int == be.1,
                None => r matches Err(ParseError::Syntax(f)) && f@.len() == 0,
            }
        }),
{
    let len = s.len();
    if pos < len && len - pos >= 5 && s[pos] == 'f' && s[pos + 1] == 'a' && s[pos + 2] == 'l' && s[
        pos + 3
    ] == 's' && s[pos + 4] == 'e' {
        Ok((false, pos + 5))
    } else if pos < len && len - pos >= 4 && s[pos] == 't' && s[pos + 1] == 'r' && s[pos + 2] == 'u'
        && s[pos + 3] == 'e' {
        Ok((true, pos + 4))
    } else {
        Err(ParseError::Syntax(Vec::new()))
    }
}

/// The null literal, matched exactly.
pub fn parse_null(s: &Vec<char>, pos: usize) -> (r: Result<(JsonValue, usize), ParseError>)
    requires
        pos <= s@.len(),
    ensures
        ({
            match sp_null(s@, pos as int) {
                Some(e) => r matches Ok(p) && p.0 is Null && p.1 as int == e,
                None => r matches Err(ParseError::Syntax(f)) && f@.len() == 0,
            }
        }),
{
    let len = s.len();
    if pos < len && len - pos >= 4 && s[pos] == 'n' && s[pos + 1] == 'u' && s[pos + 2] == 'l' && s[
        pos + 3
    ] == 'l' {
        Ok((JsonValue::Null, pos + 4))
    } else {
        Err(ParseError::Syntax(Vec::new()))
    }
}

/// What the executable outcome of a value production must be.
pub open spec fn val_matches(
    r: Result<(JsonValue, usize), ParseError>,
    o: ValOut,
    lo: int,
    len: int,
) -> bool {
    match o {
        ValOut::Hit(m, e) => r matches Ok(p) && model_of(p.0) == m && p.1 as int == e && lo <= e
            <= len,
        ValOut::Fail(fr) => r matches Err(ParseError::Syntax(f)) && frames_of(f@) == fr,
        ValOut::Fatal => r matches Err(ParseError::Fatal),
    }
}

/// What the executable outcome of an array (or element-list) production
/// must be.
pub open spec fn arr_matches(
    r: Result<(Vec<JsonValue>, usize), ParseError>,
    o: ArrOut,
    lo: int,
    len: int,
) -> bool {
    match o {
        ArrOut::Hit(ms, e) => r matches Ok(p) && models_of_seq(p.0@) == ms && p.1 as int == e && lo
            <= e <= len,
        ArrOut::Fail(fr) => r matches Err(ParseError::Syntax(f)) && frames_of(f@) == fr,
        ArrOut::Fatal => r matches Err(ParseError::Fatal),
    }
}

/// What the executable outcome of an object (or pair-list) production must
/// be.
pub open spec fn pairs_matches(
    r: Result<(Vec<(String, JsonValue)>, usize), ParseError>,
    o: ObjOut,
    lo: int,
    len: int,
) -> bool {
    match o {
        ObjOut::Hit(ms, e) => r matches Ok(p) && models_of_pairs(p.0@) == ms && p.1 as int == e
            && lo <= e <= len,
        ObjOut::Fail(fr) => r matches Err(ParseError::Syntax(f)) && frames_of(f@) == fr,
        ObjOut::Fatal => r matches Err(ParseError::Fatal),
    }
}

/// An element-list outcome with elements already accumulated before it.
pub open spec fn ae_combine(prefix: Seq<JsonModel>, o: ArrOut) -> ArrOut {
    match o {
        ArrOut::Hit(ms, e) => ArrOut::Hit(prefix + ms, e),
        f => f,
    }
}

/// A pair-list outcome with pairs already accumulated before it.
pub open spec fn pe_combine(prefix: Seq<(Seq<char>, JsonModel)>, o: ObjOut) -> ObjOut {
    match o {
        ObjOut::Hit(ps, e) => ObjOut::Hit(prefix + ps, e),
        f => f,
    }
}

/// The value production: leading whitespace, one alternative picked by the
/// first character, trailing whitespace.
pub fn parse_value(s: &Vec<char>, pos: usize) -> (r: Result<(JsonValue, usize), ParseError>)
    requires
        pos <= s@.len(),
    ensures
        val_matches(r, sp_value(s@, pos as int), pos as int, s@.len() as int),
    decreases s@.len() - pos, 3int,
{
    let len = s.len();
    let p1 = parse_whitespace(s, pos);
    if p1 == len {
        return Err(ParseError::Syntax(frames1(Ctx::Value, pos)));
    }
    let c = s[p1];
    if c == '"' {
        match parse_string(s, p1) {
            Ok(p) => {
                let e2 = parse_whitespace(s, p.1);
                Ok((JsonValue::String(p.0), e2))
            },
            Err(e) => match e {
                ParseError::Syntax(f) => Err(ParseError::Syntax(push_ctx(f, Ctx::Value, pos))),
                ParseError::Fatal => Err(ParseError::Fatal),
            },
        }
    } else if c == 't' || c == 'f' {
        match parse_bool(s, p1) {
            Ok(p) => {
                let e2 = parse_whitespace(s, p.1);
                Ok((JsonValue::Bool(p.0), e2))
            },
            Err(_) => Err(ParseError::Syntax(frames1(Ctx::Value, pos))),
        }
    } else if (48 <= c as u32 && c as u32 <= 57) || c == '-' || c == '+' {
        match parse_number(s, p1) {
            Ok(p) => {
                let e2 = parse_whitespace(s, p.1);
                Ok((JsonValue::Number(p.0), e2))
            },
            Err(e) => match e {
                ParseError::Syntax(_) => Err(ParseError::Syntax(frames1(Ctx::Value, pos))),
                ParseError::Fatal => Err(ParseError::Fatal),
            },
        }
    } else if c == 'n' {
        match parse_null(s, p1) {
            Ok(p) => {
                let e2 = parse_whitespace(s, p.1);
                Ok((p.0, e2))
            },
            Err(_) => Err(ParseError::Syntax(frames1(Ctx::Value, pos))),
        }
    } else if c == '{' {
        match parse_object(s, p1) {
            Ok(p) => {
                let e2 = parse_whitespace(s, p.1);
                proof {
                    lemma_model_object(p.0);
                }
                Ok((JsonValue::Object(p.0), e2))
            },
            Err(e) => match e {
                ParseError::Syntax(f) => Err(ParseError::Syntax(push_ctx(f, Ctx::Value, pos))),
                ParseError::Fatal => Err(ParseError::Fatal),
            },
        }
    } else if c == '[' {
        match parse_array(s, p1) {
            Ok(p) => {
                let e2 = parse_whitespace(s, p.1);
                proof {
                    lemma_model_array(p.0);
                }
                Ok((JsonValue::Array(p.0), e2))
            },
            Err(e) => match e {
                ParseError::Syntax(f) => Err(ParseError::Syntax(push_ctx(f, Ctx::Value, pos))),
                ParseError::Fatal => Err(ParseError::Fatal),
            },
        }
    } else {
        Err(ParseError::Syntax(frames1(Ctx::Value, pos)))
    }
}

/// One or more comma-separated values: a comma commits to another value.
fn parse_elems(s: &Vec<char>, pos: usize) -> (r: Result<(Vec<JsonValue>, usize), ParseError>)
    requires
        pos <= s@.len(),
    ensures
        arr_matches(r, sp_elems(s@, pos as int), pos as int, s@.len() as int),
    decreases s@.len() - pos, 4int,
{
    let len = s.len();
    let mut acc: Vec<JsonValue> = Vec::new();
    let mut cur = pos;
    proof {
        if let ArrOut::Hit(ms, e) = sp_elems(s@, pos as int) {
            assert(Seq::<JsonModel>::empty() + ms =~= ms);
        }
        assert(models_of_seq(acc@) =~= Seq::<JsonModel>::empty());
    }
    loop
        invariant
            pos <= cur <= s@.len(),
            len == s@.len(),
            ae_combine(models_of_seq(acc@), sp_elems(s@, cur as int)) == sp_elems(s@, pos as int),
        decreases s@.len() - cur,
    {
        match parse_value(s, cur) {
            Err(e) => {
                return Err(e);
            },
            Ok(p) => {
                let (v, e) = p;
                let ghost acc0 = acc@;
                acc.push(v);
                proof {
                    assert(models_of_seq(acc0.push(v)) =~= models_of_seq(acc0).push(model_of(v)));
                }
                if e < len && s[e] == ',' {
                    proof {
                        if let ArrOut::Hit(ms, e2) = sp_elems(s@, e + 1) {
                            assert(models_of_seq(acc0).push(model_of(v)) + ms =~= models_of_seq(
                                acc0,
                            ) + (seq![model_of(v)] + ms));
                        }
                    }
                    cur = e + 1;
                } else {
                    proof {
                        assert(models_of_seq(acc0).push(model_of(v)) =~= models_of_seq(acc0)
                            + seq![model_of(v)]);
                    }
                    return Ok((acc, e));
                }
            },
        }
    }
}

/// The array production: bracket, optional elements, bracket.
pub fn parse_array(s: &Vec<char>, pos: usize) -> (r: Result<(Vec<JsonValue>, usize), ParseError>)
    requires
        pos <= s@.len(),
    ensures
        arr_matches(r, sp_array(s@, pos as int), pos as int, s@.len() as int),
    decreases s@.len() - pos, 1int,
{
    let len = s.len();
    if !(pos < len && s[pos] == '[') {
        return Err(ParseError::Syntax(frames1(Ctx::Array, pos)));
    }
    let p1 = parse_whitespace(s, pos + 1);
    if p1 < len && s[p1] == ']' {
        let out: Vec<JsonValue> = Vec::new();
        proof {
            assert(models_of_seq(out@) =~= Seq::<JsonModel>::empty());
        }
        return Ok((out, p1 + 1));
    }
    match parse_elems(s, p1) {
        Ok(p) => {
            if p.1 < len && s[p.1] == ']' {
                Ok((p.0, p.1 + 1))
            } else {
                Err(ParseError::Syntax(frames1(Ctx::Array, pos)))
            }
        },
        Err(e) => match e {
            ParseError::Syntax(f) => Err(ParseError::Syntax(push_ctx(f, Ctx::Array, pos))),
            ParseError::Fatal => Err(ParseError::Fatal),
        },
    }
}

/// Binds `k` to `v` in the entry list: overwrites the entry holding `k`, or
/// appends a new one.
fn obj_update(map: &mut Vec<(String, JsonValue)>, k: String, v: JsonValue)
    ensures
        models_of_pairs(final(map)@) == obj_insert(models_of_pairs(old(map)@), k@, model_of(v)),
{
    let ghost m0 = map@;
    let mut i: usize = 0;
    while i < map.len()
        invariant
            i <= map@.len(),
            map@ == m0,
            old(map)@ == m0,
            forall|j: int| 0 <= j < i ==> (#[trigger] m0[j]).0@ != k@,
        decreases map@.len() - i,
    {
        if map[i].0 == k {
            let ghost gk = k@;
            let ghost gv = model_of(v);
            map.remove(i);
            map.insert(i, (k, v));
            proof {
                assert(map@ =~= m0.update(i as int, (k, v)));
                assert(models_of_pairs(m0)[i as int].0 == gk);
                assert(forall|j: int|
                    0 <= j < i ==> (#[trigger] models_of_pairs(m0)[j]).0 != gk);
                lemma_obj_insert_update(models_of_pairs(m0), gk, gv, i as int);
                assert(models_of_pairs(map@) =~= models_of_pairs(m0).update(i as int, (gk, gv)));
                assert(models_of_pairs(map@) == obj_insert(models_of_pairs(m0), gk, gv));
            }
            return;
        }
        i = i + 1;
    }
    map.push((k, v));
    proof {
        lemma_obj_insert_append(models_of_pairs(m0), k@, model_of(v));
        assert(models_of_pairs(map@) =~= models_of_pairs(m0).push((k@, model_of(v))));
    }
}

/// One or more comma-separated pairs: whitespace, a quoted key, whitespace,
/// a colon, a value; a comma commits to another pair. Returns the pairs raw,
/// in document order.
fn parse_pairs(s: &Vec<char>, pos: usize) -> (r: Result<
    (Vec<(String, JsonValue)>, usize),
    ParseError,
>)
    requires
        pos <= s@.len(),
    ensures
        pairs_matches(r, sp_pairs(s@, pos as int), pos as int, s@.len() as int),
    decreases s@.len() - pos, 4int,
{
    let len = s.len();
    let mut acc: Vec<(String, JsonValue)> = Vec::new();
    let mut cur = pos;
    proof {
        if let ObjOut::Hit(ps, e) = sp_pairs(s@, pos as int) {
            assert(Seq::<(Seq<char>, JsonModel)>::empty() + ps =~= ps);
        }
        assert(models_of_pairs(acc@) =~= Seq::<(Seq<char>, JsonModel)>::empty());
    }
    loop
        invariant
            pos <= cur <= s@.len(),
            len == s@.len(),
            pe_combine(models_of_pairs(acc@), sp_pairs(s@, cur as int)) == sp_pairs(
                s@,
                pos as int,
            ),
        decreases s@.len() - cur,
    {
        let pk = parse_whitespace(s, cur);
        match parse_string(s, pk) {
            Err(e) => {
                return Err(e);
            },
            Ok(kp) => {
                let (k, e1) = kp;
                let p2 = parse_whitespace(s, e1);
                if p2 < len && s[p2] == ':' {
                    match parse_value(s, p2 + 1) {
                        Err(e) => {
                            return Err(e);
                        },
                        Ok(vp) => {
                            let (v, e2) = vp;
                            let ghost gk = k@;
                            let ghost gv = model_of(v);
                            let ghost acc0 = acc@;
                            acc.push((k, v));
                            proof {
                                assert(models_of_pairs(acc0.push((k, v))) =~= models_of_pairs(
                                    acc0,
                                ).push((gk, gv)));
                            }
                            if e2 < len && s[e2] == ',' {
                                proof {
                                    if let ObjOut::Hit(ps, e3) = sp_pairs(s@, e2 + 1) {
                                        assert(models_of_pairs(acc0).push((gk, gv)) + ps
                                            =~= models_of_pairs(acc0) + (seq![(gk, gv)] + ps));
                                    }
                                }
                                cur = e2 + 1;
                            } else {
                                proof {
                                    assert(models_of_pairs(acc0).push((gk, gv))
                                        =~= models_of_pairs(acc0) + seq![(gk, gv)]);
                                }
                                return Ok((acc, e2));
                            }
                        },
                    }
                } else {
                    let f: Vec<Frame> = Vec::new();
                    proof {
                        assert(frames_of(f@) =~= Seq::<(Ctx, int)>::empty());
                    }
                    return Err(ParseError::Syntax(f));
                }
            },
        }
    }
}

/// The object production: brace, optional pairs, brace; a repeated key keeps
/// the value of its last occurrence.
pub fn parse_object(s: &Vec<char>, pos: usize) -> (r: Result<
    (Vec<(String, JsonValue)>, usize),
    ParseError,
>)
    requires
        pos <= s@.len(),
    ensures
        pairs_matches(r, sp_object(s@, pos as int), pos as int, s@.len() as int),
    decreases s@.len() - pos, 1int,
{
    let len = s.len();
    if !(pos < len && s[pos] == '{') {
        return Err(ParseError::Syntax(frames1(Ctx::Object, pos)));
    }
    let p1 = parse_whitespace(s, pos + 1);
    if p1 < len && s[p1] == '}' {
        let out: Vec<(String, JsonValue)> = Vec::new();
        proof {
            assert(models_of_pairs(out@) =~= Seq::<(Seq<char>, JsonModel)>::empty());
        }
        return Ok((out, p1 + 1));
    }
    match parse_pairs(s, p1) {
        Err(e) => match e {
            ParseError::Syntax(f) => Err(ParseError::Syntax(push_ctx(f, Ctx::Object, pos))),
            ParseError::Fatal => Err(ParseError::Fatal),
        },
        Ok(p) => {
            let (raw, e) = p;
            if e < len && s[e] == '}' {
                let ghost raw0 = raw@;
                let mut rest = raw;
                let mut map: Vec<(String, JsonValue)> = Vec::new();
                let ghost mut i: int = 0;
                proof {
                    assert(models_of_pairs(map@) =~= Seq::<(Seq<char>, JsonModel)>::empty());
                    assert(models_of_pairs(raw0).subrange(0, 0) =~= Seq::<
                        (Seq<char>, JsonModel),
                    >::empty());
                    assert(rest@ =~= raw0.subrange(0, raw0.len() as int));
                }
                while rest.len() > 0
                    invariant
                        0 <= i,
                        i + rest@.len() == raw0.len(),
                        rest@ == raw0.subrange(i, raw0.len() as int),
                        models_of_pairs(map@) == obj_insert_all(
                            Seq::empty(),
                            models_of_pairs(raw0).subrange(0, i),
                        ),
                    decreases rest@.len(),
                {
                    let pair = rest.remove(0);
                    let ghost gk = pair.0@;
                    let ghost gv = model_of(pair.1);
                    proof {
                        assert(pair == raw0[i]);
                        assert(rest@ =~= raw0.subrange(i + 1, raw0.len() as int));
                    }
                    let (pk2, pv2) = pair;
                    obj_update(&mut map, pk2, pv2);
                    proof {
                        let pre = models_of_pairs(raw0).subrange(0, i);
                        assert(models_of_pairs(raw0).subrange(0, i + 1) =~= pre.push((gk, gv)));
                        lemma_insert_all_snoc(Seq::empty(), pre, gk, gv);
                        i = i + 1;
                    }
                }
                proof {
                    assert(models_of_pairs(raw0).subrange(0, raw0.len() as int) =~= models_of_pairs(
                        raw0,
                    ));
                }
                Ok((map, e + 1))
            } else {
                Err(ParseError::Syntax(frames1(Ctx::Object, pos)))
            }
        },
    }
}

/// The root production over characters: leading whitespace, an object or an
/// array and nothing else, trailing whitespace.
pub(crate) fn root_chars(s: &Vec<char>) -> (r: Result<(JsonValue, usize), ParseError>)
    ensures
        val_matches(r, sp_root(s@), 0, s@.len() as int),
{
    let len = s.len();
    let p1 = parse_whitespace(s, 0);
    if p1 < len && s[p1] == '{' {
        match parse_object(s, p1) {
            Ok(p) => {
                let e2 = parse_whitespace(s, p.1);
                proof {
                    lemma_model_object(p.0);
                }
                Ok((JsonValue::Object(p.0), e2))
            },
            Err(e) => Err(e),
        }
    } else if p1 < len && s[p1] == '[' {
        match parse_array(s, p1) {
            Ok(p) => {
                let e2 = parse_whitespace(s, p.1);
                proof {
                    lemma_model_array(p.0);
                }
                Ok((JsonValue::Array(p.0), e2))
            },
            Err(e) => Err(e),
        }
    } else {
        Err(ParseError::Syntax(frames1(Ctx::Array, p1)))
    }
}

/// The root production: a document is leading whitespace, an object or an
/// array, trailing whitespace. Returns the tree and the position where the
/// unconsumed remainder starts; the caller treats a remainder as an error.
pub fn parse_root(input: &str) -> (r: Result<(JsonValue, usize), ParseError>)
    ensures
        val_matches(r, sp_root(input@), 0, input@.len() as int),
{
    let chars = str_to_chars(input);
    root_chars(&chars)
}

} // verus!
