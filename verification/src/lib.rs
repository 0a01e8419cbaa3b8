//! A JSON decoding engine: one call turns a document held in memory into a
//! tree value, or into one human-readable diagnostic.
//!
//! The grammar lives in `grammar` as specification functions; `parser` holds
//! the executable recursive descent, proved to return exactly the grammar's
//! outcomes; `value` gives the tree and its mathematical model; `diag` the
//! failure traces and their rendering. The root of a document must be an
//! object or an array; a bare scalar is rejected, as is any text left after
//! the root value.

use vstd::prelude::*;

pub mod diag;
pub mod grammar;
pub mod parser;
mod textops;
pub mod value;

use diag::ParseError;
use diag::render_trace;
use diag::trace_text;
use grammar::DocOut;
use grammar::sp_doc;
use parser::root_chars;
use textops::str_to_chars;
use value::JsonValue;
use value::model_of;

verus! {

/// Decodes one whole document. Returns the tree exactly when the text is a
/// document of the grammar; otherwise one diagnostic: the rendered context
/// trace for a syntax error, a fixed message for text trailing the root
/// value, and another for an irrecoverable scan.
pub fn parse(s: &str) -> (r: Result<JsonValue, String>)
    ensures
        ({
            match sp_doc(s@) {
                DocOut::Val(m) => r matches Ok(v) && model_of(v) == m,
                DocOut::TrailingData => r matches Err(msg) && msg@ == "unexpected trailing data"@,
                DocOut::Syn(fr) => r matches Err(msg) && msg@ == trace_text(s@, fr),
                DocOut::Fatal => r matches Err(msg) && msg@ == "failure"@,
            }
        }),
{
    let chars = str_to_chars(s);
    match root_chars(&chars) {
        Ok(p) => {
            let (v, e) = p;
            if e == chars.len() {
                Ok(v)
            } else {
                Err(String::from_str("unexpected trailing data"))
            }
        },
        Err(e) => match e {
            ParseError::Syntax(f) => Err(render_trace(&chars, &f)),
            ParseError::Fatal => Err(String::from_str("failure")),
        },
    }
}

} // verus!
