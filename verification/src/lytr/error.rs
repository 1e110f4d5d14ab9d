//! Diagnostics of the LYTR 0.1 bootstrap parser, checker and interpreter.

use vstd::prelude::*;
use crate::error::{json_span, json_string, push_json_span, serde_json_escape, ErrorKind, Span};
use crate::text::{nat_decimal, push_char, push_str, push_string, push_usize, string_of};

verus! {

/// A LYTR diagnostic.
#[derive(Clone, Debug, PartialEq, Eq)]
pub enum LytrError {
    Syntax { code: &'static str, span: Span, message: String, fix_hint: String },
    Type { code: &'static str, span: Span, message: String, fix_hint: String },
    Runtime { code: &'static str, span: Span, message: String, fix_hint: String },
}

/// A LYTR diagnostic: kind, code, span, message and hint.
pub struct LytrErrorView {
    pub kind: ErrorKind,
    pub code: Seq<char>,
    pub span: Span,
    pub message: Seq<char>,
    pub fix_hint: Seq<char>,
}

impl View for LytrError {
    type V = LytrErrorView;

    open spec fn view(&self) -> LytrErrorView {
        match *self {
            LytrError::Syntax { code, span, message, fix_hint } =>
                LytrErrorView { kind: ErrorKind::Syntax, code: code@, span, message: message@, fix_hint: fix_hint@ },
            LytrError::Type { code, span, message, fix_hint } =>
                LytrErrorView { kind: ErrorKind::Type, code: code@, span, message: message@, fix_hint: fix_hint@ },
            LytrError::Runtime { code, span, message, fix_hint } =>
                LytrErrorView { kind: ErrorKind::Runtime, code: code@, span, message: message@, fix_hint: fix_hint@ },
        }
    }
}

/// A syntax diagnostic.
pub open spec fn lytr_syntax(code: Seq<char>, span: Span, message: Seq<char>, fix_hint: Seq<char>) -> LytrErrorView {
    LytrErrorView { kind: ErrorKind::Syntax, code, span, message, fix_hint }
}

/// A type diagnostic.
pub open spec fn lytr_type(code: Seq<char>, span: Span, message: Seq<char>, fix_hint: Seq<char>) -> LytrErrorView {
    LytrErrorView { kind: ErrorKind::Type, code, span, message, fix_hint }
}

/// A runtime diagnostic.
pub open spec fn lytr_runtime(code: Seq<char>, span: Span, message: Seq<char>, fix_hint: Seq<char>) -> LytrErrorView {
    LytrErrorView { kind: ErrorKind::Runtime, code, span, message, fix_hint }
}

/// A name's bytes read as characters.
pub open spec fn name_chars(name: Seq<u8>) -> Seq<char> {
    name.map_values(|b: u8| b as char)
}

/// The message for a name that nothing binds.
pub open spec fn unknown_variable_spec(name: Seq<u8>) -> Seq<char> {
    "unknown variable `"@ + name_chars(name) + "`"@
}

/// The message for a name that nothing binds.
pub fn unknown_variable_message(name: &Vec<u8>) -> (m: String)
    ensures
        m@ == unknown_variable_spec(name@),
{
    let mut m = string_of("unknown variable `");
    let mut k: usize = 0;
    while k < name.len()
        invariant
            k <= name@.len(),
            m@ == "unknown variable `"@ + name_chars(name@.take(k as int)),
        decreases name@.len() - k,
    {
        push_char(&mut m, name[k] as char);
        assert(name_chars(name@.take(k + 1)) == name_chars(name@.take(k as int)).push(name@[k as int] as char));
        k = k + 1;
    }
    assert(name@.take(name@.len() as int) == name@);
    push_str(&mut m, "`");
    m
}

/// The parts of a diagnostic: kind name, code, span, message, hint.
pub open spec fn lytr_parts(e: LytrError) -> (Seq<char>, Seq<char>, Span, Seq<char>, Seq<char>) {
    match e {
        LytrError::Syntax { code, span, message, fix_hint } => ("syntax"@, code@, span, message@, fix_hint@),
        LytrError::Type { code, span, message, fix_hint } => ("type"@, code@, span, message@, fix_hint@),
        LytrError::Runtime { code, span, message, fix_hint } => ("runtime"@, code@, span, message@, fix_hint@),
    }
}

/// The JSON line of a LYTR diagnostic.
pub open spec fn lytr_json_spec(e: LytrError) -> Seq<char> {
    let (kind, code, span, message, fix_hint) = lytr_parts(e);
    "{\"kind\":\""@ + kind + "\",\"code\":\""@ + code + "\","@ + json_span(span)
        + ",\"message\":"@ + json_string(message) + ",\"fix_hint\":"@ + json_string(fix_hint) + "}"@
}

/// The one-line text of a LYTR diagnostic.
pub open spec fn lytr_display_spec(e: LytrError) -> Seq<char> {
    let (kind, code, span, message, fix_hint) = lytr_parts(e);
    "["@ + code + "] "@ + message + " (bytes "@ + nat_decimal(span.start as nat) + ".."@
        + nat_decimal(span.end as nat) + ") \u{2014} "@ + fix_hint
}

impl LytrError {
    fn parts(&self) -> (r: (&'static str, &'static str, Span, &String, &String))
        ensures
            (r.0@, r.1@, r.2, r.3@, r.4@) == lytr_parts(*self),
    {
        match self {
            LytrError::Syntax { code, span, message, fix_hint } => ("syntax", *code, *span, message, fix_hint),
            LytrError::Type { code, span, message, fix_hint } => ("type", *code, *span, message, fix_hint),
            LytrError::Runtime { code, span, message, fix_hint } => ("runtime", *code, *span, message, fix_hint),
        }
    }

    /// JSON envelope for tooling: kind, code, span, message and hint.
    pub fn to_json_line(&self) -> (out: String)
        ensures
            out@ == lytr_json_spec(*self),
    {
        let (kind, code, span, message, fix_hint) = self.parts();
        let mut out = string_of("{\"kind\":\"");
        push_str(&mut out, kind);
        push_str(&mut out, "\",\"code\":\"");
        push_str(&mut out, code);
        push_str(&mut out, "\",");
        push_json_span(&mut out, span);
        push_str(&mut out, ",\"message\":");
        push_string(&mut out, &serde_json_escape(message.as_str()));
        push_str(&mut out, ",\"fix_hint\":");
        push_string(&mut out, &serde_json_escape(fix_hint.as_str()));
        push_str(&mut out, "}");
        out
    }

    /// Text for people: `[code] message (bytes start..end) — hint`.
    pub fn to_display_string(&self) -> (out: String)
        ensures
            out@ == lytr_display_spec(*self),
    {
        let (_kind, code, span, message, fix_hint) = self.parts();
        let mut out = string_of("[");
        push_str(&mut out, code);
        push_str(&mut out, "] ");
        push_string(&mut out, message);
        push_str(&mut out, " (bytes ");
        push_usize(&mut out, span.start);
        push_str(&mut out, "..");
        push_usize(&mut out, span.end);
        push_str(&mut out, ") \u{2014} ");
        push_string(&mut out, fix_hint);
        out
    }
}

} // verus!
