//! Source spans and the diagnostics of the LIR toolchain, with their JSON and text renderings.

use vstd::prelude::*;
use crate::text::{chars_of, hex4, nat_decimal, push_char, push_hex4, push_str, push_string, push_usize, string_of};

verus! {

/// Byte offsets into the UTF-8 source (inclusive start, exclusive end).
#[derive(Clone, Copy, Debug, PartialEq, Eq, Structural)]
pub struct Span {
    pub start: usize,
    pub end: usize,
}

impl Span {
    pub fn new(start: usize, end: usize) -> (r: Span)
        ensures
            r == (Span { start, end }),
    {
        Span { start, end }
    }

    /// The smallest span covering both: least start, greatest end.
    pub fn merge(a: Span, b: Span) -> (r: Span)
        ensures
            r == merge_spec(a, b),
    {
        Span {
            start: if a.start <= b.start { a.start } else { b.start },
            end: if a.end >= b.end { a.end } else { b.end },
        }
    }
}

/// Least start and greatest end of two spans.
pub open spec fn merge_spec(a: Span, b: Span) -> Span {
    Span {
        start: if a.start <= b.start { a.start } else { b.start },
        end: if a.end >= b.end { a.end } else { b.end },
    }
}

/// `merge` is commutative and associative, and the merged span covers both operands.
pub proof fn lemma_merge_laws(a: Span, b: Span, c: Span)
    ensures
        merge_spec(a, b) == merge_spec(b, a),
        merge_spec(merge_spec(a, b), c) == merge_spec(a, merge_spec(b, c)),
        merge_spec(a, b).start <= a.start && merge_spec(a, b).start <= b.start,
        merge_spec(a, b).end >= a.end && merge_spec(a, b).end >= b.end,
        merge_spec(a, a) == a,
{
}

/// A diagnostic of the language: syntax, type, or runtime error.
#[derive(Clone, Debug, PartialEq, Eq)]
pub enum LirError {
    Syntax { code: &'static str, span: Span, message: String, fix_hint: String },
    Type {
        code: &'static str,
        span: Span,
        message: String,
        fix_hint: String,
        stage_index: Option<usize>,
    },
    Runtime {
        code: &'static str,
        span: Span,
        message: String,
        fix_hint: String,
        stage_index: usize,
        element_index: Option<usize>,
    },
}

/// Which family a diagnostic belongs to.
#[derive(Clone, Copy, Debug, PartialEq, Eq, Structural)]
pub enum ErrorKind {
    Syntax,
    Type,
    Runtime,
}

/// What a diagnostic says apart from its prose: kind, code, span and indices.
pub struct ErrorView {
    pub kind: ErrorKind,
    pub code: Seq<char>,
    pub span: Span,
    pub stage_index: Option<usize>,
    pub element_index: Option<usize>,
}

impl View for LirError {
    type V = ErrorView;

    open spec fn view(&self) -> ErrorView {
        match *self {
            LirError::Syntax { code, span, .. } => ErrorView {
                kind: ErrorKind::Syntax,
                code: code@,
                span,
                stage_index: None,
                element_index: None,
            },
            LirError::Type { code, span, stage_index, .. } => ErrorView {
                kind: ErrorKind::Type,
                code: code@,
                span,
                stage_index,
                element_index: None,
            },
            LirError::Runtime { code, span, stage_index, element_index, .. } => ErrorView {
                kind: ErrorKind::Runtime,
                code: code@,
                span,
                stage_index: Some(stage_index),
                element_index,
            },
        }
    }
}

/// The prose of a diagnostic: its message and hint.
pub open spec fn lir_prose(e: LirError) -> (Seq<char>, Seq<char>) {
    match e {
        LirError::Syntax { message, fix_hint, .. } => (message@, fix_hint@),
        LirError::Type { message, fix_hint, .. } => (message@, fix_hint@),
        LirError::Runtime { message, fix_hint, .. } => (message@, fix_hint@),
    }
}

/// A syntax diagnostic with the given code and span.
pub open spec fn syntax_err(code: Seq<char>, span: Span) -> ErrorView {
    ErrorView { kind: ErrorKind::Syntax, code, span, stage_index: None, element_index: None }
}

/// A type diagnostic with the given code, span and stage.
pub open spec fn type_err(code: Seq<char>, span: Span, stage: Option<usize>) -> ErrorView {
    ErrorView { kind: ErrorKind::Type, code, span, stage_index: stage, element_index: None }
}

/// A runtime diagnostic with the given code, span, stage and element.
pub open spec fn runtime_err(code: Seq<char>, span: Span, stage: usize, elem: Option<usize>) -> ErrorView {
    ErrorView { kind: ErrorKind::Runtime, code, span, stage_index: Some(stage), element_index: elem }
}

/// Whether `c` is a control character (Unicode general category Cc).
pub open spec fn is_control(c: char) -> bool {
    (c as u32) < 0x20 || (0x7f <= (c as u32) && (c as u32) < 0xa0)
}

/// JSON escape of one character.
pub open spec fn escape_char(c: char) -> Seq<char> {
    if c == '\\' {
        seq!['\\', '\\']
    } else if c == '"' {
        seq!['\\', '"']
    } else if c == '\n' {
        seq!['\\', 'n']
    } else if c == '\r' {
        seq!['\\', 'r']
    } else if c == '\t' {
        seq!['\\', 't']
    } else if is_control(c) {
        seq!['\\', 'u'] + hex4(c as u32 as int)
    } else {
        seq![c]
    }
}

/// JSON escape of a character sequence (without the enclosing quotes).
pub open spec fn escape_chars(s: Seq<char>) -> Seq<char>
    decreases s.len(),
{
    if s.len() == 0 {
        Seq::empty()
    } else {
        escape_chars(s.drop_last()) + escape_char(s.last())
    }
}

/// A JSON string literal holding `s`.
pub open spec fn json_string(s: Seq<char>) -> Seq<char> {
    seq!['"'] + escape_chars(s) + seq!['"']
}

/// JSON rendering of an optional index: the number, or `null`.
pub open spec fn json_opt_index(i: Option<usize>) -> Seq<char> {
    match i {
        Some(v) => nat_decimal(v as nat),
        None => seq!['n', 'u', 'l', 'l'],
    }
}

/// Debug rendering of an optional index: `Some(n)` or `None`.
pub open spec fn debug_opt_index(i: Option<usize>) -> Seq<char> {
    match i {
        Some(v) => seq!['S', 'o', 'm', 'e', '('] + nat_decimal(v as nat) + seq![')'],
        None => seq!['N', 'o', 'n', 'e'],
    }
}

/// Escaped JSON string literal for `s`.
pub fn serde_json_escape(s: &str) -> (out: String)
    ensures
        out@ == json_string(s@),
{
    let cs = chars_of(s);
    let mut out = String::new();
    push_char(&mut out, '"');
    let mut k: usize = 0;
    while k < cs.len()
        invariant
            k <= cs@.len(),
            cs@ == s@,
            out@ == seq!['"'] + escape_chars(cs@.take(k as int)),
        decreases cs.len() - k,
    {
        let ch = cs[k];
        let ghost before = out@;
        if ch == '\\' {
            push_char(&mut out, '\\');
            push_char(&mut out, '\\');
        } else if ch == '"' {
            push_char(&mut out, '\\');
            push_char(&mut out, '"');
        } else if ch == '\n' {
            push_char(&mut out, '\\');
            push_char(&mut out, 'n');
        } else if ch == '\r' {
            push_char(&mut out, '\\');
            push_char(&mut out, 'r');
        } else if ch == '\t' {
            push_char(&mut out, '\\');
            push_char(&mut out, 't');
        } else if (ch as u32) < 0x20 || (0x7f <= (ch as u32) && (ch as u32) < 0xa0) {
            push_char(&mut out, '\\');
            push_char(&mut out, 'u');
            push_hex4(&mut out, ch as u32);
        } else {
            push_char(&mut out, ch);
        }
        assert(out@ == before + escape_char(ch));
        assert(cs@.take(k + 1).drop_last() == cs@.take(k as int));
        k = k + 1;
    }
    assert(cs@.take(cs@.len() as int) == cs@);
    push_char(&mut out, '"');
    out
}

/// JSON rendering of an optional stage index.
fn serde_json_stage(s: &Option<usize>) -> (out: String)
    ensures
        out@ == json_opt_index(*s),
{
    let mut out = String::new();
    match s {
        Some(i) => push_usize(&mut out, *i),
        None => {
            push_char(&mut out, 'n');
            push_char(&mut out, 'u');
            push_char(&mut out, 'l');
            push_char(&mut out, 'l');
        },
    }
    out
}

/// JSON rendering of an optional element index.
fn serde_json_elem(s: &Option<usize>) -> (out: String)
    ensures
        out@ == json_opt_index(*s),
{
    serde_json_stage(s)
}

/// Debug rendering (`Some(n)` / `None`) of an optional index.
fn debug_opt(s: &Option<usize>) -> (out: String)
    ensures
        out@ == debug_opt_index(*s),
{
    let mut out = String::new();
    match s {
        Some(i) => {
            push_char(&mut out, 'S');
            push_char(&mut out, 'o');
            push_char(&mut out, 'm');
            push_char(&mut out, 'e');
            push_char(&mut out, '(');
            push_usize(&mut out, *i);
            push_char(&mut out, ')');
        },
        None => {
            push_char(&mut out, 'N');
            push_char(&mut out, 'o');
            push_char(&mut out, 'n');
            push_char(&mut out, 'e');
        },
    }
    out
}

/// JSON object line for command-line misuse: kind `cli`, the code, and the escaped message.
pub open spec fn cli_json_spec(code: Seq<char>, message: Seq<char>) -> Seq<char> {
    "{\"kind\":\"cli\",\"code\":\""@ + code + "\",\"message\":"@ + json_string(message) + "}"@
}

/// JSON line for CLI / agent misuse (not a [`LirError`] from the language).
pub fn cli_json_line(code: &'static str, message: &str) -> (out: String)
    ensures
        out@ == cli_json_spec(code@, message@),
{
    let mut out = string_of("{\"kind\":\"cli\",\"code\":\"");
    push_str(&mut out, code);
    push_str(&mut out, "\",\"message\":");
    let esc = serde_json_escape(message);
    push_string(&mut out, &esc);
    push_str(&mut out, "}");
    out
}

/// `"span":{"start":S,"end":E}` as it appears inside a JSON diagnostic.
pub open spec fn json_span(span: Span) -> Seq<char> {
    "\"span\":{\"start\":"@ + nat_decimal(span.start as nat) + ",\"end\":"@ + nat_decimal(span.end as nat) + "}"@
}

/// The JSON line of a diagnostic.
pub open spec fn error_json_spec(e: LirError) -> Seq<char> {
    match e {
        LirError::Syntax { code, span, message, fix_hint } =>
            "{\"kind\":\"syntax\",\"code\":\""@ + code@ + "\","@ + json_span(span)
                + ",\"message\":"@ + json_string(message@) + ",\"fix_hint\":"@ + json_string(fix_hint@) + "}"@,
        LirError::Type { code, span, message, fix_hint, stage_index } =>
            "{\"kind\":\"type\",\"code\":\""@ + code@ + "\","@ + json_span(span)
                + ",\"stage_index\":"@ + json_opt_index(stage_index)
                + ",\"message\":"@ + json_string(message@) + ",\"fix_hint\":"@ + json_string(fix_hint@) + "}"@,
        LirError::Runtime { code, span, message, fix_hint, stage_index, element_index } =>
            "{\"kind\":\"runtime\",\"code\":\""@ + code@ + "\","@ + json_span(span)
                + ",\"stage_index\":"@ + nat_decimal(stage_index as nat)
                + ",\"element_index\":"@ + json_opt_index(element_index)
                + ",\"message\":"@ + json_string(message@) + ",\"fix_hint\":"@ + json_string(fix_hint@) + "}"@,
    }
}

/// Human-readable one-line rendering of a diagnostic.
pub open spec fn error_display_spec(e: LirError) -> Seq<char> {
    match e {
        LirError::Syntax { code, span, message, fix_hint } =>
            "["@ + code@ + "] "@ + message@ + " (bytes "@ + nat_decimal(span.start as nat) + ".."@
                + nat_decimal(span.end as nat) + ") \u{2014} "@ + fix_hint@,
        LirError::Type { code, span, message, fix_hint, stage_index } =>
            "["@ + code@ + "] "@ + message@ + " (bytes "@ + nat_decimal(span.start as nat) + ".."@
                + nat_decimal(span.end as nat) + ") stage="@ + debug_opt_index(stage_index) + " \u{2014} "@ + fix_hint@,
        LirError::Runtime { code, span, message, fix_hint, stage_index, element_index } =>
            "["@ + code@ + "] "@ + message@ + " (bytes "@ + nat_decimal(span.start as nat) + ".."@
                + nat_decimal(span.end as nat) + ") stage="@ + nat_decimal(stage_index as nat) + " elem="@
                + debug_opt_index(element_index) + " \u{2014} "@ + fix_hint@,
    }
}

/// Appends `"span":{"start":S,"end":E}`.
pub fn push_json_span(out: &mut String, span: Span)
    ensures
        final(out)@ == old(out)@ + json_span(span),
{
    push_str(out, "\"span\":{\"start\":");
    push_usize(out, span.start);
    push_str(out, ",\"end\":");
    push_usize(out, span.end);
    push_str(out, "}");
}

impl LirError {
    /// Minimal JSON envelope for tooling: kind, code, span, indices, message and hint.
    pub fn to_json_line(&self) -> (out: String)
        ensures
            out@ == error_json_spec(*self),
    {
        match self {
            LirError::Syntax { code, span, message, fix_hint } => {
                let mut out = string_of("{\"kind\":\"syntax\",\"code\":\"");
                push_str(&mut out, code);
                push_str(&mut out, "\",");
                push_json_span(&mut out, *span);
                push_str(&mut out, ",\"message\":");
                push_string(&mut out, &serde_json_escape(message.as_str()));
                push_str(&mut out, ",\"fix_hint\":");
                push_string(&mut out, &serde_json_escape(fix_hint.as_str()));
                push_str(&mut out, "}");
                out
            },
            LirError::Type { code, span, message, fix_hint, stage_index } => {
                let mut out = string_of("{\"kind\":\"type\",\"code\":\"");
                push_str(&mut out, code);
                push_str(&mut out, "\",");
                push_json_span(&mut out, *span);
                push_str(&mut out, ",\"stage_index\":");
                push_string(&mut out, &serde_json_stage(stage_index));
                push_str(&mut out, ",\"message\":");
                push_string(&mut out, &serde_json_escape(message.as_str()));
                push_str(&mut out, ",\"fix_hint\":");
                push_string(&mut out, &serde_json_escape(fix_hint.as_str()));
                push_str(&mut out, "}");
                out
            },
            LirError::Runtime { code, span, message, fix_hint, stage_index, element_index } => {
                let mut out = string_of("{\"kind\":\"runtime\",\"code\":\"");
                push_str(&mut out, code);
                push_str(&mut out, "\",");
                push_json_span(&mut out, *span);
                push_str(&mut out, ",\"stage_index\":");
                push_usize(&mut out, *stage_index);
                push_str(&mut out, ",\"element_index\":");
                push_string(&mut out, &serde_json_elem(element_index));
                push_str(&mut out, ",\"message\":");
                push_string(&mut out, &serde_json_escape(message.as_str()));
                push_str(&mut out, ",\"fix_hint\":");
                push_string(&mut out, &serde_json_escape(fix_hint.as_str()));
                push_str(&mut out, "}");
                out
            },
        }
    }

    /// One-line human-readable rendering: `[CODE] message (bytes S..E) ... — hint`.
    pub fn to_display_string(&self) -> (out: String)
        ensures
            out@ == error_display_spec(*self),
    {
        match self {
            LirError::Syntax { code, span, message, fix_hint } => {
                let mut out = string_of("[");
                push_str(&mut out, code);
                push_str(&mut out, "] ");
                push_string(&mut out, message);
                push_str(&mut out, " (bytes ");
                push_usize(&mut out, span.start);
                push_str(&mut out, "..");
                push_usize(&mut out, span.end);
                push_str(&mut out, ") \u{2014} ");
                push_string(&mut out, fix_hint);
                out
            },
            LirError::Type { code, span, message, fix_hint, stage_index } => {
                let mut out = string_of("[");
                push_str(&mut out, code);
                push_str(&mut out, "] ");
                push_string(&mut out, message);
                push_str(&mut out, " (bytes ");
                push_usize(&mut out, span.start);
                push_str(&mut out, "..");
                push_usize(&mut out, span.end);
                push_str(&mut out, ") stage=");
                push_string(&mut out, &debug_opt(stage_index));
                push_str(&mut out, " \u{2014} ");
                push_string(&mut out, fix_hint);
                out
            },
            LirError::Runtime { code, span, message, fix_hint, stage_index, element_index } => {
                let mut out = string_of("[");
                push_str(&mut out, code);
                push_str(&mut out, "] ");
                push_string(&mut out, message);
                push_str(&mut out, " (bytes ");
                push_usize(&mut out, span.start);
                push_str(&mut out, "..");
                push_usize(&mut out, span.end);
                push_str(&mut out, ") stage=");
                push_usize(&mut out, *stage_index);
                push_str(&mut out, " elem=");
                push_string(&mut out, &debug_opt(element_index));
                push_str(&mut out, " \u{2014} ");
                push_string(&mut out, fix_hint);
                out
            },
        }
    }
}

} // verus!

verus! {

/// A syntax diagnostic.
pub fn syntax_error(code: &'static str, span: Span, message: String, fix_hint: &str) -> (e: LirError)
    ensures
        e@ == syntax_err(code@, span),
        e matches LirError::Syntax { message: m, fix_hint: h, .. } && m@ == message@ && h@ == fix_hint@,
{
    LirError::Syntax { code, span, message, fix_hint: string_of(fix_hint) }
}

/// A type diagnostic.
pub fn type_error(code: &'static str, span: Span, message: &str, fix_hint: &str, stage_index: Option<usize>) -> (e: LirError)
    ensures
        e@ == type_err(code@, span, stage_index),
        e matches LirError::Type { message: m, fix_hint: h, .. } && m@ == message@ && h@ == fix_hint@,
{
    LirError::Type { code, span, message: string_of(message), fix_hint: string_of(fix_hint), stage_index }
}

/// A runtime diagnostic.
pub fn runtime_error(
    code: &'static str,
    span: Span,
    message: &str,
    fix_hint: &str,
    stage_index: usize,
    element_index: Option<usize>,
) -> (e: LirError)
    ensures
        e@ == runtime_err(code@, span, stage_index, element_index),
        e matches LirError::Runtime { message: m, fix_hint: h, .. } && m@ == message@ && h@ == fix_hint@,
{
    LirError::Runtime {
        code,
        span,
        message: string_of(message),
        fix_hint: string_of(fix_hint),
        stage_index,
        element_index,
    }
}

} // verus!
