//! WebAssembly support: the LLVM IR of [`crate::llvm_ir::emit_llvm_ir`] with its module
//! header rewritten for `wasm32-unknown-unknown`, and the diagnostic used when no clang
//! can compile it. Running clang is the program's business.

use vstd::prelude::*;
use crate::ast::Program;
use crate::error::{type_err, LirError, Span};
use crate::input_parse::trim_start_ws;
use crate::llvm_ir::{emit_llvm_ir, module_text, plan_spec};
use crate::parse::newline_from;
use crate::text::{chars_of, push_char, push_str, push_string, string_of};

verus! {

/// LLVM IR `target datalayout` suitable for `wasm32-unknown-unknown`.
pub const WASM_DATALAYOUT: &'static str = "e-m:e-p:32:32-p10:8:8-p20:8:8-i64:64-n32:64-S128";

/// Target triple of the WebAssembly backend.
pub const WASM_TRIPLE: &'static str = "wasm32-unknown-unknown";

/// Whether `s` starts with `p`.
pub open spec fn starts_with(s: Seq<char>, p: Seq<char>) -> bool {
    p.len() <= s.len() && s.take(p.len() as int) == p
}

/// One line of the module, adapted: the data layout and the target triple lines (after any
/// leading white space) are replaced; every other line stays.
pub open spec fn adapt_line(l: Seq<char>) -> Seq<char> {
    let t = trim_start_ws(l);
    if starts_with(t, "target datalayout ="@) {
        "target datalayout = \""@ + WASM_DATALAYOUT@ + "\""@
    } else if starts_with(t, "target triple ="@) {
        "target triple = \""@ + WASM_TRIPLE@ + "\""@
    } else {
        l
    }
}

/// The lines of `s` from position `i` on (as `str::lines` splits them: at `\n`, dropping
/// one `\r` before it, with no empty line after a final `\n`), each adapted, joined with
/// `\n`; `first` says whether the line at `i` is the first one.
pub open spec fn adapt_from(s: Seq<char>, i: int, first: bool) -> Seq<char>
    decreases s.len() - i,
{
    if i < 0 || i >= s.len() {
        Seq::empty()
    } else {
        let j = newline_from(s, i);
        let piece = s.subrange(i, j);
        let line = if j < s.len() && piece.len() > 0 && piece.last() == '\r' { piece.drop_last() } else { piece };
        let sep = if first { Seq::<char>::empty() } else { "\n"@ };
        if i < j + 1 && j < s.len() {
            sep + adapt_line(line) + adapt_from(s, j + 1, false)
        } else {
            sep + adapt_line(line)
        }
    }
}

proof fn lemma_newline_from(s: Seq<char>, i: int)
    requires
        0 <= i <= s.len(),
    ensures
        i <= newline_from(s, i) <= s.len(),
        newline_from(s, i) < s.len() ==> s[newline_from(s, i)] == '\n',
    decreases s.len() - i,
{
    if i < s.len() && s[i] != '\n' {
        lemma_newline_from(s, i + 1);
    }
}

/// No line break between `i` and `newline_from(s, i)`.
proof fn lemma_newline_scan(s: Seq<char>, i: int)
    requires
        0 <= i <= s.len(),
    ensures
        forall|k: int| i <= k < newline_from(s, i) ==> s[k] != '\n',
    decreases s.len() - i,
{
    if i < s.len() && s[i] != '\n' {
        lemma_newline_scan(s, i + 1);
    }
}

/// Skipping characters that are not line breaks does not move the next line break.
proof fn lemma_newline_skip(s: Seq<char>, i: int, m: int)
    requires
        0 <= i <= m <= s.len(),
        forall|k: int| i <= k < m ==> s[k] != '\n',
    ensures
        newline_from(s, i) == newline_from(s, m),
    decreases m - i,
{
    if i < m {
        lemma_newline_skip(s, i + 1, m);
    }
}

/// The next line break of `a + b` after `a` is found in `b`.
proof fn lemma_newline_shift(a: Seq<char>, b: Seq<char>, k: int)
    requires
        0 <= k <= b.len(),
    ensures
        newline_from(a + b, a.len() + k) == a.len() + newline_from(b, k),
    decreases b.len() - k,
{
    if k < b.len() {
        assert((a + b)[a.len() + k] == b[k]);
        if b[k] != '\n' {
            lemma_newline_shift(a, b, k + 1);
        }
    }
}

/// Adapting the lines of `a + b` that follow `a` adapts the lines of `b`.
proof fn lemma_adapt_shift(a: Seq<char>, b: Seq<char>, k: int, first: bool)
    requires
        0 <= k <= b.len(),
    ensures
        adapt_from(a + b, a.len() + k, first) == adapt_from(b, k, first),
    decreases b.len() - k,
{
    if k < b.len() {
        lemma_newline_shift(a, b, k);
        lemma_newline_from(b, k);
        let j = newline_from(b, k);
        assert((a + b).subrange(a.len() + k, a.len() + j) =~= b.subrange(k, j));
        if j < b.len() {
            lemma_adapt_shift(a, b, j + 1, false);
        }
    }
}

/// Adapting from a line that is not the first puts a line break before it.
proof fn lemma_adapt_not_first(s: Seq<char>, k: int)
    requires
        0 <= k < s.len(),
    ensures
        adapt_from(s, k, false) == "\n"@ + adapt_from(s, k, true),
{
    reveal_strlit("\n");
    let j = newline_from(s, k);
    let piece = s.subrange(k, j);
    let line = if j < s.len() && piece.len() > 0 && piece.last() == '\r' { piece.drop_last() } else { piece };
    if k < j + 1 && j < s.len() {
        assert(adapt_from(s, k, false) == "\n"@ + adapt_line(line) + adapt_from(s, j + 1, false));
        assert(adapt_from(s, k, true) == Seq::<char>::empty() + adapt_line(line) + adapt_from(s, j + 1, false));
        assert(Seq::<char>::empty() + adapt_line(line) + adapt_from(s, j + 1, false) =~= adapt_line(line) + adapt_from(s, j + 1, false));
        assert("\n"@ + adapt_line(line) + adapt_from(s, j + 1, false) =~= "\n"@ + (adapt_line(line) + adapt_from(s, j + 1, false)));
    } else {
        assert(Seq::<char>::empty() + adapt_line(line) =~= adapt_line(line));
    }
}

/// An adapted line has no line break when the line had none, and adapting it again keeps it.
proof fn lemma_adapt_line(l: Seq<char>)
    requires
        forall|k: int| 0 <= k < l.len() ==> l[k] != '\n',
    ensures
        adapt_line(adapt_line(l)) == adapt_line(l),
        forall|k: int| 0 <= k < adapt_line(l).len() ==> adapt_line(l)[k] != '\n',
{
    reveal_strlit("target datalayout =");
    reveal_strlit("target datalayout = \"");
    reveal_strlit("\"");
    reveal_strlit("target triple =");
    reveal_strlit("target triple = \"");
    reveal_strlit("e-m:e-p:32:32-p10:8:8-p20:8:8-i64:64-n32:64-S128");
    reveal_strlit("wasm32-unknown-unknown");
    let dl = "target datalayout = \""@ + WASM_DATALAYOUT@ + "\""@;
    let tr = "target triple = \""@ + WASM_TRIPLE@ + "\""@;
    assert(dl[0] == 't');
    assert(tr[0] == 't');
    assert(trim_start_ws(dl) == dl);
    assert(trim_start_ws(tr) == tr);
    assert(dl.take(19) =~= "target datalayout ="@);
    assert(tr.take(15) =~= "target triple ="@);
    assert(tr.take(19)[7] != "target datalayout ="@[7]);
    assert(adapt_line(dl) == dl);
    assert(adapt_line(tr) == tr);
    assert forall|k: int| 0 <= k < dl.len() implies dl[k] != '\n' by {}
    assert forall|k: int| 0 <= k < tr.len() implies tr[k] != '\n' by {}
}

/// No `\r` stands right before a `\n` in `o`.
pub open spec fn no_cr_before_lf(o: Seq<char>) -> bool {
    forall|k: int| 0 <= k && k + 1 < o.len() ==> !(#[trigger] o[k] == '\r' && o[k + 1] == '\n')
}

/// A single adapted line, read again, is adapted to itself.
proof fn lemma_readapt_last(l: Seq<char>)
    requires
        forall|k: int| 0 <= k < l.len() ==> l[k] != '\n',
        adapt_line(l) == l,
    ensures
        adapt_from(l, 0, true) == l,
{
    if l.len() > 0 {
        lemma_newline_skip(l, 0, l.len() as int);
        assert(l.subrange(0, l.len() as int) =~= l);
        assert(Seq::<char>::empty() + l =~= l);
    }
}

/// An adapted line followed by `\n` and already re-adapted text, read again, is unchanged.
proof fn lemma_readapt_step(l: Seq<char>, o2: Seq<char>)
    requires
        forall|k: int| 0 <= k < l.len() ==> l[k] != '\n',
        adapt_line(l) == l,
        l.len() > 0 ==> l.last() != '\r',
        o2.len() > 0,
        adapt_from(o2, 0, true) == o2,
    ensures
        adapt_from(l + "\n"@ + o2, 0, true) == l + "\n"@ + o2,
{
    reveal_strlit("\n");
    let o = l + "\n"@ + o2;
    assert(o[l.len() as int] == '\n');
    assert forall|k: int| 0 <= k < l.len() implies o[k] != '\n' by {
        assert(o[k] == l[k]);
    }
    lemma_newline_skip(o, 0, l.len() as int);
    assert(newline_from(o, l.len() as int) == l.len());
    assert(o.subrange(0, l.len() as int) =~= l);
    if l.len() > 0 {
        assert(o.subrange(0, l.len() as int).last() == l.last());
    }
    lemma_adapt_shift(l + "\n"@, o2, 0, false);
    lemma_adapt_not_first(o2, 0);
    assert(adapt_from(o, (l.len() + 1) as int, false) == "\n"@ + o2);
    assert(adapt_from(o, 0, true) == Seq::<char>::empty() + l + adapt_from(o, (l.len() + 1) as int, false));
    assert(Seq::<char>::empty() + l + ("\n"@ + o2) =~= o);
}

/// Adapting the adapted lines from `i` on again changes nothing, where the adapted text has
/// no `\r` before a `\n` and does not end with `\n`.
proof fn lemma_readapt(s: Seq<char>, i: int)
    requires
        0 <= i <= s.len(),
        no_cr_before_lf(adapt_from(s, i, true)),
        !(adapt_from(s, i, true).len() > 0 && adapt_from(s, i, true).last() == '\n'),
    ensures
        adapt_from(adapt_from(s, i, true), 0, true) == adapt_from(s, i, true),
    decreases s.len() - i,
{
    reveal_strlit("\n");
    let o = adapt_from(s, i, true);
    if i < s.len() {
        lemma_newline_from(s, i);
        lemma_newline_scan(s, i);
        let j = newline_from(s, i);
        let piece = s.subrange(i, j);
        let line = if j < s.len() && piece.len() > 0 && piece.last() == '\r' { piece.drop_last() } else { piece };
        assert forall|k: int| 0 <= k < line.len() implies line[k] != '\n' by {
            assert(line[k] == s[i + k]);
        }
        lemma_adapt_line(line);
        let l = adapt_line(line);
        if j + 1 < s.len() {
            let o2 = adapt_from(s, j + 1, true);
            assert(o == Seq::<char>::empty() + l + adapt_from(s, j + 1, false));
            lemma_adapt_not_first(s, j + 1);
            assert(o =~= l + "\n"@ + o2);
            if o2.len() == 0 {
                assert(o.last() == o[l.len() as int]);
            }
            assert forall|k: int| 0 <= k && k + 1 < o2.len() implies !(#[trigger] o2[k] == '\r' && o2[k + 1] == '\n') by {
                assert(o2[k] == o[l.len() + 1 + k]);
                assert(o2[k + 1] == o[l.len() + 1 + k + 1]);
            }
            assert(o2.last() == o.last());
            lemma_readapt(s, j + 1);
            if l.len() > 0 {
                assert(o[l.len() - 1] == l.last());
                assert(o[l.len() as int] == '\n');
            }
            lemma_readapt_step(l, o2);
        } else {
            if j < s.len() {
                assert(adapt_from(s, j + 1, false) =~= Seq::<char>::empty());
                assert(o == Seq::<char>::empty() + l + adapt_from(s, j + 1, false));
            } else {
                assert(o == Seq::<char>::empty() + l);
            }
            assert(o =~= l);
            lemma_readapt_last(l);
        }
    }
}

/// Rewriting the header of rewritten IR again changes nothing, wherever the rewritten text
/// has no `\r` right before a `\n` and does not end with `\n` (on such text `str::lines`
/// splits the lines differently the second time).
pub proof fn law_wasm_rewrite_is_idempotent(ir: Seq<char>)
    requires
        no_cr_before_lf(adapt_from(ir, 0, true)),
        !(adapt_from(ir, 0, true).len() > 0 && adapt_from(ir, 0, true).last() == '\n'),
    ensures
        adapt_from(adapt_from(ir, 0, true), 0, true) == adapt_from(ir, 0, true),
{
    lemma_readapt(ir, 0);
}

/// Whether `cs[lo..hi]` starts with the characters of `p`.
fn chars_start_with(cs: &Vec<char>, lo: usize, hi: usize, p: &str) -> (b: bool)
    requires
        lo <= hi <= cs@.len(),
    ensures
        b == starts_with(cs@.subrange(lo as int, hi as int), p@),
{
    let pc = chars_of(p);
    let m = pc.len();
    if m > hi - lo {
        return false;
    }
    let mut k: usize = 0;
    while k < m
        invariant
            pc@ == p@,
            m == pc@.len(),
            m <= hi - lo,
            lo <= hi <= cs@.len(),
            k <= m,
            forall|q: int| 0 <= q < k ==> cs@[lo + q] == pc@[q],
        decreases m - k,
    {
        if cs[lo + k] != pc[k] {
            assert(cs@.subrange(lo as int, hi as int).take(m as int)[k as int] != p@[k as int]);
            return false;
        }
        k = k + 1;
    }
    assert(cs@.subrange(lo as int, hi as int).take(m as int) =~= p@);
    true
}

/// Start of `trim_start_ws(cs[lo..hi])` within `cs`.
fn skip_ws(cs: &Vec<char>, lo: usize, hi: usize) -> (k: usize)
    requires
        lo <= hi <= cs@.len(),
    ensures
        lo <= k <= hi,
        trim_start_ws(cs@.subrange(lo as int, hi as int)) == cs@.subrange(k as int, hi as int),
{
    let mut k = lo;
    while k < hi && crate::input_parse::is_ws_char(cs[k])
        invariant
            lo <= k <= hi <= cs@.len(),
            trim_start_ws(cs@.subrange(lo as int, hi as int)) == trim_start_ws(cs@.subrange(k as int, hi as int)),
        decreases hi - k,
    {
        assert(cs@.subrange(k as int, hi as int).drop_first() =~= cs@.subrange(k + 1, hi as int));
        k = k + 1;
    }
    k
}

/// Appends `\n` (unless `first`) and the adapted line `cs[i..end]`.
fn push_adapted_line(out: &mut String, cs: &Vec<char>, i: usize, end: usize, first: bool)
    requires
        i <= end <= cs@.len(),
    ensures
        final(out)@ == old(out)@ + ((if first { Seq::<char>::empty() } else { "\n"@ }) + adapt_line(cs@.subrange(i as int, end as int))),
{
    let ghost before = out@;
    if !first {
        push_str(out, "\n");
    }
    let ghost mid = out@;
    let t = skip_ws(cs, i, end);
    if chars_start_with(cs, t, end, "target datalayout =") {
        push_str(out, "target datalayout = \"");
        push_str(out, WASM_DATALAYOUT);
        push_str(out, "\"");
    } else if chars_start_with(cs, t, end, "target triple =") {
        push_str(out, "target triple = \"");
        push_str(out, WASM_TRIPLE);
        push_str(out, "\"");
    } else {
        let mut k = i;
        while k < end
            invariant
                i <= k <= end <= cs@.len(),
                out@ == mid + cs@.subrange(i as int, k as int),
            decreases end - k,
        {
            push_char(out, cs[k]);
            assert(cs@.subrange(i as int, k + 1) =~= cs@.subrange(i as int, k as int).push(cs@[k as int]));
            k = k + 1;
        }
    }
    proof {
        let sep = if first { Seq::<char>::empty() } else { "\n"@ };
        assert(mid =~= before + sep);
        assert(out@ =~= before + (sep + adapt_line(cs@.subrange(i as int, end as int))));
    }
}

/// Rewrites the module header so that clang's WebAssembly backend accepts the IR: the
/// `target datalayout` and `target triple` lines name the wasm32 target. Lines are split
/// as by `str::lines` and joined with `\n`.
pub fn adapt_llvm_ir_for_wasm(ir: &str) -> (r: String)
    ensures
        r@ == adapt_from(ir@, 0, true),
{
    let cs = chars_of(ir);
    let n = cs.len();
    let mut out = String::new();
    let mut i: usize = 0;
    let mut first = true;
    assert(Seq::<char>::empty() + adapt_from(cs@, 0, true) =~= adapt_from(cs@, 0, true));
    while i < n
        invariant
            i <= n == cs@.len(),
            cs@ == ir@,
            out@ + adapt_from(cs@, i as int, first) == adapt_from(cs@, 0, true),
        decreases n - i,
    {
        let mut j = i;
        while j < n && cs[j] != '\n'
            invariant
                i <= j <= n == cs@.len(),
                newline_from(cs@, i as int) == newline_from(cs@, j as int),
            decreases n - j,
        {
            j = j + 1;
        }
        proof {
            lemma_newline_from(cs@, i as int);
        }
        let end = if j < n && j > i && cs[j - 1] == '\r' { j - 1 } else { j };
        proof {
            let piece = cs@.subrange(i as int, j as int);
            if j < n && j > i && cs@[j - 1] == '\r' {
                assert(piece.last() == cs@[j - 1]);
                assert(piece.drop_last() =~= cs@.subrange(i as int, end as int));
            } else {
                assert(piece.len() > 0 ==> piece.last() == cs@[j - 1]);
            }
        }
        let ghost line = cs@.subrange(i as int, end as int);
        let ghost before = out@;
        push_adapted_line(&mut out, &cs, i, end, first);
        proof {
            let sep = if first { Seq::<char>::empty() } else { "\n"@ };
            let a = adapt_line(line);
            if j < n {
                let rest = adapt_from(cs@, j + 1, false);
                assert(adapt_from(cs@, i as int, first) == sep + a + rest);
                assert(before + (sep + a + rest) =~= out@ + rest);
            } else {
                assert(adapt_from(cs@, i as int, first) == sep + a);
                assert(adapt_from(cs@, n as int, false) =~= Seq::<char>::empty());
                assert(out@ + adapt_from(cs@, n as int, false) =~= out@);
            }
        }
        first = false;
        i = if j < n { j + 1 } else { n };
    }
    proof {
        assert(adapt_from(cs@, i as int, first) =~= Seq::<char>::empty());
        assert(out@ + Seq::<char>::empty() =~= out@);
    }
    out
}

/// The LLVM IR of a program, adapted for the WebAssembly backend.
pub fn wasm_module_ir(prog: &Program) -> (r: Result<String, LirError>)
    ensures
        match (r, plan_spec(*prog)) {
            (Ok(text), Ok(plan)) => text@ == adapt_from(module_text(plan, "unknown-unknown-unknown"@), 0, true),
            (Err(e), Err(x)) => e@ == x,
            _ => false,
        },
{
    let ir = emit_llvm_ir(prog)?;
    Ok(adapt_llvm_ir_for_wasm(ir.as_str()))
}

/// The diagnostic when no clang could compile the module: `T_WASM_COMPILE` at the program's
/// span, quoting the last failure.
pub fn wasm_compile_error(prog_span: Span, last: &String) -> (e: LirError)
    ensures
        e@ == type_err("T_WASM_COMPILE"@, prog_span, None),
        e matches LirError::Type { message: m, .. } && m@ == "cannot compile LLVM IR to WebAssembly: "@ + last@,
{
    let mut message = string_of("cannot compile LLVM IR to WebAssembly: ");
    push_string(&mut message, last);
    LirError::Type {
        code: "T_WASM_COMPILE",
        span: prog_span,
        message,
        fix_hint: string_of("Install clang with the WebAssembly target (Ubuntu: apt install clang lld), set LIR_CLANG to that binary, or use WASI_SDK_PATH. macOS Xcode clang often lacks wasm32."),
        stage_index: None,
    }
}

} // verus!
