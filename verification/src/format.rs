//! Canonical program formatting: lowercase keywords, single spaces around `|`, spaces
//! after commas in lists, explicit `input:i32` / `input:i64` / `input:bool`.

use vstd::prelude::*;
use crate::ast::{clone_predicate, CmpOp, CmpRhs, ElemTy, Expr, LitElem, Predicate, Program, ReduceOp, ScanOp, Source, Stage};
use crate::text::{chars_of, int_decimal, nat_decimal, push_char, push_i64, push_str, push_string, push_u64, string_of};

verus! {

/// Name of an element type.
pub open spec fn ty_name(t: ElemTy) -> Seq<char> {
    match t {
        ElemTy::I32 => "i32"@,
        ElemTy::I64 => "i64"@,
        ElemTy::Bool => "bool"@,
    }
}

/// Step that `range(start, stop)` gets when none is written: `-1` when counting down, else `1`.
pub open spec fn default_step_spec(start: i64, stop: i64) -> i64 {
    if start < stop { 1i64 } else if start > stop { -1i64 } else { 1i64 }
}

/// Text of a `lit` element.
pub open spec fn lit_elem_text(e: LitElem) -> Seq<char> {
    match e {
        LitElem::I32(v) => int_decimal(v as int),
        LitElem::I64(v) => int_decimal(v as int),
        LitElem::Bool(b) => if b { "true"@ } else { "false"@ },
    }
}

/// `lit` elements separated by `", "`.
pub open spec fn lit_list_text(es: Seq<LitElem>) -> Seq<char>
    decreases es.len(),
{
    if es.len() == 0 {
        Seq::empty()
    } else if es.len() == 1 {
        lit_elem_text(es[0])
    } else {
        lit_list_text(es.drop_last()) + ", "@ + lit_elem_text(es.last())
    }
}

/// Canonical text of a source.
pub open spec fn source_text(s: Source) -> Seq<char> {
    match s {
        Source::Input { ty, .. } => "input:"@ + ty_name(ty),
        Source::Range { start, stop, step, .. } => if step == default_step_spec(start, stop) {
            "range ( "@ + int_decimal(start as int) + " , "@ + int_decimal(stop as int) + " )"@
        } else {
            "range ( "@ + int_decimal(start as int) + " , "@ + int_decimal(stop as int) + " , "@
                + int_decimal(step as int) + " )"@
        },
        Source::Lit { elems, .. } => if elems@.len() == 0 {
            "lit ()"@
        } else {
            "lit ( "@ + lit_list_text(elems@) + " )"@
        },
    }
}

/// Keyword of a comparison operator.
pub open spec fn compare_op_name(op: CmpOp) -> Seq<char> {
    match op {
        CmpOp::Eq => "eq"@,
        CmpOp::Lt => "lt"@,
        CmpOp::Le => "le"@,
        CmpOp::Gt => "gt"@,
        CmpOp::Ge => "ge"@,
    }
}

/// Text of a predicate that is neither `or` nor `&`.
pub open spec fn atom_text(p: Predicate) -> Seq<char>
    decreases p, 0int,
{
    match p {
        Predicate::Not { inner, .. } => "not "@ + not_inner_text(*inner),
        Predicate::Even { .. } => "even"@,
        Predicate::Odd { .. } => "odd"@,
        Predicate::Cmp { op, rhs, .. } => compare_op_name(op) + " "@ + match rhs {
            CmpRhs::Int(v) => int_decimal(v as int),
            CmpRhs::Bool(b) => if b { "true"@ } else { "false"@ },
        },
        _ => Seq::empty(),
    }
}

/// Operands of an `or` chain joined by `" or "`; nested `&` chains are parenthesized.
pub open spec fn or_chain_text(p: Predicate) -> Seq<char>
    decreases p, (if p is And { 2int } else { 1int }),
{
    match p {
        Predicate::Or { left, right, .. } => or_chain_text(*left) + " or "@ + or_chain_text(*right),
        Predicate::And { .. } => "("@ + and_chain_text(p) + ")"@,
        _ => atom_text(p),
    }
}

/// Operands of an `&` chain joined by `" & "`; nested `or` chains are parenthesized.
pub open spec fn and_chain_text(p: Predicate) -> Seq<char>
    decreases p, (if p is Or { 2int } else { 1int }),
{
    match p {
        Predicate::And { left, right, .. } => and_chain_text(*left) + " & "@ + and_chain_text(*right),
        Predicate::Or { .. } => "("@ + or_chain_text(p) + ")"@,
        _ => atom_text(p),
    }
}

/// Canonical text of a predicate.
pub open spec fn pred_text(p: Predicate) -> Seq<char>
    decreases p, 3int,
{
    match p {
        Predicate::Or { .. } => or_chain_text(p),
        Predicate::And { .. } => and_chain_text(p),
        _ => atom_text(p),
    }
}

/// Text of the operand of `not`: compound predicates are parenthesized.
pub open spec fn not_inner_text(p: Predicate) -> Seq<char>
    decreases p, 4int,
{
    match p {
        Predicate::Or { .. } | Predicate::And { .. } => "("@ + pred_text(p) + ")"@,
        _ => pred_text(p),
    }
}

/// Binding strength of an expression: `add`/`sub` 1, `mul`/`div`/`mod` 2, `neg` 3, atoms 4.
pub open spec fn expr_prec_spec(e: Expr) -> int {
    match e {
        Expr::Add { .. } | Expr::Sub { .. } => 1,
        Expr::Mul { .. } | Expr::Div { .. } | Expr::Mod { .. } => 2,
        Expr::Neg { .. } => 3,
        Expr::Dot { .. } | Expr::Lit { .. } => 4,
    }
}

/// Text of an expression whose context binds with strength `parent`; it is
/// parenthesized when it binds more loosely than its context. Operators group to the left,
/// so a right operand that binds no tighter than its operator is parenthesized too.
pub open spec fn expr_text(e: Expr, parent: int) -> Seq<char>
    decreases e,
{
    let my = expr_prec_spec(e);
    let s = match e {
        Expr::Add { left, right, .. } => expr_text(*left, my) + " add "@ + expr_text(*right, my + 1),
        Expr::Sub { left, right, .. } => expr_text(*left, my) + " sub "@ + expr_text(*right, my + 1),
        Expr::Mul { left, right, .. } => expr_text(*left, my) + " mul "@ + expr_text(*right, my + 1),
        Expr::Div { left, right, .. } => expr_text(*left, my) + " div "@ + expr_text(*right, my + 1),
        Expr::Mod { left, right, .. } => expr_text(*left, my) + " mod "@ + expr_text(*right, my + 1),
        Expr::Neg { inner, .. } => "neg "@ + expr_text(*inner, my),
        Expr::Dot { .. } => "."@,
        Expr::Lit { v, .. } => int_decimal(v as int),
    };
    if my < parent { "("@ + s + ")"@ } else { s }
}

/// Canonical text of a stage.
pub open spec fn stage_text(s: Stage) -> Seq<char> {
    match s {
        Stage::Filter { pred, .. } => "filter "@ + pred_text(pred),
        Stage::MapEach { expr, .. } => "map "@ + expr_text(expr, 0),
        Stage::Scan { init, op, .. } => "scan "@ + int_decimal(init as int) + ", "@ + match op {
            ScanOp::Add => "add"@,
            ScanOp::Sub => "sub"@,
            ScanOp::Mul => "mul"@,
        },
        Stage::Reduce { op, .. } => "reduce "@ + match op {
            ReduceOp::Sum => "sum"@,
            ReduceOp::Prod => "prod"@,
            ReduceOp::Count => "count"@,
            ReduceOp::Min => "min"@,
            ReduceOp::Max => "max"@,
        },
        Stage::Take { n, .. } => "take "@ + nat_decimal(n as nat),
        Stage::Drop { n, .. } => "drop "@ + nat_decimal(n as nat),
        Stage::Id { .. } => "id"@,
    }
}

/// Each stage preceded by `" | "`.
pub open spec fn stages_text(st: Seq<Stage>) -> Seq<char>
    decreases st.len(),
{
    if st.len() == 0 {
        Seq::empty()
    } else {
        stages_text(st.drop_last()) + " | "@ + stage_text(st.last())
    }
}

/// Canonical text of a program: header line, then the source and stages on one line.
pub open spec fn format_program_spec(p: Program) -> Seq<char> {
    "lir/1\n"@ + source_text(p.source) + stages_text(p.stages@) + "\n"@
}

/// `s` with every `"\r\n"` replaced by `"\n"`, scanning left to right.
pub open spec fn crlf_to_lf(s: Seq<char>) -> Seq<char>
    decreases s.len(),
{
    if s.len() == 0 {
        s
    } else if s.len() >= 2 && s[0] == '\r' && s[1] == '\n' {
        seq!['\n'] + crlf_to_lf(s.skip(2))
    } else {
        seq![s[0]] + crlf_to_lf(s.skip(1))
    }
}

/// Canonical text of a program.
pub fn format_program(p: &Program) -> (out: String)
    ensures
        out@ == format_program_spec(*p),
{
    let mut out = string_of("lir/1\n");
    push_string(&mut out, &format_source(&p.source));
    let mut k: usize = 0;
    while k < p.stages.len()
        invariant
            k <= p.stages@.len(),
            out@ == "lir/1\n"@ + source_text(p.source) + stages_text(p.stages@.take(k as int)),
        decreases p.stages@.len() - k,
    {
        push_str(&mut out, " | ");
        push_string(&mut out, &format_stage(&p.stages[k]));
        assert(p.stages@.take(k + 1).drop_last() == p.stages@.take(k as int));
        k = k + 1;
    }
    assert(p.stages@.take(p.stages@.len() as int) == p.stages@);
    push_str(&mut out, "\n");
    out
}

/// True if `src` equals the canonical formatting of `prog` after normalizing CRLF to LF.
pub fn program_is_canonical_text(src: &str, prog: &Program) -> (b: bool)
    ensures
        b == (format_program_spec(*prog) == crlf_to_lf(src@)),
{
    let cs = chars_of(src);
    let mut normalized = String::new();
    let mut i: usize = 0;
    assert(cs@.skip(0) == cs@);
    while i < cs.len()
        invariant
            i <= cs@.len(),
            cs@ == src@,
            crlf_to_lf(cs@) == normalized@ + crlf_to_lf(cs@.skip(i as int)),
        decreases cs@.len() - i,
    {
        let ghost rest = cs@.skip(i as int);
        if i + 1 < cs.len() && cs[i] == '\r' && cs[i + 1] == '\n' {
            push_char(&mut normalized, '\n');
            assert(rest.skip(2) == cs@.skip(i + 2));
            i = i + 2;
        } else {
            push_char(&mut normalized, cs[i]);
            assert(rest.skip(1) == cs@.skip(i + 1));
            i = i + 1;
        }
    }
    assert(cs@.skip(cs@.len() as int) == Seq::<char>::empty());
    let formatted = format_program(prog);
    formatted == normalized
}

fn format_source(s: &Source) -> (out: String)
    ensures
        out@ == source_text(*s),
{
    match s {
        Source::Input { ty, .. } => {
            let mut out = string_of("input:");
            match ty {
                ElemTy::I32 => push_str(&mut out, "i32"),
                ElemTy::I64 => push_str(&mut out, "i64"),
                ElemTy::Bool => push_str(&mut out, "bool"),
            }
            out
        },
        Source::Range { start, stop, step, .. } => {
            let def = default_range_step(*start, *stop);
            let mut out = string_of("range ( ");
            push_i64(&mut out, *start);
            push_str(&mut out, " , ");
            push_i64(&mut out, *stop);
            if *step != def {
                push_str(&mut out, " , ");
                push_i64(&mut out, *step);
            }
            push_str(&mut out, " )");
            out
        },
        Source::Lit { elems, .. } => {
            if elems.len() == 0 {
                string_of("lit ()")
            } else {
                let mut out = string_of("lit ( ");
                let mut k: usize = 0;
                while k < elems.len()
                    invariant
                        k <= elems@.len(),
                        out@ == "lit ( "@ + lit_list_text(elems@.take(k as int)),
                    decreases elems@.len() - k,
                {
                    if k > 0 {
                        push_str(&mut out, ", ");
                    }
                    push_string(&mut out, &format_lit_elem(&elems[k]));
                    assert(elems@.take(k + 1).drop_last() == elems@.take(k as int));
                    k = k + 1;
                }
                assert(elems@.take(elems@.len() as int) == elems@);
                push_str(&mut out, " )");
                out
            }
        },
    }
}

fn default_range_step(start: i64, stop: i64) -> (r: i64)
    ensures
        r == default_step_spec(start, stop),
{
    if start < stop {
        1
    } else if start > stop {
        -1
    } else {
        1
    }
}

fn format_lit_elem(e: &LitElem) -> (out: String)
    ensures
        out@ == lit_elem_text(*e),
{
    let mut out = String::new();
    match e {
        LitElem::I32(v) => push_i64(&mut out, *v as i64),
        LitElem::I64(v) => push_i64(&mut out, *v),
        LitElem::Bool(b) => push_str(&mut out, if *b { "true" } else { "false" }),
    }
    out
}

fn format_stage(s: &Stage) -> (out: String)
    ensures
        out@ == stage_text(*s),
{
    match s {
        Stage::Filter { pred, .. } => {
            let mut out = string_of("filter ");
            push_string(&mut out, &format_predicate(pred));
            out
        },
        Stage::MapEach { expr, .. } => {
            let mut out = string_of("map ");
            push_string(&mut out, &format_expr(expr));
            out
        },
        Stage::Scan { init, op, .. } => {
            let mut out = string_of("scan ");
            push_i64(&mut out, *init);
            push_str(&mut out, ", ");
            push_str(&mut out, match op {
                ScanOp::Add => "add",
                ScanOp::Sub => "sub",
                ScanOp::Mul => "mul",
            });
            out
        },
        Stage::Reduce { op, .. } => {
            let mut out = string_of("reduce ");
            push_str(&mut out, match op {
                ReduceOp::Sum => "sum",
                ReduceOp::Prod => "prod",
                ReduceOp::Count => "count",
                ReduceOp::Min => "min",
                ReduceOp::Max => "max",
            });
            out
        },
        Stage::Take { n, .. } => {
            let mut out = string_of("take ");
            push_u64(&mut out, *n as u64);
            out
        },
        Stage::Drop { n, .. } => {
            let mut out = string_of("drop ");
            push_u64(&mut out, *n as u64);
            out
        },
        Stage::Id { .. } => string_of("id"),
    }
}


/// Number of nodes of a predicate tree.
pub open spec fn pred_size(p: Predicate) -> nat
    decreases p,
{
    match p {
        Predicate::Or { left, right, .. } | Predicate::And { left, right, .. } => 1 + pred_size(*left) + pred_size(*right),
        Predicate::Not { inner, .. } => 1 + pred_size(*inner),
        _ => 1,
    }
}

/// Operands of a maximal `or` chain, left to right.
pub open spec fn flatten_or_spec(p: Predicate) -> Seq<Predicate>
    decreases p,
{
    match p {
        Predicate::Or { left, right, .. } => flatten_or_spec(*left) + flatten_or_spec(*right),
        _ => seq![p],
    }
}

/// Operands of a maximal `&` chain, left to right.
pub open spec fn flatten_and_spec(p: Predicate) -> Seq<Predicate>
    decreases p,
{
    match p {
        Predicate::And { left, right, .. } => flatten_and_spec(*left) + flatten_and_spec(*right),
        _ => seq![p],
    }
}

/// Texts joined by a separator.
pub open spec fn join_texts(parts: Seq<Seq<char>>, sep: Seq<char>) -> Seq<char>
    decreases parts.len(),
{
    if parts.len() == 0 {
        Seq::empty()
    } else if parts.len() == 1 {
        parts[0]
    } else {
        join_texts(parts.drop_last(), sep) + sep + parts.last()
    }
}

/// Text of one operand of an `or` chain: `&` chains are parenthesized.
pub open spec fn or_operand_text(p: Predicate) -> Seq<char> {
    match p {
        Predicate::And { .. } => "("@ + pred_text(p) + ")"@,
        _ => pred_text(p),
    }
}

/// Text of one operand of an `&` chain: `or` chains are parenthesized.
pub open spec fn and_operand_text(p: Predicate) -> Seq<char> {
    match p {
        Predicate::Or { .. } => "("@ + pred_text(p) + ")"@,
        _ => pred_text(p),
    }
}

proof fn lemma_join_append(a: Seq<Seq<char>>, b: Seq<Seq<char>>, sep: Seq<char>)
    requires
        a.len() > 0,
        b.len() > 0,
    ensures
        join_texts(a + b, sep) == join_texts(a, sep) + sep + join_texts(b, sep),
    decreases b.len(),
{
    if b.len() == 1 {
        assert((a + b).drop_last() == a);
    } else {
        lemma_join_append(a, b.drop_last(), sep);
        assert((a + b).drop_last() == a + b.drop_last());
    }
}

proof fn lemma_flatten_sizes(p: Predicate)
    ensures
        flatten_or_spec(p).len() > 0,
        flatten_and_spec(p).len() > 0,
        forall|i: int| 0 <= i < flatten_or_spec(p).len() ==> pred_size(#[trigger] flatten_or_spec(p)[i]) <= pred_size(p),
        forall|i: int| 0 <= i < flatten_and_spec(p).len() ==> pred_size(#[trigger] flatten_and_spec(p)[i]) <= pred_size(p),
        p is Or ==> forall|i: int| 0 <= i < flatten_or_spec(p).len() ==> pred_size(#[trigger] flatten_or_spec(p)[i]) < pred_size(p),
        p is And ==> forall|i: int| 0 <= i < flatten_and_spec(p).len() ==> pred_size(#[trigger] flatten_and_spec(p)[i]) < pred_size(p),
    decreases p,
{
    match p {
        Predicate::Or { left, right, .. } => {
            lemma_flatten_sizes(*left);
            lemma_flatten_sizes(*right);
            let fl = flatten_or_spec(*left);
            let fr = flatten_or_spec(*right);
            assert forall|i: int| 0 <= i < flatten_or_spec(p).len() implies pred_size(#[trigger] flatten_or_spec(p)[i]) < pred_size(p) by {
                if i < fl.len() {
                    assert(flatten_or_spec(p)[i] == fl[i]);
                } else {
                    assert(flatten_or_spec(p)[i] == fr[i - fl.len()]);
                }
            }
        },
        Predicate::And { left, right, .. } => {
            lemma_flatten_sizes(*left);
            lemma_flatten_sizes(*right);
            let fl = flatten_and_spec(*left);
            let fr = flatten_and_spec(*right);
            assert forall|i: int| 0 <= i < flatten_and_spec(p).len() implies pred_size(#[trigger] flatten_and_spec(p)[i]) < pred_size(p) by {
                if i < fl.len() {
                    assert(flatten_and_spec(p)[i] == fl[i]);
                } else {
                    assert(flatten_and_spec(p)[i] == fr[i - fl.len()]);
                }
            }
        },
        _ => {},
    }
}

proof fn lemma_or_chain_is_join(p: Predicate)
    ensures
        or_chain_text(p) == join_texts(flatten_or_spec(p).map_values(|x: Predicate| or_operand_text(x)), " or "@),
    decreases p,
{
    lemma_flatten_sizes(p);
    match p {
        Predicate::Or { left, right, .. } => {
            lemma_or_chain_is_join(*left);
            lemma_or_chain_is_join(*right);
            lemma_flatten_sizes(*left);
            lemma_flatten_sizes(*right);
            let f = |x: Predicate| or_operand_text(x);
            assert(flatten_or_spec(p).map_values(f) == flatten_or_spec(*left).map_values(f) + flatten_or_spec(*right).map_values(f));
            lemma_join_append(flatten_or_spec(*left).map_values(f), flatten_or_spec(*right).map_values(f), " or "@);
        },
        _ => {},
    }
}

proof fn lemma_and_chain_is_join(p: Predicate)
    ensures
        and_chain_text(p) == join_texts(flatten_and_spec(p).map_values(|x: Predicate| and_operand_text(x)), " & "@),
    decreases p,
{
    lemma_flatten_sizes(p);
    match p {
        Predicate::And { left, right, .. } => {
            lemma_and_chain_is_join(*left);
            lemma_and_chain_is_join(*right);
            lemma_flatten_sizes(*left);
            lemma_flatten_sizes(*right);
            let f = |x: Predicate| and_operand_text(x);
            assert(flatten_and_spec(p).map_values(f) == flatten_and_spec(*left).map_values(f) + flatten_and_spec(*right).map_values(f));
            lemma_join_append(flatten_and_spec(*left).map_values(f), flatten_and_spec(*right).map_values(f), " & "@);
        },
        _ => {},
    }
}

fn flatten_or(p: &Predicate, out: &mut Vec<Predicate>)
    ensures
        final(out)@ == old(out)@ + flatten_or_spec(*p),
    decreases p,
{
    match p {
        Predicate::Or { left, right, .. } => {
            flatten_or(left, out);
            flatten_or(right, out);
            assert(final(out)@ == old(out)@ + flatten_or_spec(*p)) by {
                assert(old(out)@ + flatten_or_spec(**left) + flatten_or_spec(**right) == old(out)@ + flatten_or_spec(*p));
            }
        },
        _ => out.push(clone_predicate(p)),
    }
}

fn flatten_and(p: &Predicate, out: &mut Vec<Predicate>)
    ensures
        final(out)@ == old(out)@ + flatten_and_spec(*p),
    decreases p,
{
    match p {
        Predicate::And { left, right, .. } => {
            flatten_and(left, out);
            flatten_and(right, out);
            assert(final(out)@ == old(out)@ + flatten_and_spec(*p)) by {
                assert(old(out)@ + flatten_and_spec(**left) + flatten_and_spec(**right) == old(out)@ + flatten_and_spec(*p));
            }
        },
        _ => out.push(clone_predicate(p)),
    }
}

#[verifier::rlimit(60)]
fn format_predicate(p: &Predicate) -> (out: String)
    ensures
        out@ == pred_text(*p),
    decreases pred_size(*p), 0int,
{
    match p {
        Predicate::Or { .. } => {
            let mut parts: Vec<Predicate> = Vec::new();
            flatten_or(p, &mut parts);
            proof {
                lemma_flatten_sizes(*p);
                lemma_or_chain_is_join(*p);
                assert(parts@ == flatten_or_spec(*p));
            }
            let ghost f = |x: Predicate| or_operand_text(x);
            let mut out = String::new();
            let mut k: usize = 0;
            while k < parts.len()
                invariant
                    k <= parts@.len(),
                    parts@ == flatten_or_spec(*p),
                    *p is Or,
                    f == (|x: Predicate| or_operand_text(x)),
                    forall|i: int| 0 <= i < parts@.len() ==> pred_size(#[trigger] parts@[i]) < pred_size(*p),
                    out@ == join_texts(parts@.take(k as int).map_values(f), " or "@),
                decreases parts@.len() - k,
            {
                if k > 0 {
                    push_str(&mut out, " or ");
                }
                push_string(&mut out, &format_or_operand(&parts[k]));
                assert(parts@.take(k + 1).map_values(f).drop_last() == parts@.take(k as int).map_values(f));
                k = k + 1;
            }
            assert(parts@.take(parts@.len() as int) == parts@);
            out
        },
        Predicate::And { .. } => {
            let mut parts: Vec<Predicate> = Vec::new();
            flatten_and(p, &mut parts);
            proof {
                lemma_flatten_sizes(*p);
                lemma_and_chain_is_join(*p);
                assert(parts@ == flatten_and_spec(*p));
            }
            let ghost f = |x: Predicate| and_operand_text(x);
            let mut out = String::new();
            let mut k: usize = 0;
            while k < parts.len()
                invariant
                    k <= parts@.len(),
                    parts@ == flatten_and_spec(*p),
                    *p is And,
                    f == (|x: Predicate| and_operand_text(x)),
                    forall|i: int| 0 <= i < parts@.len() ==> pred_size(#[trigger] parts@[i]) < pred_size(*p),
                    out@ == join_texts(parts@.take(k as int).map_values(f), " & "@),
                decreases parts@.len() - k,
            {
                if k > 0 {
                    push_str(&mut out, " & ");
                }
                push_string(&mut out, &format_and_operand(&parts[k]));
                assert(parts@.take(k + 1).map_values(f).drop_last() == parts@.take(k as int).map_values(f));
                k = k + 1;
            }
            assert(parts@.take(parts@.len() as int) == parts@);
            out
        },
        Predicate::Not { inner, .. } => {
            let mut out = string_of("not ");
            push_string(&mut out, &format_not_inner(inner));
            out
        },
        Predicate::Even { .. } => string_of("even"),
        Predicate::Odd { .. } => string_of("odd"),
        Predicate::Cmp { op, rhs, .. } => {
            let mut out = String::new();
            push_str(&mut out, match op {
                CmpOp::Eq => "eq",
                CmpOp::Lt => "lt",
                CmpOp::Le => "le",
                CmpOp::Gt => "gt",
                CmpOp::Ge => "ge",
            });
            push_str(&mut out, " ");
            match rhs {
                CmpRhs::Int(v) => push_i64(&mut out, *v),
                CmpRhs::Bool(b) => push_str(&mut out, if *b { "true" } else { "false" }),
            }
            out
        },
    }
}

fn format_or_operand(p: &Predicate) -> (out: String)
    ensures
        out@ == or_operand_text(*p),
    decreases pred_size(*p), 2int,
{
    match p {
        Predicate::And { .. } => {
            let mut out = string_of("(");
            push_string(&mut out, &format_predicate(p));
            push_str(&mut out, ")");
            out
        },
        _ => format_predicate_non_or(p),
    }
}

fn format_and_operand(p: &Predicate) -> (out: String)
    ensures
        out@ == and_operand_text(*p),
    decreases pred_size(*p), 2int,
{
    match p {
        Predicate::Or { .. } => {
            let mut out = string_of("(");
            push_string(&mut out, &format_predicate(p));
            push_str(&mut out, ")");
            out
        },
        _ => format_predicate_non_or(p),
    }
}

fn format_predicate_non_or(p: &Predicate) -> (out: String)
    ensures
        out@ == pred_text(*p),
    decreases pred_size(*p), 1int,
{
    format_predicate(p)
}

fn format_not_inner(p: &Predicate) -> (out: String)
    ensures
        out@ == not_inner_text(*p),
    decreases pred_size(*p), 1int,
{
    match p {
        Predicate::Or { .. } | Predicate::And { .. } => {
            let mut out = string_of("(");
            push_string(&mut out, &format_predicate(p));
            push_str(&mut out, ")");
            out
        },
        _ => format_predicate(p),
    }
}

fn expr_prec(e: &Expr) -> (r: i32)
    ensures
        r as int == expr_prec_spec(*e),
{
    match e {
        Expr::Add { .. } | Expr::Sub { .. } => 1,
        Expr::Mul { .. } | Expr::Div { .. } | Expr::Mod { .. } => 2,
        Expr::Neg { .. } => 3,
        Expr::Dot { .. } | Expr::Lit { .. } => 4,
    }
}

fn format_expr(e: &Expr) -> (out: String)
    ensures
        out@ == expr_text(*e, 0),
{
    format_expr_inner(e, 0)
}

fn format_expr_inner(e: &Expr, parent_prec: i32) -> (out: String)
    ensures
        out@ == expr_text(*e, parent_prec as int),
    decreases e,
{
    let my = expr_prec(e);
    let mut s = String::new();
    match e {
        Expr::Add { left, right, .. } => {
            push_string(&mut s, &format_expr_inner(left, my));
            push_str(&mut s, " add ");
            push_string(&mut s, &format_expr_inner(right, my + 1));
        },
        Expr::Sub { left, right, .. } => {
            push_string(&mut s, &format_expr_inner(left, my));
            push_str(&mut s, " sub ");
            push_string(&mut s, &format_expr_inner(right, my + 1));
        },
        Expr::Mul { left, right, .. } => {
            push_string(&mut s, &format_expr_inner(left, my));
            push_str(&mut s, " mul ");
            push_string(&mut s, &format_expr_inner(right, my + 1));
        },
        Expr::Div { left, right, .. } => {
            push_string(&mut s, &format_expr_inner(left, my));
            push_str(&mut s, " div ");
            push_string(&mut s, &format_expr_inner(right, my + 1));
        },
        Expr::Mod { left, right, .. } => {
            push_string(&mut s, &format_expr_inner(left, my));
            push_str(&mut s, " mod ");
            push_string(&mut s, &format_expr_inner(right, my + 1));
        },
        Expr::Neg { inner, .. } => {
            push_str(&mut s, "neg ");
            push_string(&mut s, &format_expr_inner(inner, my));
        },
        Expr::Dot { .. } => push_str(&mut s, "."),
        Expr::Lit { v, .. } => push_i64(&mut s, *v),
    }
    if my < parent_prec {
        let mut out = string_of("(");
        push_string(&mut out, &s);
        push_str(&mut out, ")");
        out
    } else {
        s
    }
}


/// No character of `s` is a carriage return.
pub open spec fn free_of_cr(s: Seq<char>) -> bool {
    forall|i: int| 0 <= i < s.len() ==> s[i] != '\r'
}

/// Normalizing line ends leaves a text without carriage returns unchanged.
proof fn lemma_crlf_to_lf_identity(s: Seq<char>)
    requires
        free_of_cr(s),
    ensures
        crlf_to_lf(s) == s,
    decreases s.len(),
{
    if s.len() > 0 {
        lemma_crlf_to_lf_identity(s.skip(1));
        assert(seq![s[0]] + s.skip(1) =~= s);
    }
}

/// The fixed pieces of canonical text hold no carriage return.
proof fn lemma_pieces_free_of_cr()
    ensures
        free_of_cr("lir/1\n"@),
        free_of_cr("\n"@),
        free_of_cr("input:"@),
        free_of_cr("i32"@),
        free_of_cr("i64"@),
        free_of_cr("bool"@),
        free_of_cr("range ( "@),
        free_of_cr(" , "@),
        free_of_cr(" )"@),
        free_of_cr("lit ()"@),
        free_of_cr("lit ( "@),
        free_of_cr(", "@),
        free_of_cr("true"@),
        free_of_cr("false"@),
        free_of_cr("eq"@),
        free_of_cr("lt"@),
        free_of_cr("le"@),
        free_of_cr("gt"@),
        free_of_cr("ge"@),
        free_of_cr("not "@),
        free_of_cr("even"@),
        free_of_cr("odd"@),
        free_of_cr(" "@),
        free_of_cr(" or "@),
        free_of_cr("("@),
        free_of_cr(")"@),
        free_of_cr(" & "@),
        free_of_cr(" add "@),
        free_of_cr(" sub "@),
        free_of_cr(" mul "@),
        free_of_cr(" div "@),
        free_of_cr(" mod "@),
        free_of_cr("neg "@),
        free_of_cr("."@),
        free_of_cr("filter "@),
        free_of_cr("map "@),
        free_of_cr("scan "@),
        free_of_cr("add"@),
        free_of_cr("sub"@),
        free_of_cr("mul"@),
        free_of_cr("reduce "@),
        free_of_cr("sum"@),
        free_of_cr("prod"@),
        free_of_cr("count"@),
        free_of_cr("min"@),
        free_of_cr("max"@),
        free_of_cr("take "@),
        free_of_cr("drop "@),
        free_of_cr("id"@),
        free_of_cr(" | "@),
{
    reveal_strlit("lir/1\n");
    reveal_strlit("\n");
    reveal_strlit("input:");
    reveal_strlit("i32");
    reveal_strlit("i64");
    reveal_strlit("bool");
    reveal_strlit("range ( ");
    reveal_strlit(" , ");
    reveal_strlit(" )");
    reveal_strlit("lit ()");
    reveal_strlit("lit ( ");
    reveal_strlit(", ");
    reveal_strlit("true");
    reveal_strlit("false");
    reveal_strlit("eq");
    reveal_strlit("lt");
    reveal_strlit("le");
    reveal_strlit("gt");
    reveal_strlit("ge");
    reveal_strlit("not ");
    reveal_strlit("even");
    reveal_strlit("odd");
    reveal_strlit(" ");
    reveal_strlit(" or ");
    reveal_strlit("(");
    reveal_strlit(")");
    reveal_strlit(" & ");
    reveal_strlit(" add ");
    reveal_strlit(" sub ");
    reveal_strlit(" mul ");
    reveal_strlit(" div ");
    reveal_strlit(" mod ");
    reveal_strlit("neg ");
    reveal_strlit(".");
    reveal_strlit("filter ");
    reveal_strlit("map ");
    reveal_strlit("scan ");
    reveal_strlit("add");
    reveal_strlit("sub");
    reveal_strlit("mul");
    reveal_strlit("reduce ");
    reveal_strlit("sum");
    reveal_strlit("prod");
    reveal_strlit("count");
    reveal_strlit("min");
    reveal_strlit("max");
    reveal_strlit("take ");
    reveal_strlit("drop ");
    reveal_strlit("id");
    reveal_strlit(" | ");
}

proof fn lemma_nat_decimal_free_of_cr(n: nat)
    ensures
        free_of_cr(nat_decimal(n)),
    decreases n,
{
    if n >= 10 {
        lemma_nat_decimal_free_of_cr(n / 10);
    }
}

proof fn lemma_int_decimal_free_of_cr(i: int)
    ensures
        free_of_cr(int_decimal(i)),
{
    if i < 0 {
        lemma_nat_decimal_free_of_cr((-i) as nat);
    } else {
        lemma_nat_decimal_free_of_cr(i as nat);
    }
}

proof fn lemma_pred_texts_free_of_cr(p: Predicate)
    ensures
        free_of_cr(atom_text(p)),
        free_of_cr(or_chain_text(p)),
        free_of_cr(and_chain_text(p)),
        free_of_cr(pred_text(p)),
        free_of_cr(not_inner_text(p)),
    decreases p,
{
    lemma_pieces_free_of_cr();
    match p {
        Predicate::Or { left, right, .. } => {
            lemma_pred_texts_free_of_cr(*left);
            lemma_pred_texts_free_of_cr(*right);
            assert(free_of_cr(or_chain_text(p)));
            assert(free_of_cr(and_chain_text(p)));
        },
        Predicate::And { left, right, .. } => {
            lemma_pred_texts_free_of_cr(*left);
            lemma_pred_texts_free_of_cr(*right);
            assert(free_of_cr(and_chain_text(p)));
            assert(free_of_cr(or_chain_text(p)));
        },
        Predicate::Not { inner, .. } => {
            lemma_pred_texts_free_of_cr(*inner);
        },
        Predicate::Cmp { rhs, .. } => {
            if let CmpRhs::Int(v) = rhs {
                lemma_int_decimal_free_of_cr(v as int);
            }
        },
        _ => {},
    }
}

proof fn lemma_expr_text_free_of_cr(e: Expr, parent: int)
    ensures
        free_of_cr(expr_text(e, parent)),
    decreases e,
{
    lemma_pieces_free_of_cr();
    let my = expr_prec_spec(e);
    match e {
        Expr::Add { left, right, .. } | Expr::Sub { left, right, .. } | Expr::Mul { left, right, .. }
        | Expr::Div { left, right, .. } | Expr::Mod { left, right, .. } => {
            lemma_expr_text_free_of_cr(*left, my);
            lemma_expr_text_free_of_cr(*right, my + 1);
        },
        Expr::Neg { inner, .. } => {
            lemma_expr_text_free_of_cr(*inner, my);
        },
        Expr::Lit { v, .. } => {
            lemma_int_decimal_free_of_cr(v as int);
        },
        Expr::Dot { .. } => {},
    }
}

proof fn lemma_lit_list_free_of_cr(es: Seq<LitElem>)
    ensures
        free_of_cr(lit_list_text(es)),
    decreases es.len(),
{
    lemma_pieces_free_of_cr();
    if es.len() > 0 {
        lemma_lit_list_free_of_cr(es.drop_last());
        match es.last() {
            LitElem::I32(v) => lemma_int_decimal_free_of_cr(v as int),
            LitElem::I64(v) => lemma_int_decimal_free_of_cr(v as int),
            LitElem::Bool(_) => {},
        }
        match es[0] {
            LitElem::I32(v) => lemma_int_decimal_free_of_cr(v as int),
            LitElem::I64(v) => lemma_int_decimal_free_of_cr(v as int),
            LitElem::Bool(_) => {},
        }
    }
}

proof fn lemma_stage_text_free_of_cr(s: Stage)
    ensures
        free_of_cr(stage_text(s)),
{
    lemma_pieces_free_of_cr();
    match s {
        Stage::Filter { pred, .. } => lemma_pred_texts_free_of_cr(pred),
        Stage::MapEach { expr, .. } => lemma_expr_text_free_of_cr(expr, 0),
        Stage::Scan { init, .. } => lemma_int_decimal_free_of_cr(init as int),
        Stage::Take { n, .. } | Stage::Drop { n, .. } => lemma_nat_decimal_free_of_cr(n as nat),
        _ => {},
    }
}

proof fn lemma_stages_text_free_of_cr(st: Seq<Stage>)
    ensures
        free_of_cr(stages_text(st)),
    decreases st.len(),
{
    lemma_pieces_free_of_cr();
    if st.len() > 0 {
        lemma_stages_text_free_of_cr(st.drop_last());
        lemma_stage_text_free_of_cr(st.last());
    }
}

/// The canonical text of every program passes the canonical-text check: it holds no
/// carriage return, so normalizing its line ends gives it back unchanged, and
/// `program_is_canonical_text` answers `true` on what `format_program` printed.
pub proof fn law_formatted_text_is_canonical(p: Program)
    ensures
        free_of_cr(format_program_spec(p)),
        crlf_to_lf(format_program_spec(p)) == format_program_spec(p),
{
    lemma_pieces_free_of_cr();
    lemma_stages_text_free_of_cr(p.stages@);
    match p.source {
        Source::Range { start, stop, step, .. } => {
            lemma_int_decimal_free_of_cr(start as int);
            lemma_int_decimal_free_of_cr(stop as int);
            lemma_int_decimal_free_of_cr(step as int);
        },
        Source::Lit { elems, .. } => lemma_lit_list_free_of_cr(elems@),
        _ => {},
    }
    lemma_crlf_to_lf_identity(format_program_spec(p));
}

} // verus!
