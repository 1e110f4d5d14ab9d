//! What the `lir` command computes from its arguments and prints of a run: the
//! `-o <out> <file>` arguments of `compile` and `wasm`, the `--input` argument of `run`,
//! and the JSON text of a run's result.

use vstd::prelude::*;
use crate::ast::ElemTy;
use crate::input_parse::{input_array_spec, parse_input_array};
use crate::interp::Val;
use crate::text::{int_decimal, push_i64, push_str, push_string, string_of};

verus! {

/// JSON text of one value.
pub open spec fn val_json(v: Val) -> Seq<char> {
    match v {
        Val::I32(x) => int_decimal(x as int),
        Val::I64(x) => int_decimal(x as int),
        Val::Bool(b) => if b { "true"@ } else { "false"@ },
    }
}

/// The values `vs[i..]`, each preceded by a comma.
pub open spec fn vals_json_rest(vs: Seq<Val>, i: int) -> Seq<char>
    decreases vs.len() - i,
{
    if 0 <= i < vs.len() { ","@ + val_json(vs[i]) + vals_json_rest(vs, i + 1) } else { Seq::empty() }
}

/// JSON array text of a stream.
pub open spec fn vals_json(vs: Seq<Val>) -> Seq<char> {
    if vs.len() == 0 { "[]"@ } else { "["@ + val_json(vs[0]) + vals_json_rest(vs, 1) + "]"@ }
}

/// JSON text of one value: a number, `true` or `false`.
pub fn val_to_json(v: &Val) -> (s: String)
    ensures
        s@ == val_json(*v),
{
    match v {
        Val::I32(x) => {
            let mut s = String::new();
            push_i64(&mut s, *x as i64);
            assert(s@ =~= int_decimal(*x as int));
            s
        },
        Val::I64(x) => {
            let mut s = String::new();
            push_i64(&mut s, *x);
            assert(s@ =~= int_decimal(*x as int));
            s
        },
        Val::Bool(b) => string_of(if *b { "true" } else { "false" }),
    }
}

/// JSON array text of a stream: `[v1,v2,...]`.
pub fn vals_to_json(vs: &[Val]) -> (s: String)
    ensures
        s@ == vals_json(vs@),
{
    let n = vs.len();
    if n == 0 {
        return string_of("[]");
    }
    let mut s = string_of("[");
    push_string(&mut s, &val_to_json(&vs[0]));
    let ghost head = s@;
    let mut i: usize = 1;
    while i < n
        invariant
            1 <= i <= n == vs@.len(),
            head + vals_json_rest(vs@, 1) == s@ + vals_json_rest(vs@, i as int),
        decreases n - i,
    {
        let ghost before = s@;
        push_str(&mut s, ",");
        push_string(&mut s, &val_to_json(&vs[i]));
        proof {
            let item = ","@ + val_json(vs@[i as int]);
            assert(s@ == before + item);
            vstd::seq_lib::lemma_concat_associative(before, item, vals_json_rest(vs@, i + 1));
        }
        i = i + 1;
    }
    assert(s@ + vals_json_rest(vs@, n as int) =~= s@);
    push_str(&mut s, "]");
    s
}

/// Why the arguments of `compile` / `wasm` were refused.
#[derive(Debug, PartialEq, Eq)]
pub enum OutputArgsError {
    /// `-o` is the last argument.
    MissingPath,
    /// `-o` is followed by an empty argument.
    EmptyPath,
    /// An argument starts with `-` and is not `-o`.
    UnknownFlag(String),
    /// Not exactly one source file.
    FileCount,
    /// No `-o <path>`.
    MissingOutput,
}

/// View of an argument error.
pub enum OutputArgsErrorView {
    MissingPath,
    EmptyPath,
    UnknownFlag(Seq<char>),
    FileCount,
    MissingOutput,
}

impl View for OutputArgsError {
    type V = OutputArgsErrorView;

    open spec fn view(&self) -> OutputArgsErrorView {
        match self {
            OutputArgsError::MissingPath => OutputArgsErrorView::MissingPath,
            OutputArgsError::EmptyPath => OutputArgsErrorView::EmptyPath,
            OutputArgsError::UnknownFlag(s) => OutputArgsErrorView::UnknownFlag(s@),
            OutputArgsError::FileCount => OutputArgsErrorView::FileCount,
            OutputArgsError::MissingOutput => OutputArgsErrorView::MissingOutput,
        }
    }
}

/// Scan of `args[i..]`: the source files and the last `-o` path met so far, or the first
/// refused argument.
pub open spec fn scan_output_args(args: Seq<Seq<char>>, i: int, files: Seq<Seq<char>>, out: Option<Seq<char>>) -> Result<(Seq<Seq<char>>, Option<Seq<char>>), OutputArgsErrorView>
    decreases args.len() - i,
{
    if i < 0 || i >= args.len() {
        Ok((files, out))
    } else if args[i] == "-o"@ {
        if i + 1 >= args.len() {
            Err(OutputArgsErrorView::MissingPath)
        } else if args[i + 1].len() == 0 {
            Err(OutputArgsErrorView::EmptyPath)
        } else {
            scan_output_args(args, i + 2, files, Some(args[i + 1]))
        }
    } else if args[i].len() > 0 && args[i][0] == '-' {
        Err(OutputArgsErrorView::UnknownFlag(args[i]))
    } else {
        scan_output_args(args, i + 1, files.push(args[i]), out)
    }
}

/// The source file and output path of `compile` / `wasm` arguments (flags in any order).
pub open spec fn output_args_spec(args: Seq<Seq<char>>) -> Result<(Seq<char>, Seq<char>), OutputArgsErrorView> {
    match scan_output_args(args, 0, Seq::empty(), None) {
        Err(e) => Err(e),
        Ok((files, out)) => if files.len() != 1 {
            Err(OutputArgsErrorView::FileCount)
        } else {
            match out {
                None => Err(OutputArgsErrorView::MissingOutput),
                Some(o) => Ok((files[0], o)),
            }
        },
    }
}

/// The views of a list of strings.
pub open spec fn arg_views(v: Seq<String>) -> Seq<Seq<char>> {
    v.map_values(|s: String| s@)
}

/// Splits `-o <out> <file>` (in any order) into the source file and the output path.
pub fn split_output_args(rest: &[String]) -> (r: Result<(String, String), OutputArgsError>)
    ensures
        match (r, output_args_spec(arg_views(rest@))) {
            (Ok((f, o)), Ok((fv, ov))) => f@ == fv && o@ == ov,
            (Err(e), Err(x)) => e@ == x,
            _ => false,
        },
{
    let ghost args = arg_views(rest@);
    let n = rest.len();
    let mut out: Option<String> = None;
    let mut files: Vec<String> = Vec::new();
    let mut i: usize = 0;
    proof {
        reveal_strlit("-o");
        assert(arg_views(files@) =~= Seq::<Seq<char>>::empty());
    }
    while i < n
        invariant
            i <= n == rest@.len(),
            args == arg_views(rest@),
            scan_output_args(args, 0, Seq::empty(), None) == scan_output_args(
                args,
                i as int,
                arg_views(files@),
                match out { Some(o) => Some(o@), None => None },
            ),
        decreases n - i,
    {
        let a = &rest[i];
        assert(args[i as int] == a@);
        let is_o = a.as_str().unicode_len() == 2 && a.as_str().get_char(0) == '-' && a.as_str().get_char(1) == 'o';
        proof {
            reveal_strlit("-o");
            if is_o {
                assert(a@ =~= "-o"@);
            } else if a@.len() == 2 {
                assert(a@ != "-o"@) by {
                    if a@ == "-o"@ {
                        assert(a@[0] == '-' && a@[1] == 'o');
                    }
                }
            }
        }
        if is_o {
            if i + 1 >= n {
                return Err(OutputArgsError::MissingPath);
            }
            let p = &rest[i + 1];
            assert(args[i + 1] == p@);
            if p.as_str().unicode_len() == 0 {
                return Err(OutputArgsError::EmptyPath);
            }
            out = Some(p.clone());
            i = i + 2;
        } else if a.as_str().unicode_len() > 0 && a.as_str().get_char(0) == '-' {
            return Err(OutputArgsError::UnknownFlag(a.clone()));
        } else {
            let ghost pre = files@;
            let c = a.clone();
            files.push(c);
            proof {
                assert(arg_views(files@) =~= arg_views(pre).push(a@));
            }
            i = i + 1;
        }
    }
    if files.len() != 1 {
        return Err(OutputArgsError::FileCount);
    }
    match out {
        None => Err(OutputArgsError::MissingOutput),
        Some(o) => {
            let f = files[0].clone();
            Ok((f, o))
        },
    }
}

/// Message for a refused `compile` / `wasm` argument list.
pub open spec fn output_args_text(cmd: Seq<char>, e: OutputArgsErrorView) -> Seq<char> {
    match e {
        OutputArgsErrorView::MissingPath => cmd + ": -o needs a path"@,
        OutputArgsErrorView::EmptyPath => cmd + ": empty path after -o"@,
        OutputArgsErrorView::UnknownFlag(f) => cmd + ": unknown flag `"@ + f + "`"@,
        OutputArgsErrorView::FileCount => cmd + " expects exactly one source file (see `lir help "@ + cmd + "`)"@,
        OutputArgsErrorView::MissingOutput => if cmd == "compile"@ {
            cmd + " requires -o <out.ll> (see `lir help compile`)"@
        } else {
            cmd + " requires -o <out.wasm>"@
        },
    }
}

fn output_args_message(cmd: &str, e: &OutputArgsError) -> (m: String)
    ensures
        m@ == output_args_text(cmd@, e@),
{
    let mut m = string_of(cmd);
    match e {
        OutputArgsError::MissingPath => push_str(&mut m, ": -o needs a path"),
        OutputArgsError::EmptyPath => push_str(&mut m, ": empty path after -o"),
        OutputArgsError::UnknownFlag(f) => {
            push_str(&mut m, ": unknown flag `");
            push_string(&mut m, f);
            push_str(&mut m, "`");
        },
        OutputArgsError::FileCount => {
            push_str(&mut m, " expects exactly one source file (see `lir help ");
            push_str(&mut m, cmd);
            push_str(&mut m, "`)");
        },
        OutputArgsError::MissingOutput => {
            if string_of(cmd) == string_of("compile") {
                push_str(&mut m, " requires -o <out.ll> (see `lir help compile`)");
            } else {
                push_str(&mut m, " requires -o <out.wasm>");
            }
        },
    }
    m
}

/// Source file and output path of `lir compile`.
pub fn parse_compile_rest(rest: &[String]) -> (r: Result<(String, String), String>)
    ensures
        match (r, output_args_spec(arg_views(rest@))) {
            (Ok((f, o)), Ok((fv, ov))) => f@ == fv && o@ == ov,
            (Err(m), Err(x)) => m@ == output_args_text("compile"@, x),
            _ => false,
        },
{
    match split_output_args(rest) {
        Ok(p) => Ok(p),
        Err(e) => Err(output_args_message("compile", &e)),
    }
}

/// Source file and output path of `lir wasm`.
pub fn parse_wasm_rest(rest: &[String]) -> (r: Result<(String, String), String>)
    ensures
        match (r, output_args_spec(arg_views(rest@))) {
            (Ok((f, o)), Ok((fv, ov))) => f@ == fv && o@ == ov,
            (Err(m), Err(x)) => m@ == output_args_text("wasm"@, x),
            _ => false,
        },
{
    match split_output_args(rest) {
        Ok(p) => Ok(p),
        Err(e) => Err(output_args_message("wasm", &e)),
    }
}

/// The input stream of `lir run`: nothing, or `--input '[...]'` parsed for the source type.
pub fn parse_input_args(rest: &[String], input_ty: ElemTy) -> (r: Result<Vec<Val>, String>)
    ensures
        rest@.len() == 0 ==> (r matches Ok(v) && v@.len() == 0),
        rest@.len() > 0 && rest@[0]@ == "--input"@ && rest@.len() > 1 ==> match (r, input_array_spec(rest@[1]@, input_ty)) {
            (Ok(v), Ok(w)) => v@ == w,
            (Err(m), Err(x)) => m@ == x,
            _ => false,
        },
        rest@.len() > 0 && rest@[0]@ == "--input"@ && rest@.len() == 1 ==> (r matches Err(m) && m@ == "--input needs an array argument"@),
        rest@.len() > 0 && rest@[0]@ != "--input"@ ==> (r matches Err(m) && m@ == "unexpected argument `"@ + rest@[0]@ + "`; use --input '[...]'"@),
{
    if rest.len() == 0 {
        return Ok(Vec::new());
    }
    let flag = &rest[0];
    if *flag == string_of("--input") {
        if rest.len() < 2 {
            return Err(string_of("--input needs an array argument"));
        }
        parse_input_array(rest[1].as_str(), input_ty)
    } else {
        let mut m = string_of("unexpected argument `");
        push_string(&mut m, flag);
        push_str(&mut m, "`; use --input '[...]'");
        Err(m)
    }
}

} // verus!
