use lir::ast::ElemTy;
use lir::ast_json::{document_program, lir_ast_document, unsupported_version_message, AstJsonError, AST_JSON_SCHEMA_VERSION};
use lir::cli::{parse_compile_rest, parse_input_args, parse_wasm_rest, split_output_args, val_to_json, vals_to_json, OutputArgsError};
use lir::interp::{RunOutcome, Val};
use lir::llvm_ir::{compile_plan, emit_llvm_ir_for_host, host_triple, llvm_triple_is_safe, PlanKind};
use lir::lytr::interp::evaluation_aborts;
use lir::lytr::lex::{tokenize, TokenKind};
use lir::wasm::{adapt_llvm_ir_for_wasm, wasm_compile_error};
use lir::{
    check_lytr_program, check_program, cli_json_line, emit_llvm_ir, format_program, parse_input_array,
    parse_lytr_program, parse_program, program_is_canonical_text, run_lytr_program, run_program, LirError, LytrError,
    Span,
};

fn syntax_code_span(e: &LirError) -> (&'static str, Span) {
    match e {
        LirError::Syntax { code, span, .. } => (code, *span),
        other => panic!("expected a syntax error, got {other:?}"),
    }
}

#[test]
fn header_error_span_covers_first_line() {
    let e = parse_program("lir/2\ninput:i32 | reduce count").unwrap_err();
    assert_eq!(syntax_code_span(&e), ("E_HEADER", Span::new(0, 5)));
    let e = parse_program("").unwrap_err();
    assert_eq!(syntax_code_span(&e), ("E_HEADER", Span::new(0, 1)));
    let e = parse_program("\u{e9}\ninput | reduce count").unwrap_err();
    assert_eq!(syntax_code_span(&e), ("E_HEADER", Span::new(0, 2)));
}

#[test]
fn byte_order_mark_and_crlf_are_accepted() {
    let p = parse_program("\u{feff}lir/1\r\ninput:i64 | reduce count\r\n").unwrap();
    assert_eq!(format_program(&p), "lir/1\ninput:i64 | reduce count\n");
    assert_eq!(p.span, Span::new(0, 7 + 26));
}

#[test]
fn program_span_and_stage_spans_are_byte_offsets() {
    let p = parse_program("lir/1\nrange(0,3) | reduce sum").unwrap();
    assert_eq!(p.span, Span::new(0, 6 + 23));
    match &p.stages[0] {
        lir::ast::Stage::Reduce { span, .. } => assert_eq!(*span, Span::new(19, 25)),
        other => panic!("unexpected stage {other:?}"),
    }
}

#[test]
fn missing_pipe_and_trailing_tokens() {
    let e = parse_program("lir/1\ninput:i32 reduce count").unwrap_err();
    assert_eq!(syntax_code_span(&e), ("E_EXPECTED_STAGE", Span::new(16, 22)));
    let e = parse_program("lir/1\ninput:i32 | reduce count count").unwrap_err();
    assert_eq!(syntax_code_span(&e), ("E_EXPECTED_EOF", Span::new(31, 36)));
}

#[test]
fn lexer_errors_are_relative_to_the_body() {
    let e = parse_program("lir/1\ninput | map . add - 1 | reduce sum").unwrap_err();
    assert_eq!(syntax_code_span(&e), ("E_BAD_MINUS", Span::new(18, 19)));
    let e = parse_program("lir/1\ninput \u{e9}").unwrap_err();
    assert_eq!(syntax_code_span(&e), ("E_UNEXPECTED_CHAR", Span::new(6, 7)));
    match &e {
        LirError::Syntax { message, .. } => assert_eq!(message, "unexpected character `\u{e9}`"),
        _ => unreachable!(),
    }
}

#[test]
fn canonical_text_check() {
    let src = "lir/1\ninput:i32 | reduce count\n";
    let p = parse_program(src).unwrap();
    assert!(program_is_canonical_text(src, &p));
    assert!(program_is_canonical_text("lir/1\r\ninput:i32 | reduce count\r\n", &p));
    let loose = "lir/1\ninput:i32|reduce count\n";
    assert!(!program_is_canonical_text(loose, &parse_program(loose).unwrap()));
}

#[test]
fn formatting_is_stable_on_predicates_and_expressions() {
    let src = "lir/1\ninput:i32 | filter not (even or lt 3) & gt -5 | map (. add 1) mul neg . | reduce max";
    let once = format_program(&parse_program(src).unwrap());
    let twice = format_program(&parse_program(&once).unwrap());
    assert_eq!(once, twice);
}

#[test]
fn canonical_text_reads_back_to_itself() {
    for src in [
        "lir/1\ninput:i64 | map . sub (1 add 2) | reduce sum",
        "lir/1\ninput | filter lt 3 or (even or gt 9) | filter not not (odd & ge -2) | id",
        "lir/1\nlit(1, 3000000000, -7) | map neg (. mul 2) div 3 mod 5 | take 2",
        "lir/1\nrange(0, 10, 3) | scan 1, mul | drop 1 | reduce max",
        "lir/1\nlit() | filter eq true | reduce count",
    ] {
        let once = format_program(&parse_program(src).unwrap());
        let again = parse_program(&once).unwrap();
        assert_eq!(format_program(&again), once);
    }
}

#[test]
fn formatted_text_passes_the_canonical_check() {
    for src in [
        "lir/1\nrange(5, 0) | scan 0, sub | take 2",
        "lir/1\nlit(true, false) | filter eq true | reduce count",
        "lir/1\ninput:i64 | filter (odd & ge 2) or not lt -3 | map . mod 7 sub 1 | drop 1 | id",
    ] {
        let p = parse_program(src).unwrap();
        let text = format_program(&p);
        assert!(!text.contains('\r'));
        assert!(program_is_canonical_text(&text, &p));
    }
}

#[test]
fn reduce_count_is_stream_length_and_sum_of_empty_is_zero() {
    let p = parse_program("lir/1\ninput:i64 | reduce count").unwrap();
    let input = vec![Val::I64(1), Val::I64(2), Val::I64(3)];
    assert!(matches!(run_program(&p, &input).unwrap(), RunOutcome::Scalar(Val::I32(3))));
    let p = parse_program("lir/1\ninput:i64 | reduce sum").unwrap();
    assert!(matches!(run_program(&p, &[]).unwrap(), RunOutcome::Scalar(Val::I64(0))));
}

#[test]
fn run_rejects_input_of_the_wrong_type() {
    let p = parse_program("lir/1\ninput:i32 | reduce count").unwrap();
    let e = run_program(&p, &[Val::I32(1), Val::Bool(true)]).unwrap_err();
    match e {
        LirError::Runtime { code, element_index, .. } => {
            assert_eq!(code, "R_INPUT_TY");
            assert_eq!(element_index, Some(1));
        }
        other => panic!("unexpected {other:?}"),
    }
}

#[test]
fn stream_output_and_overflow() {
    let p = parse_program("lir/1\nrange(0,4) | map . mul 2").unwrap();
    match run_program(&p, &[]).unwrap() {
        RunOutcome::Stream(vs) => assert_eq!(vals_to_json(&vs), "[0,2,4,6]"),
        other => panic!("unexpected {other:?}"),
    }
    let p = parse_program("lir/1\nlit(2000000000, 2000000000) | reduce sum").unwrap();
    check_program(&p).unwrap();
    match run_program(&p, &[]).unwrap_err() {
        LirError::Runtime { code, .. } => assert_eq!(code, "R_INTEGER_OVERFLOW"),
        other => panic!("unexpected {other:?}"),
    }
}

#[test]
fn input_arrays_follow_str_trim_and_i64_parsing() {
    assert_eq!(parse_input_array(" \u{a0}[ 1 ,+2, -0 ]\n", ElemTy::I64).unwrap(), vec![Val::I64(1), Val::I64(2), Val::I64(0)]);
    assert_eq!(parse_input_array("[]", ElemTy::I32).unwrap(), vec![]);
    assert_eq!(parse_input_array("[   ]", ElemTy::Bool).unwrap(), vec![]);
    assert_eq!(parse_input_array("[[1]]", ElemTy::I32).unwrap(), vec![Val::I32(1)]);
    assert_eq!(parse_input_array("1, 2", ElemTy::I32).unwrap_err(), "input must be a bracketed array, e.g. '[1, 2]'");
    assert_eq!(parse_input_array("[1,]", ElemTy::I32).unwrap_err(), "invalid integer array element ``");
    assert_eq!(parse_input_array("[9223372036854775808]", ElemTy::I64).unwrap_err(), "invalid i64 array element `9223372036854775808`");
    assert_eq!(parse_input_array("[-9223372036854775808]", ElemTy::I64).unwrap(), vec![Val::I64(i64::MIN)]);
    assert_eq!(parse_input_array("[3000000000]", ElemTy::I32).unwrap_err(), "value `3000000000` does not fit i32 (use input:i64 for larger values)");
    assert_eq!(parse_input_array("[true]", ElemTy::I64).unwrap_err(), "input:i64 expects numeric elements, got `true`");
    assert_eq!(parse_input_array("[false]", ElemTy::I32).unwrap_err(), "input:i32 expects integer elements, got `false`");
    assert_eq!(parse_input_array("[yes]", ElemTy::Bool).unwrap_err(), "input:bool expects true or false in the array, got `yes`");
}

#[test]
fn run_arguments() {
    let none: Vec<String> = vec![];
    assert_eq!(parse_input_args(&none, ElemTy::I32).unwrap(), vec![]);
    let good = vec!["--input".to_string(), "[1, 2]".to_string()];
    assert_eq!(parse_input_args(&good, ElemTy::I32).unwrap(), vec![Val::I32(1), Val::I32(2)]);
    let short = vec!["--input".to_string()];
    assert_eq!(parse_input_args(&short, ElemTy::I32).unwrap_err(), "--input needs an array argument");
    let odd = vec!["--in".to_string()];
    assert_eq!(parse_input_args(&odd, ElemTy::I32).unwrap_err(), "unexpected argument `--in`; use --input '[...]'");
}

#[test]
fn output_arguments_in_any_order() {
    let a: Vec<String> = ["x.lir", "-o", "out.ll"].iter().map(|s| s.to_string()).collect();
    assert_eq!(split_output_args(&a).unwrap(), ("x.lir".to_string(), "out.ll".to_string()));
    let b: Vec<String> = ["-o", "a.ll", "-o", "b.ll", "x.lir"].iter().map(|s| s.to_string()).collect();
    assert_eq!(parse_compile_rest(&b).unwrap(), ("x.lir".to_string(), "b.ll".to_string()));
    let c: Vec<String> = ["x.lir", "-o"].iter().map(|s| s.to_string()).collect();
    assert_eq!(split_output_args(&c).unwrap_err(), OutputArgsError::MissingPath);
    assert_eq!(parse_wasm_rest(&c).unwrap_err(), "wasm: -o needs a path");
    let d: Vec<String> = ["-o", "", "x.lir"].iter().map(|s| s.to_string()).collect();
    assert_eq!(parse_compile_rest(&d).unwrap_err(), "compile: empty path after -o");
    let e: Vec<String> = ["-v", "x.lir"].iter().map(|s| s.to_string()).collect();
    assert_eq!(parse_compile_rest(&e).unwrap_err(), "compile: unknown flag `-v`");
    let f: Vec<String> = ["x.lir", "y.lir", "-o", "o"].iter().map(|s| s.to_string()).collect();
    assert_eq!(parse_wasm_rest(&f).unwrap_err(), "wasm expects exactly one source file (see `lir help wasm`)");
    let g: Vec<String> = ["x.lir"].iter().map(|s| s.to_string()).collect();
    assert_eq!(parse_compile_rest(&g).unwrap_err(), "compile requires -o <out.ll> (see `lir help compile`)");
    assert_eq!(parse_wasm_rest(&g).unwrap_err(), "wasm requires -o <out.wasm>");
}

#[test]
fn values_as_json() {
    assert_eq!(val_to_json(&Val::I32(-7)), "-7");
    assert_eq!(val_to_json(&Val::I64(i64::MIN)), "-9223372036854775808");
    assert_eq!(val_to_json(&Val::Bool(true)), "true");
    assert_eq!(vals_to_json(&[]), "[]");
    assert_eq!(vals_to_json(&[Val::Bool(false), Val::I32(3)]), "[false,3]");
}

#[test]
fn diagnostics_as_json_and_text() {
    let e = parse_program("lir/1\ninput | bogus").unwrap_err();
    assert_eq!(
        e.to_json_line(),
        "{\"kind\":\"syntax\",\"code\":\"E_BAD_STAGE\",\"span\":{\"start\":14,\"end\":19},\"message\":\"unknown stage `bogus`\",\"fix_hint\":\"Use filter, map, scan, reduce, take, drop, or id.\"}"
    );
    assert!(e.to_display_string().starts_with("[E_BAD_STAGE] unknown stage `bogus` (bytes 14..19) \u{2014} "));
    assert_eq!(cli_json_line("E_CLI_ARGS", "a \"quoted\"\n"), "{\"kind\":\"cli\",\"code\":\"E_CLI_ARGS\",\"message\":\"a \\\"quoted\\\"\\n\"}");
}

#[test]
fn span_merge_is_the_covering_span() {
    let a = Span::new(3, 5);
    let b = Span::new(1, 4);
    assert_eq!(Span::merge(a, b), Span::new(1, 5));
    assert_eq!(Span::merge(b, a), Span::merge(a, b));
    assert_eq!(Span::merge(a, a), a);
}

#[test]
fn llvm_ir_header_and_triple() {
    let p = parse_program("lir/1\ninput:i32 | reduce sum").unwrap();
    let ir = emit_llvm_ir(&p).unwrap();
    assert!(ir.starts_with("; LIR v1 \u{2014} generated LLVM IR\ntarget datalayout = \"e-m:e-i64:64-f80:128-n8:16:32:64-S128\"\ntarget triple = \"unknown-unknown-unknown\"\n\ndeclare void @llvm.trap()"));
    assert!(ir.ends_with("\nattributes #0 = { nounwind }\n"));
    let host = emit_llvm_ir_for_host(&p, Some("x86_64-unknown-linux-gnu")).unwrap();
    assert!(host.contains("target triple = \"x86_64-unknown-linux-gnu\"\n"));
    let bad = emit_llvm_ir_for_host(&p, Some("x\"; injected")).unwrap();
    assert!(bad.contains("target triple = \"unknown-unknown-unknown\"\n"));
    assert!(llvm_triple_is_safe("aarch64-apple-darwin"));
    assert!(!llvm_triple_is_safe(""));
    assert!(!llvm_triple_is_safe(&"a".repeat(129)));
    assert!(llvm_triple_is_safe(&"a".repeat(128)));
    assert_eq!(host_triple(None), "unknown-unknown-unknown");
}

#[test]
fn llvm_constant_array_rows() {
    let p = parse_program("lir/1\nlit(1, -2, 3) | drop 1 | reduce sum").unwrap();
    let ir = emit_llvm_ir(&p).unwrap();
    assert!(ir.contains("@lir_data = private unnamed_addr constant [2 x i32] [\n  i32 -2,\n  i32 3\n], align 4\n\n"));
    assert!(ir.contains("define i32 @lir_main() local_unnamed_addr #0 {\nentry:\n  br label %loop\nloop:\n"));
}

#[test]
fn plan_prefix_take_drop() {
    let p = parse_program("lir/1\nrange(0,10) | drop 2 | take 5 | take 3 | id | reduce count").unwrap();
    let plan = compile_plan(&p).unwrap();
    match plan.kind {
        PlanKind::ArrayI32 { elems } => assert_eq!(elems, vec![2, 3, 4]),
        other => panic!("unexpected {other:?}"),
    }
    let p = parse_program("lir/1\ninput:i64 | drop 4294967295 | drop 9 | take 2 | reduce sum").unwrap();
    match compile_plan(&p).unwrap().kind {
        PlanKind::Input { drop, take } => {
            assert_eq!(drop, u32::MAX);
            assert_eq!(take, Some(2));
        }
        other => panic!("unexpected {other:?}"),
    }
}

#[test]
fn folded_prefix_matches_the_interpreter() {
    let compiled = parse_program("lir/1\nrange(10, 0, -2) | drop 1 | id | take 3 | reduce count").unwrap();
    let elems = match compile_plan(&compiled).unwrap().kind {
        PlanKind::ArrayI32 { elems } => elems,
        other => panic!("unexpected {other:?}"),
    };
    let prefix = parse_program("lir/1\nrange(10, 0, -2) | drop 1 | id | take 3").unwrap();
    match run_program(&prefix, &[]).unwrap() {
        RunOutcome::Stream(vs) => {
            assert_eq!(vs, vec![Val::I32(8), Val::I32(6), Val::I32(4)]);
            assert_eq!(elems, vec![8, 6, 4]);
        }
        other => panic!("unexpected {other:?}"),
    }
    let compiled = parse_program("lir/1\nlit(true, false, true) | drop 1 | reduce count").unwrap();
    match compile_plan(&compiled).unwrap().kind {
        PlanKind::ArrayI8 { elems } => assert_eq!(elems, vec![0, 1]),
        other => panic!("unexpected {other:?}"),
    }
    let prefix = parse_program("lir/1\nlit(true, false, true) | drop 1").unwrap();
    match run_program(&prefix, &[]).unwrap() {
        RunOutcome::Stream(vs) => assert_eq!(vs, vec![Val::Bool(false), Val::Bool(true)]),
        other => panic!("unexpected {other:?}"),
    }
}

#[test]
fn prefix_folding_matches_interpreter() {
    let compiled = parse_program("lir/1\nrange(0, 10) | take 3 | drop 1 | reduce count").unwrap();
    match compile_plan(&compiled).unwrap().kind {
        PlanKind::ArrayI32 { elems } => assert_eq!(elems, vec![1, 2]),
        other => panic!("unexpected {other:?}"),
    }
    let prefix = parse_program("lir/1\nrange(0, 10) | take 3 | drop 1").unwrap();
    match run_program(&prefix, &[]).unwrap() {
        RunOutcome::Stream(vs) => assert_eq!(vs, vec![Val::I32(1), Val::I32(2)]),
        other => panic!("unexpected {other:?}"),
    }
}

#[test]
fn codegen_diagnostics() {
    let code_of = |src: &str| match emit_llvm_ir(&parse_program(src).unwrap()).unwrap_err() {
        LirError::Type { code, .. } => code.to_string(),
        LirError::Runtime { code, stage_index, .. } => format!("{code}@{stage_index}"),
        other => panic!("unexpected {other:?}"),
    };
    assert_eq!(code_of("lir/1\nrange(0,3) | map . add 1"), "T_CODEGEN_UNSUPPORTED");
    assert_eq!(code_of("lir/1\ninput:bool | scan 0, add | reduce count"), "T_CODEGEN_UNSUPPORTED");
    assert_eq!(code_of("lir/1\ninput:i32 | id | scan 5000000000, add | reduce sum"), "R_SCAN_INIT_RANGE@1");
    assert_eq!(code_of("lir/1\nrange(0,2000000) | reduce count"), "T_CODEGEN_TOO_LARGE");
}

#[test]
fn wasm_header_rewrite() {
    let ir = "; c\n  target datalayout = \"x\"\r\ntarget triple = \"y\"\nrest\r\n";
    assert_eq!(
        adapt_llvm_ir_for_wasm(ir),
        "; c\ntarget datalayout = \"e-m:e-p:32:32-p10:8:8-p20:8:8-i64:64-n32:64-S128\"\ntarget triple = \"wasm32-unknown-unknown\"\nrest"
    );
    assert_eq!(adapt_llvm_ir_for_wasm(""), "");
    assert_eq!(adapt_llvm_ir_for_wasm("a\n\nb\r"), "a\n\nb\r");
    match wasm_compile_error(Span::new(0, 9), &"no clang".to_string()) {
        LirError::Type { code, span, message, .. } => {
            assert_eq!(code, "T_WASM_COMPILE");
            assert_eq!(span, Span::new(0, 9));
            assert_eq!(message, "cannot compile LLVM IR to WebAssembly: no clang");
        }
        other => panic!("unexpected {other:?}"),
    }
}

#[test]
fn ast_document_versions() {
    let p = parse_program("lir/1\ninput:i32 | reduce count").unwrap();
    let doc = lir_ast_document(p.clone());
    assert_eq!(doc.schema_version, AST_JSON_SCHEMA_VERSION);
    assert_eq!(document_program(doc).unwrap(), p);
    let mut old = lir_ast_document(p);
    old.schema_version = 999;
    match document_program(old) {
        Err(AstJsonError::UnsupportedSchemaVersion { got }) => assert_eq!(got, 999),
        other => panic!("unexpected {other:?}"),
    }
    assert_eq!(unsupported_version_message(999), "unsupported schema_version 999 (expected 1)");
}

fn lytr_code(e: &LytrError) -> (&'static str, Span) {
    match e {
        LytrError::Syntax { code, span, .. } | LytrError::Type { code, span, .. } | LytrError::Runtime { code, span, .. } => (code, *span),
    }
}

#[test]
fn lytr_tokens_skip_comments_and_shift_by_base() {
    let toks = tokenize("fn // note \u{e9}\n main -> 42", 10).unwrap();
    let kinds: Vec<TokenKind> = toks.iter().map(|t| t.kind).collect();
    assert_eq!(kinds, vec![TokenKind::Fn, TokenKind::Main, TokenKind::Arrow, TokenKind::Int(42), TokenKind::Eof]);
    assert_eq!(toks[1].span, Span::new(10 + 15, 10 + 19));
    assert_eq!(toks[4].span, Span::new(10 + 25, 10 + 25));
    assert_eq!(lytr_code(&tokenize("2147483648", 0).unwrap_err()), ("E_LYTR_INT", Span::new(0, 10)));
    assert_eq!(lytr_code(&tokenize("a ! b", 3).unwrap_err()), ("E_LYTR_LEX", Span::new(5, 6)));
}

#[test]
fn lytr_headers_checks_and_runtime_errors() {
    assert_eq!(lytr_code(&parse_lytr_program("lytr/0.2\n").unwrap_err()), ("E_LYTR_HEADER", Span::new(0, 9)));
    assert_eq!(lytr_code(&parse_lytr_program("lytr/0.1 fn").unwrap_err()), ("E_LYTR_HEADER", Span::new(0, 8)));
    assert_eq!(lytr_code(&parse_lytr_program("lytr/0.1\nfn main() -> i32 { return 1 }").unwrap_err()), ("E_LYTR_PARSE", Span::new(37, 38)));
    let p = parse_lytr_program("lytr/0.1\r\nfn main() -> i32 { }").unwrap();
    assert_eq!(lytr_code(&check_lytr_program(&p).unwrap_err()), ("E_LYTR_TYPE", Span::new(27, 30)));
    let p = parse_lytr_program("lytr/0.1\nfn main() -> i32 { return 1; return 2; }").unwrap();
    assert_eq!(lytr_code(&check_lytr_program(&p).unwrap_err()), ("E_LYTR_TYPE", Span::new(38, 47)));
    let p = parse_lytr_program("lytr/0.1\nfn main() -> i32 { return 7 - 10 / (3 - 3); }").unwrap();
    assert_eq!(lytr_code(&run_lytr_program(&p).unwrap_err()).0, "E_LYTR_DIV0");
    let p = parse_lytr_program("lytr/0.1\nfn main() -> i32 { return 2147483647 + 1; }").unwrap();
    assert_eq!(lytr_code(&run_lytr_program(&p).unwrap_err()).0, "E_LYTR_OVERFLOW");
    let p = parse_lytr_program("lytr/0.1\nfn main() -> i32 { return 8 - 3 - 2 * 2 % 3; }").unwrap();
    assert_eq!(run_lytr_program(&p).unwrap(), 4);
    assert!(!evaluation_aborts(&p));
    let p = parse_lytr_program("lytr/0.1\nfn main() -> i32 { return (0 - 2147483647 - 1) / (0 - 1); }").unwrap();
    assert!(evaluation_aborts(&p));
}

#[test]
fn lytr_diagnostic_json() {
    let e = parse_lytr_program("nope").unwrap_err();
    assert_eq!(
        e.to_json_line(),
        "{\"kind\":\"syntax\",\"code\":\"E_LYTR_HEADER\",\"span\":{\"start\":0,\"end\":4},\"message\":\"expected `lytr/0.1` at start of file\",\"fix_hint\":\"first line must be lytr/0.1\"}"
    );
    assert_eq!(e.to_display_string(), "[E_LYTR_HEADER] expected `lytr/0.1` at start of file (bytes 0..4) \u{2014} first line must be lytr/0.1");
}

#[test]
fn wasm_rewrite_twice_is_rewrite_once() {
    let ir = "; ModuleID = 'lir'\r\n  target datalayout = \"e-m:o\"\ntarget triple = \"x86_64-apple-macosx\"\n\ndefine i32 @lir_main() {\n  ret i32 0\n}\n";
    let once = lir::adapt_llvm_ir_for_wasm(ir);
    assert_eq!(lir::adapt_llvm_ir_for_wasm(&once), once);
    assert!(once.contains("target triple = \"wasm32-unknown-unknown\""));
    // A final empty line is dropped by the second split, so there the law does not apply.
    assert_eq!(lir::adapt_llvm_ir_for_wasm("a\n\n"), "a\n");
    assert_eq!(lir::adapt_llvm_ir_for_wasm("a\n"), "a");
}

#[test]
fn lex_diagnostics_carry_their_messages() {
    let prose = |e: LirError| match e {
        LirError::Syntax { message, fix_hint, .. } => (message, fix_hint),
        other => panic!("unexpected {other:?}"),
    };
    assert_eq!(
        prose(lir::lex::lex("range(0, 3) ! x").unwrap_err()),
        ("unexpected character `!`".to_string(), "LIR v1 allows only letters, digits, _, and | ( ) , . & :.".to_string())
    );
    assert_eq!(prose(lir::lex::lex("lit(-9223372036854775809)").unwrap_err()).0, "integer literal `-9223372036854775809` is out of i64 range");
    assert_eq!(prose(lir::lex::lex("lit(- 1)").unwrap_err()).0, "`-` must be followed by digits here");
}

fn lir_prose(e: LirError) -> (String, String) {
    match e {
        LirError::Syntax { message, fix_hint, .. }
        | LirError::Type { message, fix_hint, .. }
        | LirError::Runtime { message, fix_hint, .. } => (message, fix_hint),
    }
}

#[test]
fn check_and_run_diagnostics_carry_their_messages() {
    let p = parse_program("lir/1\nlit(true, false) | map . add 1 | reduce count").unwrap();
    assert_eq!(
        lir_prose(check_program(&p).unwrap_err()),
        ("map is not defined for bool streams in v1".to_string(), "Filter bools then reduce count, or use integer streams.".to_string())
    );
    let p = parse_program("lir/1\nrange(0, 3) | map 10 div . | reduce sum").unwrap();
    check_program(&p).unwrap();
    assert_eq!(
        lir_prose(run_program(&p, &[]).unwrap_err()),
        ("division or remainder by zero".to_string(), "Avoid zero divisors in map/mod/div.".to_string())
    );
    let p = parse_program("lir/1\ninput:i32 | reduce min").unwrap();
    assert_eq!(
        lir_prose(run_program(&p, &[]).unwrap_err()),
        ("min/max on empty stream".to_string(), "Guard with take/drop or handle empty input in host.".to_string())
    );
}

#[test]
fn folded_prefix_follows_program_order() {
    let p = parse_program("lir/1\nrange(0,10) | take 4 | drop 1 | reduce sum").unwrap();
    check_program(&p).unwrap();
    let plan = lir::llvm_ir::compile_plan(&p).unwrap();
    match plan.kind {
        lir::llvm_ir::PlanKind::ArrayI32 { elems } => assert_eq!(elems, vec![1, 2, 3]),
        other => panic!("unexpected {other:?}"),
    }
    assert!(matches!(run_program(&p, &[]).unwrap(), RunOutcome::Scalar(Val::I32(6))));
}

#[test]
fn empty_min_after_scan_traps() {
    let p = parse_program("lir/1\nrange(0,0) | scan 1, add | filter even | reduce min").unwrap();
    check_program(&p).unwrap();
    let ir = emit_llvm_ir(&p).unwrap();
    assert!(ir.contains("trap_mm_empty"));
    let e = run_program(&p, &[]).unwrap_err();
    assert!(matches!(e, LirError::Runtime { code: "R_REDUCE_EMPTY_MINMAX", .. }));
}

#[test]
fn mixed_lit_stream_is_i64() {
    let p = parse_program("lir/1\nlit(1, 3000000000) | filter gt 5 | reduce count").unwrap();
    check_program(&p).unwrap();
    assert!(matches!(run_program(&p, &[]).unwrap(), RunOutcome::Scalar(Val::I32(1))));
    let p = parse_program("lir/1\nlit(1, 3000000000) | reduce sum").unwrap();
    assert!(matches!(run_program(&p, &[]).unwrap(), RunOutcome::Scalar(Val::I64(3000000001))));
}

#[test]
fn input_array_needs_closing_bracket() {
    assert!(parse_input_array("[1, 2", lir::ast::ElemTy::I32).is_err());
    assert_eq!(parse_input_array(" [1, 2] ", lir::ast::ElemTy::I32).unwrap(), vec![Val::I32(1), Val::I32(2)]);
}

#[test]
fn input_type_error_names_the_index() {
    let p = parse_program("lir/1\ninput:i32 | reduce sum").unwrap();
    match run_program(&p, &[Val::I32(1), Val::Bool(true)]).unwrap_err() {
        LirError::Runtime { code, message, element_index, .. } => {
            assert_eq!(code, "R_INPUT_TY");
            assert_eq!(message, "input value at index 1 does not match declared input type");
            assert_eq!(element_index, Some(1));
        },
        other => panic!("unexpected {other:?}"),
    }
}

#[test]
fn formatter_keeps_right_operands_grouped() {
    let p = parse_program("lir/1\nrange(0,3) | map . sub (1 sub 2) | reduce sum").unwrap();
    let text = format_program(&p);
    assert_eq!(text, "lir/1\nrange ( 0 , 3 ) | map . sub (1 sub 2) | reduce sum\n");
    let p2 = parse_program(&text).unwrap();
    assert!(matches!(run_program(&p, &[]).unwrap(), RunOutcome::Scalar(Val::I32(6))));
    assert!(matches!(run_program(&p2, &[]).unwrap(), RunOutcome::Scalar(Val::I32(6))));
    let p = parse_program("lir/1\nrange(0,3) | map . sub 1 sub 2 | reduce sum").unwrap();
    assert_eq!(format_program(&p), "lir/1\nrange ( 0 , 3 ) | map . sub 1 sub 2 | reduce sum\n");
}

#[test]
fn parse_diagnostics_carry_their_prose() {
    assert_eq!(
        lir_prose(parse_program("lir/1\nrange(0, 3) | take -1").unwrap_err()),
        ("take requires non-negative i32-sized literal".to_string(), "Use an integer from 0 to 2^32-1.".to_string())
    );
    assert_eq!(
        lir_prose(parse_program("lir/2\nrange(0, 3) | reduce sum").unwrap_err()),
        ("first line must be exactly `lir/1`".to_string(), "Start the program with a line containing only lir/1".to_string())
    );
    assert_eq!(lir_prose(parse_program("lir/1\nrange(0, 3) | frobnicate").unwrap_err()).1, "Use filter, map, scan, reduce, take, drop, or id.");
}

#[test]
fn stream_type_comes_from_the_source() {
    let p = parse_program("lir/1\ninput:i64 | reduce sum").unwrap();
    assert!(matches!(run_program(&p, &[]).unwrap(), RunOutcome::Scalar(Val::I64(0))));
    let p = parse_program("lir/1\ninput:i64 | take 0 | scan 1, add | filter gt 3000000000 | reduce count").unwrap();
    check_program(&p).unwrap();
    assert!(matches!(run_program(&p, &[]).unwrap(), RunOutcome::Scalar(Val::I32(0))));
    let p = parse_program("lir/1\ninput:i64 | map 1 | filter gt 3000000000 | reduce count").unwrap();
    check_program(&p).unwrap();
    assert!(matches!(run_program(&p, &[Val::I64(7)]).unwrap(), RunOutcome::Scalar(Val::I32(0))));
}

#[test]
fn regrouped_predicates_keep_their_meaning() {
    let p = parse_program("lir/1\nrange(0, 20) | filter gt 2 & (lt 15 & odd) | reduce sum").unwrap();
    let text = format_program(&p);
    assert!(text.contains("filter gt 2 & lt 15 & odd |"));
    let q = parse_program(&text).unwrap();
    check_program(&q).unwrap();
    assert!(matches!(run_program(&p, &[]).unwrap(), RunOutcome::Scalar(Val::I32(48))));
    assert!(matches!(run_program(&q, &[]).unwrap(), RunOutcome::Scalar(Val::I32(48))));
}
