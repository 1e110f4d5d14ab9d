use lir::{check_lytr_program, parse_lytr_program, run_lytr_program};

#[test]
fn parens_and_precedence() {
    let src = r"lytr/0.1

fn main() -> i32 {
  return (1 + 2) * 3;
}
";
    let p = parse_lytr_program(src).unwrap();
    check_lytr_program(&p).unwrap();
    assert_eq!(run_lytr_program(&p).unwrap(), 9);
}

#[test]
fn reject_bad_header() {
    let src = "lir/1\nfn main() -> i32 { return 0; }\n";
    assert!(parse_lytr_program(src).is_err());
}

fn code_and_span(e: &lir::LytrError) -> (&'static str, lir::Span) {
    match e {
        lir::LytrError::Syntax { code, span, .. }
        | lir::LytrError::Type { code, span, .. }
        | lir::LytrError::Runtime { code, span, .. } => (code, *span),
    }
}

#[test]
fn i64_main_with_let_runs() {
    let src = "lytr/0.1\nfn main() -> i64 {\n  let x = 3;\n  return x;\n}\n";
    let p = parse_lytr_program(src).unwrap();
    assert_eq!(p.main.ret, lir::lytr::ast::RetTy::I64);
    check_lytr_program(&p).unwrap();
    assert_eq!(run_lytr_program(&p).unwrap(), 3);
}

#[test]
fn let_and_if_run() {
    let src = "lytr/0.1\nfn main() -> i32 {\n  let x = 3;\n  let y = if x > 2 { x * 2 } else { 0 };\n  return y + 1;\n}\n";
    let p = parse_lytr_program(src).unwrap();
    check_lytr_program(&p).unwrap();
    assert_eq!(run_lytr_program(&p).unwrap(), 7);
    let src = "lytr/0.1\nfn main() -> i32 { return if 3 >= 4 { 1 } else { if 2 != 2 { 5 } else { 0 - 9 } }; }";
    let p = parse_lytr_program(src).unwrap();
    check_lytr_program(&p).unwrap();
    assert_eq!(run_lytr_program(&p).unwrap(), -9);
}

#[test]
fn match_on_result_runs() {
    let src = "lytr/0.1\nfn main() -> i32 {\n  let r = if 1 < 2 { Ok(5) } else { Err(1) };\n  return match r { Ok(v) => v + 1, Err(e) => { 0 - e } };\n}\n";
    let p = parse_lytr_program(src).unwrap();
    check_lytr_program(&p).unwrap();
    assert_eq!(run_lytr_program(&p).unwrap(), 6);
    let src = "lytr/0.1\nfn main() -> i32 { return match Err(4) { Ok(v) => v, Err(e) => e * 10, }; }";
    let p = parse_lytr_program(src).unwrap();
    check_lytr_program(&p).unwrap();
    assert_eq!(run_lytr_program(&p).unwrap(), 40);
}

#[test]
fn type_errors_point_at_their_expression() {
    let cases = [
        ("lytr/0.1\nfn main() -> i32 { return true; }", 35, 39),
        ("lytr/0.1\nfn main() -> i32 { let x = 1; return y; }", 46, 47),
        ("lytr/0.1\nfn main() -> i32 { return if 1 { 2 } else { 3 }; }", 38, 39),
        ("lytr/0.1\nfn main() -> i32 { return if true { 2 } else { false }; }", 35, 63),
        ("lytr/0.1\nfn main() -> i64 { let x = 1; }", 28, 38),
    ];
    for (src, start, end) in cases {
        let p = parse_lytr_program(src).unwrap();
        assert_eq!(code_and_span(&check_lytr_program(&p).unwrap_err()), ("E_LYTR_TYPE", lir::Span::new(start, end)), "{src}");
    }
}

#[test]
fn match_arm_unbinds_its_name() {
    let src = "lytr/0.1\nfn main() -> i32 { let x = 1; let y = match Ok(2) { Ok(x) => x, Err(e) => e }; return x; }";
    let p = parse_lytr_program(src).unwrap();
    check_lytr_program(&p).unwrap();
    assert_eq!(code_and_span(&run_lytr_program(&p).unwrap_err()), ("E_LYTR_RUNTIME", lir::Span::new(95, 96)));
}

#[test]
fn let_needs_a_name() {
    let e = parse_lytr_program("lytr/0.1\nfn main() -> i32 { let = 3; return 0; }").unwrap_err();
    assert_eq!(code_and_span(&e), ("E_LYTR_PARSE", lir::Span::new(32, 33)));
}

fn message_of(e: &lir::LytrError) -> (String, String) {
    match e {
        lir::LytrError::Syntax { message, fix_hint, .. }
        | lir::LytrError::Type { message, fix_hint, .. }
        | lir::LytrError::Runtime { message, fix_hint, .. } => (message.clone(), fix_hint.clone()),
    }
}

#[test]
fn diagnostics_carry_their_messages() {
    let p = parse_lytr_program("lytr/0.1\nfn main() -> i32 { let x = 1; return y; }").unwrap();
    assert_eq!(
        message_of(&check_lytr_program(&p).unwrap_err()),
        ("unknown variable `y`".to_string(), "bind it with `let` first".to_string())
    );
    let p = parse_lytr_program("lytr/0.1\nfn main() -> i32 { return true; }").unwrap();
    assert_eq!(message_of(&check_lytr_program(&p).unwrap_err()).0, "expected i32");
    let e = run_lytr_program(&p).unwrap_err();
    assert_eq!(code_and_span(&e), ("E_LYTR_RUNTIME", lir::Span::new(0, 0)));
    assert_eq!(message_of(&e), ("`main` returned non-i32: Bool(true)".to_string(), "return an i32".to_string()));
    let p = parse_lytr_program("lytr/0.1\nfn main() -> i32 { return Err(0 - 3); }").unwrap();
    assert_eq!(message_of(&run_lytr_program(&p).unwrap_err()).0, "`main` returned non-i32: ResErr(-3)");
    let p = parse_lytr_program("lytr/0.1\nfn main() -> i32 { return 5 % 0; }").unwrap();
    assert_eq!(message_of(&run_lytr_program(&p).unwrap_err()).0, "modulo by zero");
}

#[test]
fn checked_program_stops_only_on_arithmetic_or_unbound_name() {
    let src = "lytr/0.1\nfn main() -> i32 { let big = 2147483647; let r = if big > 0 { Ok(big) } else { Err(0) }; return match r { Ok(v) => v + 1, Err(e) => e }; }";
    let p = parse_lytr_program(src).unwrap();
    check_lytr_program(&p).unwrap();
    let e = run_lytr_program(&p).unwrap_err();
    assert_eq!(code_and_span(&e).0, "E_LYTR_OVERFLOW");
    assert_eq!(message_of(&e).0, "integer overflow");
}
