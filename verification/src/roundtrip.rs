//! Reading canonical text back: the text that `format_program` prints lexes and parses to a
//! program that prints the same text again.
//!
//! The canonical text is described as a list of pieces (spaces, punctuation, words,
//! numbers); the lexer turns such a list into its tokens, and each level of the parser
//! turns the tokens of a printed construct into a construct that prints the same.

use vstd::prelude::*;
use crate::ast::{CmpRhs, Expr, LitElem, Predicate, ReduceOp, ScanOp, Source, Stage};
use crate::format::{
    pred_size, and_chain_text, atom_text, compare_op_name, default_step_spec, expr_prec_spec, expr_text, lit_elem_text,
    format_program_spec, lit_list_text, not_inner_text, or_chain_text, pred_text, source_text, stage_text, stages_text, ty_name,
};
use crate::lex::{digits_end, digits_value, ident_end, is_digit, is_ident_char, is_ident_start, is_space, lex_from, punct_token, LexemeView, TokenView};
use crate::text::{digit_char, int_decimal, nat_decimal};
use crate::ast::{expr_span_of, pred_span_of, CmpOp, ElemTy, Program, ProgramView, SourceView};
use crate::interp::{eval_pred_spec, Fault, Val};
use crate::error::{merge_spec, ErrorView};
use crate::parse::{
    add_rest_sp, bin_expr, expr_add_sp, expr_mul_sp, expr_primary_sp, expr_unary_sp, mul_op_at, mul_rest_sp, BinTag,
    body_offset, body_text, header_line, newline_from, parse_program_spec, without_bom,
    pipeline_sp, stage_sp, stages_sp, expect_ident_sp, lit_atom_sp, lit_elems_sp, lit_sp, provably_infinite_spec, range_sp, source_sp,
    compare_rhs_sp,
    and_rest_sp, compare_op_of, ident_is, or_rest_sp, pred_and_sp, pred_not_sp, pred_or_sp, pred_primary_sp,
    tok_at,
};

verus! {

/// A piece of canonical text.
pub enum Piece {
    Space(char),
    Punct(char),
    Word(Seq<char>),
    Num(i64),
}

/// Text of one piece.
pub open spec fn piece_text(p: Piece) -> Seq<char> {
    match p {
        Piece::Space(c) => seq![c],
        Piece::Punct(c) => seq![c],
        Piece::Word(w) => w,
        Piece::Num(v) => int_decimal(v as int),
    }
}

/// Text of a list of pieces.
pub open spec fn pieces_text(ps: Seq<Piece>) -> Seq<char>
    decreases ps.len(),
{
    if ps.len() == 0 { Seq::empty() } else { piece_text(ps[0]) + pieces_text(ps.skip(1)) }
}

/// Tokens of one piece: none for a space.
pub open spec fn piece_toks(p: Piece) -> Seq<TokenView> {
    match p {
        Piece::Space(_) => Seq::empty(),
        Piece::Punct(c) => seq![punct_token(c)->0],
        Piece::Word(w) => seq![TokenView::Ident(w)],
        Piece::Num(v) => seq![TokenView::Int(v)],
    }
}

/// Tokens of a list of pieces.
pub open spec fn pieces_toks(ps: Seq<Piece>) -> Seq<TokenView>
    decreases ps.len(),
{
    if ps.len() == 0 { Seq::empty() } else { piece_toks(ps[0]) + pieces_toks(ps.skip(1)) }
}

/// A space character, a punctuation mark, an identifier, or a number.
pub open spec fn piece_valid(p: Piece) -> bool {
    match p {
        Piece::Space(c) => is_space(c),
        Piece::Punct(c) => punct_token(c) is Some,
        Piece::Word(w) => w.len() > 0 && is_ident_start(w[0]) && forall|k: int| 0 <= k < w.len() ==> is_ident_char(#[trigger] w[k]),
        Piece::Num(_) => true,
    }
}

/// Pieces that two of a kind would run together: words and numbers.
pub open spec fn wordish(p: Piece) -> bool {
    p is Word || p is Num
}

/// Every piece is well formed and no two words or numbers touch.
pub open spec fn pieces_ok(ps: Seq<Piece>) -> bool {
    &&& forall|k: int| 0 <= k < ps.len() ==> piece_valid(#[trigger] ps[k])
    &&& forall|k: int| 0 <= k < ps.len() - 1 ==> !(wordish(#[trigger] ps[k]) && wordish(ps[k + 1]))
}

/// Text and tokens of a concatenation; it stays well formed when the joint is a space or a mark.
proof fn lemma_pieces_concat(a: Seq<Piece>, b: Seq<Piece>)
    ensures
        pieces_text(a + b) == pieces_text(a) + pieces_text(b),
        pieces_toks(a + b) == pieces_toks(a) + pieces_toks(b),
        pieces_ok(a) && pieces_ok(b) && (a.len() == 0 || b.len() == 0 || !wordish(a.last()) || !wordish(b[0]))
            ==> pieces_ok(a + b),
    decreases a.len(),
{
    if a.len() == 0 {
        assert(a + b =~= b);
    } else {
        lemma_pieces_concat(a.skip(1), b);
        assert((a + b).skip(1) =~= a.skip(1) + b);
        assert((a + b)[0] == a[0]);
        assert(piece_text(a[0]) + (pieces_text(a.skip(1)) + pieces_text(b)) =~= (piece_text(a[0]) + pieces_text(a.skip(1))) + pieces_text(b));
        assert(piece_toks(a[0]) + (pieces_toks(a.skip(1)) + pieces_toks(b)) =~= (piece_toks(a[0]) + pieces_toks(a.skip(1))) + pieces_toks(b));
        if pieces_ok(a) && pieces_ok(b) && (b.len() == 0 || !wordish(a.last()) || !wordish(b[0])) {
            let ab = a + b;
            assert forall|k: int| 0 <= k < ab.len() - 1 implies !(wordish(#[trigger] ab[k]) && wordish(ab[k + 1])) by {
                if k < a.len() - 1 {
                    assert(ab[k] == a[k] && ab[k + 1] == a[k + 1]);
                } else if k == a.len() - 1 {
                    assert(ab[k] == a.last() && ab[k + 1] == b[0]);
                } else {
                    assert(ab[k] == b[k - a.len()] && ab[k + 1] == b[k - a.len() + 1]);
                }
            }
            assert forall|k: int| 0 <= k < ab.len() implies piece_valid(#[trigger] ab[k]) by {
                if k < a.len() {
                    assert(ab[k] == a[k]);
                } else {
                    assert(ab[k] == b[k - a.len()]);
                }
            }
        }
    }
}

/// Token kinds of a lexing result.
pub open spec fn lex_kinds(cs: Seq<char>, i: int) -> Option<Seq<TokenView>> {
    match lex_from(cs, i) {
        Ok(s) => Some(s.map_values(|l: LexemeView| l.tok)),
        Err(_) => None,
    }
}

/// Lexing from `i` gives the tokens `ks`, then whatever lexing from `j` gives.
pub open spec fn lexes_to(cs: Seq<char>, i: int, j: int, ks: Seq<TokenView>) -> bool {
    lex_kinds(cs, i) == match lex_kinds(cs, j) {
        Some(r) => Some(ks + r),
        None => None,
    }
}

proof fn lemma_lexes_trans(cs: Seq<char>, i: int, j: int, k: int, a: Seq<TokenView>, b: Seq<TokenView>)
    requires
        lexes_to(cs, i, j, a),
        lexes_to(cs, j, k, b),
    ensures
        lexes_to(cs, i, k, a + b),
{
    if let Some(r) = lex_kinds(cs, k) {
        assert(a + (b + r) =~= (a + b) + r);
    }
}

proof fn lemma_kinds_prepend(x: LexemeView, r: Result<Seq<LexemeView>, crate::error::ErrorView>)
    ensures
        match crate::lex::prepend_lex(seq![x], r) {
            Ok(s) => r matches Ok(s2) && s.map_values(|l: LexemeView| l.tok) == seq![x.tok] + s2.map_values(|l: LexemeView| l.tok),
            Err(_) => r is Err,
        },
{
    if let Ok(s2) = r {
        assert((seq![x] + s2).map_values(|l: LexemeView| l.tok) =~= seq![x.tok] + s2.map_values(|l: LexemeView| l.tok));
    }
}

proof fn lemma_ident_end(cs: Seq<char>, j: int, e: int)
    requires
        0 <= j <= e <= cs.len(),
        forall|k: int| j <= k < e ==> is_ident_char(#[trigger] cs[k]),
        e == cs.len() || !is_ident_char(cs[e]),
    ensures
        ident_end(cs, j) == e,
    decreases e - j,
{
    if j < e {
        lemma_ident_end(cs, j + 1, e);
    }
}

proof fn lemma_digits_end(cs: Seq<char>, j: int, e: int)
    requires
        0 <= j <= e <= cs.len(),
        forall|k: int| j <= k < e ==> is_digit(#[trigger] cs[k]),
        e == cs.len() || !is_digit(cs[e]),
    ensures
        digits_end(cs, j) == e,
    decreases e - j,
{
    if j < e {
        lemma_digits_end(cs, j + 1, e);
    }
}

proof fn lemma_digit_char(d: int)
    requires
        0 <= d < 10,
    ensures
        is_digit(digit_char(d)),
        digit_char(d) as int == 48 + d,
{
}

/// Decimal numerals are non-empty runs of digits.
pub(crate) proof fn lemma_nat_decimal_digits(n: nat)
    ensures
        nat_decimal(n).len() >= 1,
        forall|k: int| 0 <= k < nat_decimal(n).len() ==> is_digit(#[trigger] nat_decimal(n)[k]),
    decreases n,
{
    lemma_digit_char((n % 10) as int);
    if n >= 10 {
        lemma_nat_decimal_digits(n / 10);
        let s = nat_decimal(n / 10);
        assert forall|k: int| 0 <= k < nat_decimal(n).len() implies is_digit(#[trigger] nat_decimal(n)[k]) by {
            if k < s.len() {
                assert(nat_decimal(n)[k] == s[k]);
            }
        }
    } else {
        lemma_digit_char(n as int);
    }
}

/// The value of a decimal numeral read back is the number.
pub(crate) proof fn lemma_digits_value(cs: Seq<char>, a: int, n: nat)
    requires
        0 <= a,
        a + nat_decimal(n).len() <= cs.len(),
        cs.subrange(a, a + nat_decimal(n).len()) == nat_decimal(n),
    ensures
        digits_value(cs, a, a + nat_decimal(n).len()) == n,
    decreases n,
{
    let s = nat_decimal(n);
    let b = a + s.len();
    lemma_nat_decimal_digits(n);
    assert(cs[b - 1] == s[s.len() - 1]);
    if n < 10 {
        lemma_digit_char(n as int);
        assert(digits_value(cs, a, b - 1) == 0);
    } else {
        let s2 = nat_decimal(n / 10);
        lemma_digit_char((n % 10) as int);
        assert(cs.subrange(a, a + s2.len()) =~= s2) by {
            assert forall|k: int| 0 <= k < s2.len() implies cs.subrange(a, a + s2.len())[k] == s2[k] by {
                assert(cs[a + k] == s[k]);
                assert(s[k] == s2[k]);
            }
        }
        lemma_digits_value(cs, a, n / 10);
    }
}

/// One piece lexes to its tokens, provided the character after it cannot continue it.
proof fn lemma_lex_piece(cs: Seq<char>, i: int, p: Piece)
    requires
        0 <= i,
        i + piece_text(p).len() <= cs.len(),
        cs.subrange(i, i + piece_text(p).len()) == piece_text(p),
        piece_valid(p),
        !wordish(p) || i + piece_text(p).len() == cs.len() || !is_ident_char(cs[i + piece_text(p).len()]),
    ensures
        lexes_to(cs, i, i + piece_text(p).len(), piece_toks(p)),
{
    let n = piece_text(p).len();
    assert(cs[i] == piece_text(p)[0]) by {
        assert(cs.subrange(i, i + n)[0] == cs[i]);
    }
    match p {
        Piece::Space(c) => {
            if let Some(r) = lex_kinds(cs, i + 1) {
                assert(Seq::<TokenView>::empty() + r =~= r);
            }
        },
        Piece::Punct(c) => {
            let x = LexemeView { tok: punct_token(c)->0, span: crate::error::Span { start: i as usize, end: (i + 1) as usize } };
            lemma_kinds_prepend(x, lex_from(cs, i + 1));
        },
        Piece::Word(w) => {
            assert forall|k: int| i + 1 <= k < i + n implies is_ident_char(#[trigger] cs[k]) by {
                assert(cs[k] == cs.subrange(i, i + n)[k - i]);
            }
            lemma_ident_end(cs, i + 1, i + n);
            assert(cs.subrange(i, ident_end(cs, i + 1)) == w);
            let x = LexemeView { tok: TokenView::Ident(w), span: crate::error::Span { start: i as usize, end: (i + n) as usize } };
            lemma_kinds_prepend(x, lex_from(cs, i + n));
        },
        Piece::Num(v) => {
            if v >= 0 {
                let s = nat_decimal(v as nat);
                lemma_nat_decimal_digits(v as nat);
                assert forall|k: int| i <= k < i + n implies is_digit(#[trigger] cs[k]) by {
                    assert(cs[k] == cs.subrange(i, i + n)[k - i]);
                    assert(cs.subrange(i, i + n)[k - i] == s[k - i]);
                }
                lemma_digits_end(cs, i + 1, i + n);
                lemma_digits_value(cs, i, v as nat);
                let x = LexemeView { tok: TokenView::Int(v), span: crate::error::Span { start: i as usize, end: (i + n) as usize } };
                lemma_kinds_prepend(x, lex_from(cs, i + n));
            } else {
                let m: nat = (-(v as int)) as nat;
                let s = nat_decimal(m);
                lemma_nat_decimal_digits(m);
                assert(piece_text(p) == seq!['-'] + s);
                assert forall|k: int| i + 1 <= k < i + n implies is_digit(#[trigger] cs[k]) by {
                    assert(cs[k] == cs.subrange(i, i + n)[k - i]);
                    assert(cs.subrange(i, i + n)[k - i] == s[k - i - 1]);
                }
                assert(cs.subrange(i + 1, i + 1 + s.len()) =~= s) by {
                    assert forall|k: int| 0 <= k < s.len() implies cs.subrange(i + 1, i + 1 + s.len())[k] == s[k] by {
                        assert(cs[i + 1 + k] == cs.subrange(i, i + n)[k + 1]);
                    }
                }
                lemma_digits_end(cs, i + 2, i + n);
                lemma_digits_value(cs, i + 1, m);
                let x = LexemeView { tok: TokenView::Int(v), span: crate::error::Span { start: i as usize, end: (i + n) as usize } };
                lemma_kinds_prepend(x, lex_from(cs, i + n));
            }
        },
    }
}

/// A well-formed list of pieces lexes to its tokens, provided the character after it
/// cannot continue its last piece.
proof fn lemma_lex_pieces(cs: Seq<char>, i: int, ps: Seq<Piece>)
    requires
        0 <= i,
        i + pieces_text(ps).len() <= cs.len(),
        cs.subrange(i, i + pieces_text(ps).len()) == pieces_text(ps),
        pieces_ok(ps),
        ps.len() == 0 || !wordish(ps.last()) || i + pieces_text(ps).len() == cs.len() || !is_ident_char(cs[i + pieces_text(ps).len()]),
    ensures
        lexes_to(cs, i, i + pieces_text(ps).len(), pieces_toks(ps)),
    decreases ps.len(),
{
    if ps.len() == 0 {
        if let Some(r) = lex_kinds(cs, i) {
            assert(Seq::<TokenView>::empty() + r =~= r);
        }
    } else {
        let p = ps[0];
        let rest = ps.skip(1);
        let n = piece_text(p).len();
        let total = pieces_text(ps).len();
        assert(cs.subrange(i, i + n) =~= piece_text(p)) by {
            assert forall|k: int| 0 <= k < n implies cs.subrange(i, i + n)[k] == piece_text(p)[k] by {
                assert(cs[i + k] == cs.subrange(i, i + total)[k]);
            }
        }
        assert(cs.subrange(i + n, i + total) =~= pieces_text(rest)) by {
            assert forall|k: int| 0 <= k < total - n implies cs.subrange(i + n, i + total)[k] == pieces_text(rest)[k] by {
                assert(cs[i + n + k] == cs.subrange(i, i + total)[n + k]);
            }
        }
        assert(pieces_ok(rest)) by {
            assert forall|k: int| 0 <= k < rest.len() implies piece_valid(#[trigger] rest[k]) by {
                assert(rest[k] == ps[k + 1]);
            }
            assert forall|k: int| 0 <= k < rest.len() - 1 implies !(wordish(#[trigger] rest[k]) && wordish(rest[k + 1])) by {
                assert(rest[k] == ps[k + 1] && rest[k + 1] == ps[k + 2]);
            }
        }
        assert(piece_valid(ps[0]));
        // the character after the first piece cannot continue it
        if rest.len() > 0 {
            let q = rest[0];
            assert(q == ps[1]);
            lemma_piece_starts(q);
            assert(cs[i + n] == piece_text(q)[0]) by {
                assert(cs[i + n] == cs.subrange(i, i + total)[n as int]);
                assert(pieces_text(rest) == piece_text(q) + pieces_text(rest.skip(1)));
            }
            if wordish(p) {
                assert(!wordish(q));
            }
            lemma_piece_boundary(p, q);
        } else {
            assert(rest.len() == 0 && ps.last() == p);
        }
        lemma_lex_piece(cs, i, p);
        assert(total == n + pieces_text(rest).len());
        if rest.len() > 0 {
            assert(rest.last() == ps.last());
        }
        lemma_lex_pieces(cs, i + n, rest);
        lemma_lexes_trans(cs, i, i + n, i + total, piece_toks(p), pieces_toks(rest));
    }
}

proof fn lemma_piece_starts(q: Piece)
    requires
        piece_valid(q),
    ensures
        piece_text(q).len() >= 1,
{
    if let Piece::Num(v) = q {
        if v >= 0 {
            lemma_nat_decimal_digits(v as nat);
        } else {
            lemma_nat_decimal_digits((-(v as int)) as nat);
        }
    }
}

/// What follows a piece, when it is a space, a punctuation mark or a different kind of
/// token, does not continue the piece.
proof fn lemma_piece_boundary(p: Piece, q: Piece)
    requires
        piece_valid(p),
        piece_valid(q),
        !(wordish(p) && wordish(q)),
    ensures
        piece_text(q).len() >= 1,
        !(p is Space) && !(p is Punct) ==> !is_ident_char(piece_text(q)[0]),
{
    lemma_piece_starts(q);
    match q {
        Piece::Space(c) => {},
        Piece::Punct(c) => {},
        _ => {},
    }
}


/// A word that the lexer reads as one identifier.
pub open spec fn word_ok(w: Seq<char>) -> bool {
    piece_valid(Piece::Word(w))
}

/// The fixed words and separators of canonical text.
proof fn lemma_literals()
    ensures
        word_ok("input"@),
        word_ok("i32"@),
        word_ok("i64"@),
        word_ok("bool"@),
        word_ok("range"@),
        word_ok("lit"@),
        word_ok("true"@),
        word_ok("false"@),
        word_ok("eq"@),
        word_ok("lt"@),
        word_ok("le"@),
        word_ok("gt"@),
        word_ok("ge"@),
        word_ok("not"@),
        word_ok("even"@),
        word_ok("odd"@),
        word_ok("or"@),
        word_ok("add"@),
        word_ok("sub"@),
        word_ok("mul"@),
        word_ok("div"@),
        word_ok("mod"@),
        word_ok("neg"@),
        word_ok("filter"@),
        word_ok("map"@),
        word_ok("scan"@),
        word_ok("reduce"@),
        word_ok("sum"@),
        word_ok("prod"@),
        word_ok("count"@),
        word_ok("min"@),
        word_ok("max"@),
        word_ok("take"@),
        word_ok("drop"@),
        word_ok("id"@),
        "not "@ == "not"@ + seq![' '],
        "neg "@ == "neg"@ + seq![' '],
        "filter "@ == "filter"@ + seq![' '],
        "map "@ == "map"@ + seq![' '],
        "scan "@ == "scan"@ + seq![' '],
        "reduce "@ == "reduce"@ + seq![' '],
        "take "@ == "take"@ + seq![' '],
        "drop "@ == "drop"@ + seq![' '],
        " or "@ == seq![' '] + "or"@ + seq![' '],
        " add "@ == seq![' '] + "add"@ + seq![' '],
        " sub "@ == seq![' '] + "sub"@ + seq![' '],
        " mul "@ == seq![' '] + "mul"@ + seq![' '],
        " div "@ == seq![' '] + "div"@ + seq![' '],
        " mod "@ == seq![' '] + "mod"@ + seq![' '],
        "input:"@ == "input"@ + seq![':'],
        "range ( "@ == "range"@ + seq![' ', '(', ' '],
        " , "@ == seq![' ', ',', ' '],
        " )"@ == seq![' ', ')'],
        "lit ()"@ == "lit"@ + seq![' ', '(', ')'],
        "lit ( "@ == "lit"@ + seq![' ', '(', ' '],
        ", "@ == seq![',', ' '],
        " "@ == seq![' '],
        "("@ == seq!['('],
        ")"@ == seq![')'],
        " & "@ == seq![' ', '&', ' '],
        "."@ == seq!['.'],
        " | "@ == seq![' ', '|', ' '],
        "\n"@ == seq!['\n'],
{
    reveal_strlit(" ");
    reveal_strlit(" & ");
    reveal_strlit(" )");
    reveal_strlit(" , ");
    reveal_strlit(" add ");
    reveal_strlit(" div ");
    reveal_strlit(" mod ");
    reveal_strlit(" mul ");
    reveal_strlit(" or ");
    reveal_strlit(" sub ");
    reveal_strlit(" | ");
    reveal_strlit("(");
    reveal_strlit(")");
    reveal_strlit(", ");
    reveal_strlit(".");
    reveal_strlit("\n");
    reveal_strlit("add");
    reveal_strlit("bool");
    reveal_strlit("count");
    reveal_strlit("div");
    reveal_strlit("drop");
    reveal_strlit("drop ");
    reveal_strlit("eq");
    reveal_strlit("even");
    reveal_strlit("false");
    reveal_strlit("filter");
    reveal_strlit("filter ");
    reveal_strlit("ge");
    reveal_strlit("gt");
    reveal_strlit("i32");
    reveal_strlit("i64");
    reveal_strlit("id");
    reveal_strlit("input");
    reveal_strlit("input:");
    reveal_strlit("le");
    reveal_strlit("lit");
    reveal_strlit("lit ( ");
    reveal_strlit("lit ()");
    reveal_strlit("lt");
    reveal_strlit("map");
    reveal_strlit("map ");
    reveal_strlit("max");
    reveal_strlit("min");
    reveal_strlit("mod");
    reveal_strlit("mul");
    reveal_strlit("neg");
    reveal_strlit("neg ");
    reveal_strlit("not");
    reveal_strlit("not ");
    reveal_strlit("odd");
    reveal_strlit("or");
    reveal_strlit("prod");
    reveal_strlit("range");
    reveal_strlit("range ( ");
    reveal_strlit("reduce");
    reveal_strlit("reduce ");
    reveal_strlit("scan");
    reveal_strlit("scan ");
    reveal_strlit("sub");
    reveal_strlit("sum");
    reveal_strlit("take");
    reveal_strlit("take ");
    reveal_strlit("true");
}


/// A space.
pub open spec fn sp() -> Piece {
    Piece::Space(' ')
}

/// A single piece.
pub open spec fn one(p: Piece) -> Seq<Piece> {
    seq![p]
}

/// A single word.
pub open spec fn word(w: Seq<char>) -> Seq<Piece> {
    seq![Piece::Word(w)]
}

/// A single punctuation mark.
pub open spec fn punct(c: char) -> Seq<Piece> {
    seq![Piece::Punct(c)]
}

/// A single number.
pub open spec fn num(v: i64) -> Seq<Piece> {
    seq![Piece::Num(v)]
}

/// A keyword and a space.
pub open spec fn kw(w: Seq<char>) -> Seq<Piece> {
    word(w) + one(sp())
}

/// A word between spaces.
pub open spec fn sep(w: Seq<char>) -> Seq<Piece> {
    one(sp()) + word(w) + one(sp())
}

/// A punctuation mark between spaces.
pub open spec fn psep(c: char) -> Seq<Piece> {
    one(sp()) + punct(c) + one(sp())
}

proof fn lemma_one(p: Piece)
    ensures
        pieces_text(one(p)) == piece_text(p),
        pieces_toks(one(p)) == piece_toks(p),
        piece_valid(p) ==> pieces_ok(one(p)),
{
    let e = one(p).skip(1);
    assert(e =~= Seq::<Piece>::empty());
    assert(pieces_text(e) == Seq::<char>::empty());
    assert(pieces_toks(e) == Seq::<TokenView>::empty());
    assert(one(p)[0] == p);
    assert(piece_text(p) + Seq::<char>::empty() =~= piece_text(p));
    assert(piece_toks(p) + Seq::<TokenView>::empty() =~= piece_toks(p));
}

/// Texts, tokens and well-formedness of the small piece lists.
proof fn lemma_small_pieces(w: Seq<char>, c: char, v: i64)
    ensures
        pieces_text(word(w)) == w,
        pieces_toks(word(w)) == seq![TokenView::Ident(w)],
        word_ok(w) ==> pieces_ok(word(w)),
        pieces_text(punct(c)) == seq![c],
        pieces_toks(punct(c)) == seq![punct_token(c)->0],
        punct_token(c) is Some ==> pieces_ok(punct(c)),
        pieces_text(num(v)) == int_decimal(v as int),
        pieces_toks(num(v)) == seq![TokenView::Int(v)],
        pieces_ok(num(v)),
        pieces_text(one(sp())) == seq![' '],
        pieces_toks(one(sp())) == Seq::<TokenView>::empty(),
        pieces_ok(one(sp())),
        pieces_text(one(Piece::Space('\n'))) == seq!['\n'],
        pieces_toks(one(Piece::Space('\n'))) == Seq::<TokenView>::empty(),
        pieces_ok(one(Piece::Space('\n'))),
        pieces_text(kw(w)) == w + seq![' '],
        pieces_toks(kw(w)) == seq![TokenView::Ident(w)],
        word_ok(w) ==> pieces_ok(kw(w)),
        pieces_text(sep(w)) == seq![' '] + w + seq![' '],
        pieces_toks(sep(w)) == seq![TokenView::Ident(w)],
        word_ok(w) ==> pieces_ok(sep(w)),
        pieces_text(psep(c)) == seq![' ', c, ' '],
        pieces_toks(psep(c)) == seq![punct_token(c)->0],
        punct_token(c) is Some ==> pieces_ok(psep(c)),
{
    lemma_one(Piece::Word(w));
    lemma_one(Piece::Punct(c));
    lemma_one(Piece::Num(v));
    lemma_one(sp());
    lemma_one(Piece::Space('\n'));
    lemma_pieces_concat(word(w), one(sp()));
    lemma_pieces_concat(one(sp()), word(w));
    lemma_pieces_concat(one(sp()) + word(w), one(sp()));
    lemma_pieces_concat(one(sp()), punct(c));
    lemma_pieces_concat(one(sp()) + punct(c), one(sp()));
    assert(seq![TokenView::Ident(w)] + Seq::<TokenView>::empty() =~= seq![TokenView::Ident(w)]);
    assert(Seq::<TokenView>::empty() + seq![TokenView::Ident(w)] + Seq::<TokenView>::empty() =~= seq![TokenView::Ident(w)]);
    assert(Seq::<TokenView>::empty() + seq![punct_token(c)->0] + Seq::<TokenView>::empty() =~= seq![punct_token(c)->0]);
    assert(seq![' '] + seq![c] + seq![' '] =~= seq![' ', c, ' ']);
}


/// `true` or `false`.
pub open spec fn bool_word(b: bool) -> Seq<char> {
    if b { "true"@ } else { "false"@ }
}

/// Pieces of a `lit` element.
pub open spec fn lit_elem_pieces(e: LitElem) -> Seq<Piece> {
    match e {
        LitElem::I32(v) => num(v as i64),
        LitElem::I64(v) => num(v),
        LitElem::Bool(b) => word(bool_word(b)),
    }
}

/// Pieces of `lit` elements separated by `", "`.
pub open spec fn lit_list_pieces(es: Seq<LitElem>) -> Seq<Piece>
    decreases es.len(),
{
    if es.len() == 0 {
        Seq::empty()
    } else if es.len() == 1 {
        lit_elem_pieces(es[0])
    } else {
        lit_list_pieces(es.drop_last()) + (punct(',') + one(sp())) + lit_elem_pieces(es.last())
    }
}

/// Pieces of the canonical text of a source.
pub open spec fn source_pieces(s: Source) -> Seq<Piece> {
    match s {
        Source::Input { ty, .. } => word("input"@) + punct(':') + word(ty_name(ty)),
        Source::Range { start, stop, step, .. } => {
            let head = word("range"@) + one(sp()) + punct('(') + one(sp()) + num(start) + psep(',') + num(stop);
            if step == default_step_spec(start, stop) {
                head + one(sp()) + punct(')')
            } else {
                head + psep(',') + num(step) + one(sp()) + punct(')')
            }
        },
        Source::Lit { elems, .. } => if elems@.len() == 0 {
            word("lit"@) + one(sp()) + punct('(') + punct(')')
        } else {
            word("lit"@) + one(sp()) + punct('(') + one(sp()) + lit_list_pieces(elems@) + one(sp()) + punct(')')
        },
    }
}

/// Pieces of the canonical text of a predicate, at each level of `format`'s printer.
pub open spec fn atom_pieces(p: Predicate) -> Seq<Piece>
    decreases p, 0int,
{
    match p {
        Predicate::Not { inner, .. } => kw("not"@) + not_inner_pieces(*inner),
        Predicate::Even { .. } => word("even"@),
        Predicate::Odd { .. } => word("odd"@),
        Predicate::Cmp { op, rhs, .. } => word(compare_op_name(op)) + one(sp()) + match rhs {
            CmpRhs::Int(v) => num(v),
            CmpRhs::Bool(b) => word(bool_word(b)),
        },
        _ => Seq::empty(),
    }
}

pub open spec fn or_chain_pieces(p: Predicate) -> Seq<Piece>
    decreases p, (if p is And { 2int } else { 1int }),
{
    match p {
        Predicate::Or { left, right, .. } => or_chain_pieces(*left) + sep("or"@) + or_chain_pieces(*right),
        Predicate::And { .. } => punct('(') + and_chain_pieces(p) + punct(')'),
        _ => atom_pieces(p),
    }
}

pub open spec fn and_chain_pieces(p: Predicate) -> Seq<Piece>
    decreases p, (if p is Or { 2int } else { 1int }),
{
    match p {
        Predicate::And { left, right, .. } => and_chain_pieces(*left) + psep('&') + and_chain_pieces(*right),
        Predicate::Or { .. } => punct('(') + or_chain_pieces(p) + punct(')'),
        _ => atom_pieces(p),
    }
}

pub open spec fn pred_pieces(p: Predicate) -> Seq<Piece>
    decreases p, 3int,
{
    match p {
        Predicate::Or { .. } => or_chain_pieces(p),
        Predicate::And { .. } => and_chain_pieces(p),
        _ => atom_pieces(p),
    }
}

pub open spec fn not_inner_pieces(p: Predicate) -> Seq<Piece>
    decreases p, 4int,
{
    match p {
        Predicate::Or { .. } | Predicate::And { .. } => punct('(') + pred_pieces(p) + punct(')'),
        _ => pred_pieces(p),
    }
}

/// Pieces of the canonical text of an expression in a context of binding strength `parent`.
pub open spec fn expr_pieces(e: Expr, parent: int) -> Seq<Piece>
    decreases e,
{
    let my = expr_prec_spec(e);
    let s = match e {
        Expr::Add { left, right, .. } => expr_pieces(*left, my) + sep("add"@) + expr_pieces(*right, my + 1),
        Expr::Sub { left, right, .. } => expr_pieces(*left, my) + sep("sub"@) + expr_pieces(*right, my + 1),
        Expr::Mul { left, right, .. } => expr_pieces(*left, my) + sep("mul"@) + expr_pieces(*right, my + 1),
        Expr::Div { left, right, .. } => expr_pieces(*left, my) + sep("div"@) + expr_pieces(*right, my + 1),
        Expr::Mod { left, right, .. } => expr_pieces(*left, my) + sep("mod"@) + expr_pieces(*right, my + 1),
        Expr::Neg { inner, .. } => kw("neg"@) + expr_pieces(*inner, my),
        Expr::Dot { .. } => punct('.'),
        Expr::Lit { v, .. } => num(v),
    };
    if my < parent { punct('(') + s + punct(')') } else { s }
}

/// Keyword of a `scan` operator.
pub open spec fn scan_op_word(op: ScanOp) -> Seq<char> {
    match op {
        ScanOp::Add => "add"@,
        ScanOp::Sub => "sub"@,
        ScanOp::Mul => "mul"@,
    }
}

/// Keyword of a `reduce` operator.
pub open spec fn reduce_op_word(op: ReduceOp) -> Seq<char> {
    match op {
        ReduceOp::Sum => "sum"@,
        ReduceOp::Prod => "prod"@,
        ReduceOp::Count => "count"@,
        ReduceOp::Min => "min"@,
        ReduceOp::Max => "max"@,
    }
}

/// Pieces of the canonical text of a stage.
pub open spec fn stage_pieces(s: Stage) -> Seq<Piece> {
    match s {
        Stage::Filter { pred, .. } => kw("filter"@) + pred_pieces(pred),
        Stage::MapEach { expr, .. } => kw("map"@) + expr_pieces(expr, 0),
        Stage::Scan { init, op, .. } => kw("scan"@) + num(init) + punct(',') + one(sp()) + word(scan_op_word(op)),
        Stage::Reduce { op, .. } => kw("reduce"@) + word(reduce_op_word(op)),
        Stage::Take { n, .. } => kw("take"@) + num(n as i64),
        Stage::Drop { n, .. } => kw("drop"@) + num(n as i64),
        Stage::Id { .. } => word("id"@),
    }
}

/// Pieces of the stages, each preceded by `" | "`.
pub open spec fn stages_pieces(st: Seq<Stage>) -> Seq<Piece>
    decreases st.len(),
{
    if st.len() == 0 {
        Seq::empty()
    } else {
        stages_pieces(st.drop_last()) + psep('|') + stage_pieces(st.last())
    }
}


proof fn lemma_edges(w: Seq<char>, c: char)
    ensures
        sep(w).len() == 3 && sep(w)[0] == sp() && sep(w).last() == sp(),
        psep(c).len() == 3 && psep(c)[0] == sp() && psep(c).last() == sp(),
        kw(w).len() == 2 && kw(w).last() == sp() && kw(w)[0] == Piece::Word(w),
        punct(c).len() == 1 && punct(c)[0] == Piece::Punct(c) && punct(c).last() == Piece::Punct(c),
        word(w).len() == 1 && word(w)[0] == Piece::Word(w),
        one(sp()).len() == 1 && one(sp())[0] == sp(),
{
}

/// `a + b + c` when the joints are a space or punctuation on at least one side.
proof fn lemma_cat3(a: Seq<Piece>, b: Seq<Piece>, c: Seq<Piece>)
    requires
        pieces_ok(a),
        pieces_ok(b),
        pieces_ok(c),
        b.len() > 0,
        a.len() == 0 || !wordish(a.last()) || !wordish(b[0]),
        c.len() == 0 || !wordish(b.last()) || !wordish(c[0]),
    ensures
        pieces_text(a + b + c) == pieces_text(a) + pieces_text(b) + pieces_text(c),
        pieces_toks(a + b + c) == pieces_toks(a) + pieces_toks(b) + pieces_toks(c),
        pieces_ok(a + b + c),
        (a + b + c).len() > 0,
{
    lemma_pieces_concat(a, b);
    lemma_pieces_concat(a + b, c);
    assert((a + b).last() == b.last());
}

proof fn lemma_cat2(a: Seq<Piece>, b: Seq<Piece>)
    requires
        pieces_ok(a),
        pieces_ok(b),
        a.len() == 0 || b.len() == 0 || !wordish(a.last()) || !wordish(b[0]),
    ensures
        pieces_text(a + b) == pieces_text(a) + pieces_text(b),
        pieces_toks(a + b) == pieces_toks(a) + pieces_toks(b),
        pieces_ok(a + b),
{
    lemma_pieces_concat(a, b);
}

/// An `or` node spells its chain text, given that its operands do.
proof fn lemma_or_case(p: Predicate)
    requires
        p is Or,
        pieces_text(or_chain_pieces(*p->Or_left)) == or_chain_text(*p->Or_left),
        pieces_ok(or_chain_pieces(*p->Or_left)),
        pieces_text(or_chain_pieces(*p->Or_right)) == or_chain_text(*p->Or_right),
        pieces_ok(or_chain_pieces(*p->Or_right)),
    ensures
        pieces_text(or_chain_pieces(p)) == or_chain_text(p),
        pieces_ok(or_chain_pieces(p)),
        pieces_text(and_chain_pieces(p)) == and_chain_text(p),
        pieces_ok(and_chain_pieces(p)),
        or_chain_pieces(p).len() > 0,
{
    lemma_literals();
    lemma_edges("or"@, '(');
    lemma_edges("x"@, ')');
    lemma_small_pieces("or"@, '(', 0);
    lemma_small_pieces("x"@, ')', 0);
    let l = *p->Or_left;
    let r = *p->Or_right;
    lemma_cat3(or_chain_pieces(l), sep("or"@), or_chain_pieces(r));
    lemma_parens(or_chain_pieces(p));
    assert(and_chain_pieces(p) == punct('(') + or_chain_pieces(p) + punct(')'));
    assert(and_chain_text(p) == "("@ + or_chain_text(p) + ")"@);
}

/// A parenthesized piece list.
proof fn lemma_parens(b: Seq<Piece>)
    requires
        pieces_ok(b),
        b.len() > 0,
    ensures
        pieces_text(punct('(') + b + punct(')')) == "("@ + pieces_text(b) + ")"@,
        pieces_toks(punct('(') + b + punct(')')) == seq![TokenView::LParen] + pieces_toks(b) + seq![TokenView::RParen],
        pieces_ok(punct('(') + b + punct(')')),
{
    lemma_literals();
    lemma_small_pieces("x"@, '(', 0);
    lemma_small_pieces("x"@, ')', 0);
    lemma_edges("x"@, '(');
    lemma_edges("x"@, ')');
    lemma_cat3(punct('('), b, punct(')'));
}

/// An `&` node spells its chain text, given that its operands do.
proof fn lemma_and_case(p: Predicate)
    requires
        p is And,
        pieces_text(and_chain_pieces(*p->And_left)) == and_chain_text(*p->And_left),
        pieces_ok(and_chain_pieces(*p->And_left)),
        pieces_text(and_chain_pieces(*p->And_right)) == and_chain_text(*p->And_right),
        pieces_ok(and_chain_pieces(*p->And_right)),
    ensures
        pieces_text(and_chain_pieces(p)) == and_chain_text(p),
        pieces_ok(and_chain_pieces(p)),
        pieces_text(or_chain_pieces(p)) == or_chain_text(p),
        pieces_ok(or_chain_pieces(p)),
        and_chain_pieces(p).len() > 0,
{
    lemma_literals();
    lemma_edges("x"@, '&');
    lemma_small_pieces("x"@, '&', 0);
    let l = *p->And_left;
    let r = *p->And_right;
    lemma_cat3(and_chain_pieces(l), psep('&'), and_chain_pieces(r));
    lemma_parens(and_chain_pieces(p));
    assert(or_chain_pieces(p) == punct('(') + and_chain_pieces(p) + punct(')'));
    assert(or_chain_text(p) == "("@ + and_chain_text(p) + ")"@);
}

/// A comparison spells its text.
proof fn lemma_cmp_case(p: Predicate)
    requires
        p is Cmp,
    ensures
        pieces_text(atom_pieces(p)) == atom_text(p),
        pieces_ok(atom_pieces(p)),
{
    lemma_literals();
    let w = compare_op_name(p->Cmp_op);
    lemma_small_pieces(w, '(', 0);
    lemma_edges(w, '(');
    match p->Cmp_rhs {
        CmpRhs::Int(v) => {
            lemma_small_pieces(w, '(', v);
            lemma_cat3(word(w), one(sp()), num(v));
        },
        CmpRhs::Bool(b) => {
            lemma_small_pieces(bool_word(b), '(', 0);
            lemma_cat3(word(w), one(sp()), word(bool_word(b)));
        },
    }
}

/// The pieces of a predicate spell its canonical text.
proof fn lemma_pred_pieces(p: Predicate)
    ensures
        pieces_text(atom_pieces(p)) == atom_text(p),
        pieces_ok(atom_pieces(p)),
        pieces_text(or_chain_pieces(p)) == or_chain_text(p),
        pieces_ok(or_chain_pieces(p)),
        pieces_text(and_chain_pieces(p)) == and_chain_text(p),
        pieces_ok(and_chain_pieces(p)),
        pieces_text(pred_pieces(p)) == pred_text(p),
        pieces_ok(pred_pieces(p)),
        pieces_text(not_inner_pieces(p)) == not_inner_text(p),
        pieces_ok(not_inner_pieces(p)),
    decreases p,
{
    match p {
        Predicate::Or { left, right, .. } => {
            lemma_pred_pieces(*left);
            lemma_pred_pieces(*right);
            lemma_or_case(p);
            lemma_parens(pred_pieces(p));
        },
        Predicate::And { left, right, .. } => {
            lemma_pred_pieces(*left);
            lemma_pred_pieces(*right);
            lemma_and_case(p);
            lemma_parens(pred_pieces(p));
        },
        Predicate::Not { inner, .. } => {
            lemma_pred_pieces(*inner);
            lemma_literals();
            lemma_small_pieces("not"@, '(', 0);
            lemma_edges("not"@, '(');
            lemma_cat2(kw("not"@), not_inner_pieces(*inner));
        },
        Predicate::Even { .. } => {
            lemma_literals();
            lemma_small_pieces("even"@, '(', 0);
        },
        Predicate::Odd { .. } => {
            lemma_literals();
            lemma_small_pieces("odd"@, '(', 0);
        },
        Predicate::Cmp { .. } => {
            lemma_cmp_case(p);
        },
    }
}


/// `a`, a word between spaces, `b`.
proof fn lemma_bin(a: Seq<Piece>, w: Seq<char>, b: Seq<Piece>)
    requires
        pieces_ok(a),
        pieces_ok(b),
        word_ok(w),
    ensures
        pieces_text(a + sep(w) + b) == pieces_text(a) + (seq![' '] + w + seq![' ']) + pieces_text(b),
        pieces_toks(a + sep(w) + b) == pieces_toks(a) + seq![TokenView::Ident(w)] + pieces_toks(b),
        pieces_ok(a + sep(w) + b),
        (a + sep(w) + b).len() > 0,
{
    lemma_small_pieces(w, ',', 0);
    lemma_edges(w, ',');
    lemma_cat3(a, sep(w), b);
}

/// A keyword, a space, then `b`.
proof fn lemma_kw(w: Seq<char>, b: Seq<Piece>)
    requires
        pieces_ok(b),
        word_ok(w),
    ensures
        pieces_text(kw(w) + b) == w + seq![' '] + pieces_text(b),
        pieces_toks(kw(w) + b) == seq![TokenView::Ident(w)] + pieces_toks(b),
        pieces_ok(kw(w) + b),
        (kw(w) + b).len() > 0,
{
    lemma_small_pieces(w, ',', 0);
    lemma_edges(w, ',');
    lemma_cat2(kw(w), b);
}

/// The pieces of an expression spell its canonical text.
proof fn lemma_expr_pieces(e: Expr, parent: int)
    ensures
        pieces_text(expr_pieces(e, parent)) == expr_text(e, parent),
        pieces_ok(expr_pieces(e, parent)),
        expr_pieces(e, parent).len() > 0,
    decreases e,
{
    let my = expr_prec_spec(e);
    lemma_literals();
    let s = match e {
        Expr::Add { left, right, .. } => expr_pieces(*left, my) + sep("add"@) + expr_pieces(*right, my + 1),
        Expr::Sub { left, right, .. } => expr_pieces(*left, my) + sep("sub"@) + expr_pieces(*right, my + 1),
        Expr::Mul { left, right, .. } => expr_pieces(*left, my) + sep("mul"@) + expr_pieces(*right, my + 1),
        Expr::Div { left, right, .. } => expr_pieces(*left, my) + sep("div"@) + expr_pieces(*right, my + 1),
        Expr::Mod { left, right, .. } => expr_pieces(*left, my) + sep("mod"@) + expr_pieces(*right, my + 1),
        Expr::Neg { inner, .. } => kw("neg"@) + expr_pieces(*inner, my),
        Expr::Dot { .. } => punct('.'),
        Expr::Lit { v, .. } => num(v),
    };
    let t = match e {
        Expr::Add { left, right, .. } => expr_text(*left, my) + " add "@ + expr_text(*right, my + 1),
        Expr::Sub { left, right, .. } => expr_text(*left, my) + " sub "@ + expr_text(*right, my + 1),
        Expr::Mul { left, right, .. } => expr_text(*left, my) + " mul "@ + expr_text(*right, my + 1),
        Expr::Div { left, right, .. } => expr_text(*left, my) + " div "@ + expr_text(*right, my + 1),
        Expr::Mod { left, right, .. } => expr_text(*left, my) + " mod "@ + expr_text(*right, my + 1),
        Expr::Neg { inner, .. } => "neg "@ + expr_text(*inner, my),
        Expr::Dot { .. } => "."@,
        Expr::Lit { v, .. } => int_decimal(v as int),
    };
    match e {
        Expr::Add { left, right, .. } => {
            lemma_expr_pieces(*left, my);
            lemma_expr_pieces(*right, my + 1);
            lemma_bin(expr_pieces(*left, my), "add"@, expr_pieces(*right, my + 1));
        },
        Expr::Sub { left, right, .. } => {
            lemma_expr_pieces(*left, my);
            lemma_expr_pieces(*right, my + 1);
            lemma_bin(expr_pieces(*left, my), "sub"@, expr_pieces(*right, my + 1));
        },
        Expr::Mul { left, right, .. } => {
            lemma_expr_pieces(*left, my);
            lemma_expr_pieces(*right, my + 1);
            lemma_bin(expr_pieces(*left, my), "mul"@, expr_pieces(*right, my + 1));
        },
        Expr::Div { left, right, .. } => {
            lemma_expr_pieces(*left, my);
            lemma_expr_pieces(*right, my + 1);
            lemma_bin(expr_pieces(*left, my), "div"@, expr_pieces(*right, my + 1));
        },
        Expr::Mod { left, right, .. } => {
            lemma_expr_pieces(*left, my);
            lemma_expr_pieces(*right, my + 1);
            lemma_bin(expr_pieces(*left, my), "mod"@, expr_pieces(*right, my + 1));
        },
        Expr::Neg { inner, .. } => {
            lemma_expr_pieces(*inner, my);
            lemma_kw("neg"@, expr_pieces(*inner, my));
        },
        Expr::Dot { .. } => {
            lemma_small_pieces("x"@, '.', 0);
        },
        Expr::Lit { v, .. } => {
            lemma_small_pieces("x"@, '.', v);
        },
    }
    assert(pieces_text(s) == t && pieces_ok(s) && s.len() > 0);
    if my < parent {
        lemma_parens(s);
    }
}


proof fn lemma_lit_elem_pieces(e: LitElem)
    ensures
        pieces_text(lit_elem_pieces(e)) == lit_elem_text(e),
        pieces_ok(lit_elem_pieces(e)),
        lit_elem_pieces(e).len() == 1,
        wordish(lit_elem_pieces(e)[0]),
{
    lemma_literals();
    match e {
        LitElem::I32(v) => lemma_small_pieces("x"@, '.', v as i64),
        LitElem::I64(v) => lemma_small_pieces("x"@, '.', v),
        LitElem::Bool(b) => lemma_small_pieces(bool_word(b), '.', 0),
    }
}

proof fn lemma_lit_list_pieces(es: Seq<LitElem>)
    ensures
        pieces_text(lit_list_pieces(es)) == lit_list_text(es),
        pieces_ok(lit_list_pieces(es)),
        es.len() > 0 ==> lit_list_pieces(es).len() > 0,
    decreases es.len(),
{
    if es.len() == 0 {
        assert(pieces_text(Seq::<Piece>::empty()) == Seq::<char>::empty());
    } else if es.len() == 1 {
        lemma_lit_elem_pieces(es[0]);
    } else {
        lemma_literals();
        lemma_lit_list_pieces(es.drop_last());
        lemma_lit_elem_pieces(es.last());
        lemma_small_pieces("x"@, ',', 0);
        lemma_cat2(punct(','), one(sp()));
        lemma_cat3(lit_list_pieces(es.drop_last()), punct(',') + one(sp()), lit_elem_pieces(es.last()));
    }
}

/// A list of pieces extended by one more list whose joint has a space or a mark.
proof fn lemma_then(a: Seq<Piece>, b: Seq<Piece>)
    requires
        pieces_ok(a),
        pieces_ok(b),
        b.len() > 0,
        a.len() == 0 || !wordish(a.last()) || !wordish(b[0]),
    ensures
        pieces_text(a + b) == pieces_text(a) + pieces_text(b),
        pieces_toks(a + b) == pieces_toks(a) + pieces_toks(b),
        pieces_ok(a + b),
        (a + b).last() == b.last(),
        (a + b).len() > 0,
{
    lemma_cat2(a, b);
}

proof fn lemma_source_pieces(src: Source)
    ensures
        pieces_text(source_pieces(src)) == source_text(src),
        pieces_ok(source_pieces(src)),
        source_pieces(src).len() > 0,
{
    lemma_literals();
    lemma_small_pieces("x"@, '(', 0);
    lemma_small_pieces("x"@, ')', 0);
    lemma_small_pieces("x"@, ',', 0);
    lemma_small_pieces("x"@, ':', 0);
    match src {
        Source::Input { ty, .. } => {
            lemma_small_pieces(ty_name(ty), ':', 0);
            lemma_small_pieces("input"@, ':', 0);
            lemma_then(word("input"@), punct(':'));
            lemma_then(word("input"@) + punct(':'), word(ty_name(ty)));
        },
        Source::Range { start, stop, step, .. } => {
            lemma_small_pieces("range"@, '(', start);
            lemma_small_pieces("x"@, ',', stop);
            let a1 = word("range"@) + one(sp());
            lemma_then(word("range"@), one(sp()));
            lemma_then(a1, punct('('));
            let a2 = a1 + punct('(');
            lemma_then(a2, one(sp()));
            let a3 = a2 + one(sp());
            lemma_then(a3, num(start));
            let a4 = a3 + num(start);
            lemma_then(a4, psep(','));
            let a5 = a4 + psep(',');
            lemma_edges("x"@, ',');
            lemma_then(a5, num(stop));
            let head = a5 + num(stop);
            assert(pieces_text(head) == "range ( "@ + int_decimal(start as int) + " , "@ + int_decimal(stop as int));
            if step == default_step_spec(start, stop) {
                lemma_then(head, one(sp()));
                lemma_then(head + one(sp()), punct(')'));
            } else {
                lemma_small_pieces("x"@, ',', step);
                lemma_then(head, psep(','));
                lemma_then(head + psep(','), num(step));
                lemma_then(head + psep(',') + num(step), one(sp()));
                lemma_then(head + psep(',') + num(step) + one(sp()), punct(')'));
            }
        },
        Source::Lit { elems, .. } => {
            lemma_small_pieces("lit"@, '(', 0);
            let a1 = word("lit"@) + one(sp());
            lemma_then(word("lit"@), one(sp()));
            lemma_then(a1, punct('('));
            let a2 = a1 + punct('(');
            if elems@.len() == 0 {
                lemma_then(a2, punct(')'));
            } else {
                lemma_lit_list_pieces(elems@);
                lemma_then(a2, one(sp()));
                let a3 = a2 + one(sp());
                lemma_then(a3, lit_list_pieces(elems@));
                let a4 = a3 + lit_list_pieces(elems@);
                lemma_then(a4, one(sp()));
                lemma_then(a4 + one(sp()), punct(')'));
            }
        },
    }
}

proof fn lemma_stage_pieces(st: Stage)
    ensures
        pieces_text(stage_pieces(st)) == stage_text(st),
        pieces_ok(stage_pieces(st)),
        stage_pieces(st).len() > 0,
{
    lemma_literals();
    match st {
        Stage::Filter { pred, .. } => {
            lemma_pred_pieces(pred);
            lemma_kw("filter"@, pred_pieces(pred));
        },
        Stage::MapEach { expr, .. } => {
            lemma_expr_pieces(expr, 0);
            lemma_kw("map"@, expr_pieces(expr, 0));
        },
        Stage::Scan { init, op, .. } => {
            lemma_small_pieces(scan_op_word(op), ',', init);
            lemma_edges("scan"@, ',');
            lemma_kw("scan"@, num(init));
            lemma_then(kw("scan"@) + num(init), punct(','));
            lemma_then(kw("scan"@) + num(init) + punct(','), one(sp()));
            lemma_then(kw("scan"@) + num(init) + punct(',') + one(sp()), word(scan_op_word(op)));
        },
        Stage::Reduce { op, .. } => {
            lemma_small_pieces(reduce_op_word(op), ',', 0);
            lemma_kw("reduce"@, word(reduce_op_word(op)));
        },
        Stage::Take { n, .. } => {
            lemma_small_pieces("x"@, ',', n as i64);
            lemma_kw("take"@, num(n as i64));
        },
        Stage::Drop { n, .. } => {
            lemma_small_pieces("x"@, ',', n as i64);
            lemma_kw("drop"@, num(n as i64));
        },
        Stage::Id { .. } => {
            lemma_small_pieces("id"@, ',', 0);
        },
    }
}

proof fn lemma_stages_pieces(st: Seq<Stage>)
    ensures
        pieces_text(stages_pieces(st)) == stages_text(st),
        pieces_ok(stages_pieces(st)),
        st.len() > 0 ==> stages_pieces(st).len() > 0 && stages_pieces(st)[0] == sp(),
    decreases st.len(),
{
    if st.len() == 0 {
        assert(pieces_text(Seq::<Piece>::empty()) == Seq::<char>::empty());
    } else {
        lemma_literals();
        lemma_stages_pieces(st.drop_last());
        lemma_stage_pieces(st.last());
        lemma_small_pieces("x"@, '|', 0);
        lemma_edges("x"@, '|');
        lemma_then(stages_pieces(st.drop_last()), psep('|'));
        lemma_then(stages_pieces(st.drop_last()) + psep('|'), stage_pieces(st.last()));
        if st.drop_last().len() == 0 {
            assert(stages_pieces(st.drop_last()) =~= Seq::<Piece>::empty());
            assert(stages_pieces(st.drop_last()) + psep('|') =~= psep('|'));
        }
    }
}


/// The keywords that the parser tells apart are different words.
proof fn lemma_distinct_words()
    ensures
        "not"@ != "even"@,
        "not"@ != "odd"@,
        "not"@ != "eq"@,
        "not"@ != "lt"@,
        "not"@ != "le"@,
        "not"@ != "gt"@,
        "not"@ != "ge"@,
        "not"@ != "or"@,
        "even"@ != "odd"@,
        "even"@ != "eq"@,
        "even"@ != "lt"@,
        "even"@ != "le"@,
        "even"@ != "gt"@,
        "even"@ != "ge"@,
        "even"@ != "or"@,
        "odd"@ != "eq"@,
        "odd"@ != "lt"@,
        "odd"@ != "le"@,
        "odd"@ != "gt"@,
        "odd"@ != "ge"@,
        "odd"@ != "or"@,
        "eq"@ != "lt"@,
        "eq"@ != "le"@,
        "eq"@ != "gt"@,
        "eq"@ != "ge"@,
        "eq"@ != "or"@,
        "lt"@ != "le"@,
        "lt"@ != "gt"@,
        "lt"@ != "ge"@,
        "lt"@ != "or"@,
        "le"@ != "gt"@,
        "le"@ != "ge"@,
        "le"@ != "or"@,
        "gt"@ != "ge"@,
        "gt"@ != "or"@,
        "ge"@ != "or"@,
        "add"@ != "sub"@,
        "add"@ != "mul"@,
        "add"@ != "div"@,
        "add"@ != "mod"@,
        "add"@ != "neg"@,
        "sub"@ != "mul"@,
        "sub"@ != "div"@,
        "sub"@ != "mod"@,
        "sub"@ != "neg"@,
        "mul"@ != "div"@,
        "mul"@ != "mod"@,
        "mul"@ != "neg"@,
        "div"@ != "mod"@,
        "div"@ != "neg"@,
        "mod"@ != "neg"@,
        "filter"@ != "map"@,
        "filter"@ != "scan"@,
        "filter"@ != "reduce"@,
        "filter"@ != "take"@,
        "filter"@ != "drop"@,
        "filter"@ != "id"@,
        "map"@ != "scan"@,
        "map"@ != "reduce"@,
        "map"@ != "take"@,
        "map"@ != "drop"@,
        "map"@ != "id"@,
        "scan"@ != "reduce"@,
        "scan"@ != "take"@,
        "scan"@ != "drop"@,
        "scan"@ != "id"@,
        "reduce"@ != "take"@,
        "reduce"@ != "drop"@,
        "reduce"@ != "id"@,
        "take"@ != "drop"@,
        "take"@ != "id"@,
        "drop"@ != "id"@,
        "sum"@ != "prod"@,
        "sum"@ != "count"@,
        "sum"@ != "min"@,
        "sum"@ != "max"@,
        "prod"@ != "count"@,
        "prod"@ != "min"@,
        "prod"@ != "max"@,
        "count"@ != "min"@,
        "count"@ != "max"@,
        "min"@ != "max"@,
        "input"@ != "range"@,
        "input"@ != "lit"@,
        "range"@ != "lit"@,
        "i32"@ != "i64"@,
        "i32"@ != "bool"@,
        "i64"@ != "bool"@,
        "true"@ != "false"@,
{
    reveal_strlit("add");
    reveal_strlit("bool");
    reveal_strlit("count");
    reveal_strlit("div");
    reveal_strlit("drop");
    reveal_strlit("eq");
    reveal_strlit("even");
    reveal_strlit("false");
    reveal_strlit("filter");
    reveal_strlit("ge");
    reveal_strlit("gt");
    reveal_strlit("i32");
    reveal_strlit("i64");
    reveal_strlit("id");
    reveal_strlit("input");
    reveal_strlit("le");
    reveal_strlit("lit");
    reveal_strlit("lt");
    reveal_strlit("map");
    reveal_strlit("max");
    reveal_strlit("min");
    reveal_strlit("mod");
    reveal_strlit("mul");
    reveal_strlit("neg");
    reveal_strlit("not");
    reveal_strlit("odd");
    reveal_strlit("or");
    reveal_strlit("prod");
    reveal_strlit("range");
    reveal_strlit("reduce");
    reveal_strlit("scan");
    reveal_strlit("sub");
    reveal_strlit("sum");
    reveal_strlit("take");
    reveal_strlit("true");
    assert("not"@.len() != "even"@.len());
    assert("not"@[0] != "odd"@[0]);
    assert("not"@.len() != "eq"@.len());
    assert("not"@.len() != "lt"@.len());
    assert("not"@.len() != "le"@.len());
    assert("not"@.len() != "gt"@.len());
    assert("not"@.len() != "ge"@.len());
    assert("not"@.len() != "or"@.len());
    assert("even"@.len() != "odd"@.len());
    assert("even"@.len() != "eq"@.len());
    assert("even"@.len() != "lt"@.len());
    assert("even"@.len() != "le"@.len());
    assert("even"@.len() != "gt"@.len());
    assert("even"@.len() != "ge"@.len());
    assert("even"@.len() != "or"@.len());
    assert("odd"@.len() != "eq"@.len());
    assert("odd"@.len() != "lt"@.len());
    assert("odd"@.len() != "le"@.len());
    assert("odd"@.len() != "gt"@.len());
    assert("odd"@.len() != "ge"@.len());
    assert("odd"@.len() != "or"@.len());
    assert("eq"@[0] != "lt"@[0]);
    assert("eq"@[0] != "le"@[0]);
    assert("eq"@[0] != "gt"@[0]);
    assert("eq"@[0] != "ge"@[0]);
    assert("eq"@[0] != "or"@[0]);
    assert("lt"@[1] != "le"@[1]);
    assert("lt"@[0] != "gt"@[0]);
    assert("lt"@[0] != "ge"@[0]);
    assert("lt"@[0] != "or"@[0]);
    assert("le"@[0] != "gt"@[0]);
    assert("le"@[0] != "ge"@[0]);
    assert("le"@[0] != "or"@[0]);
    assert("gt"@[1] != "ge"@[1]);
    assert("gt"@[0] != "or"@[0]);
    assert("ge"@[0] != "or"@[0]);
    assert("add"@[0] != "sub"@[0]);
    assert("add"@[0] != "mul"@[0]);
    assert("add"@[0] != "div"@[0]);
    assert("add"@[0] != "mod"@[0]);
    assert("add"@[0] != "neg"@[0]);
    assert("sub"@[0] != "mul"@[0]);
    assert("sub"@[0] != "div"@[0]);
    assert("sub"@[0] != "mod"@[0]);
    assert("sub"@[0] != "neg"@[0]);
    assert("mul"@[0] != "div"@[0]);
    assert("mul"@[1] != "mod"@[1]);
    assert("mul"@[0] != "neg"@[0]);
    assert("div"@[0] != "mod"@[0]);
    assert("div"@[0] != "neg"@[0]);
    assert("mod"@[0] != "neg"@[0]);
    assert("filter"@.len() != "map"@.len());
    assert("filter"@.len() != "scan"@.len());
    assert("filter"@[0] != "reduce"@[0]);
    assert("filter"@.len() != "take"@.len());
    assert("filter"@.len() != "drop"@.len());
    assert("filter"@.len() != "id"@.len());
    assert("map"@.len() != "scan"@.len());
    assert("map"@.len() != "reduce"@.len());
    assert("map"@.len() != "take"@.len());
    assert("map"@.len() != "drop"@.len());
    assert("map"@.len() != "id"@.len());
    assert("scan"@.len() != "reduce"@.len());
    assert("scan"@[0] != "take"@[0]);
    assert("scan"@[0] != "drop"@[0]);
    assert("scan"@.len() != "id"@.len());
    assert("reduce"@.len() != "take"@.len());
    assert("reduce"@.len() != "drop"@.len());
    assert("reduce"@.len() != "id"@.len());
    assert("take"@[0] != "drop"@[0]);
    assert("take"@.len() != "id"@.len());
    assert("drop"@.len() != "id"@.len());
    assert("sum"@.len() != "prod"@.len());
    assert("sum"@.len() != "count"@.len());
    assert("sum"@[0] != "min"@[0]);
    assert("sum"@[0] != "max"@[0]);
    assert("prod"@.len() != "count"@.len());
    assert("prod"@.len() != "min"@.len());
    assert("prod"@.len() != "max"@.len());
    assert("count"@.len() != "min"@.len());
    assert("count"@.len() != "max"@.len());
    assert("min"@[1] != "max"@[1]);
    assert("input"@[0] != "range"@[0]);
    assert("input"@.len() != "lit"@.len());
    assert("range"@.len() != "lit"@.len());
    assert("i32"@[1] != "i64"@[1]);
    assert("i32"@.len() != "bool"@.len());
    assert("i64"@.len() != "bool"@.len());
    assert("true"@.len() != "false"@.len());
}


/// The tokens at `i..` of `t` are `ks`.
pub open spec fn toks_at(t: Seq<LexemeView>, i: int, ks: Seq<TokenView>) -> bool {
    &&& 0 <= i
    &&& i + ks.len() <= t.len()
    &&& forall|k: int| 0 <= k < ks.len() ==> t[i + k].tok == #[trigger] ks[k]
}

proof fn lemma_toks_split(t: Seq<LexemeView>, i: int, a: Seq<TokenView>, b: Seq<TokenView>)
    requires
        toks_at(t, i, a + b),
    ensures
        toks_at(t, i, a),
        toks_at(t, i + a.len(), b),
{
    assert forall|k: int| 0 <= k < a.len() implies t[i + k].tok == #[trigger] a[k] by {
        assert((a + b)[k] == a[k]);
    }
    assert forall|k: int| 0 <= k < b.len() implies t[i + a.len() + k].tok == #[trigger] b[k] by {
        assert((a + b)[a.len() + k] == b[k]);
    }
}

proof fn lemma_tok_one(t: Seq<LexemeView>, i: int, x: TokenView)
    requires
        toks_at(t, i, seq![x]),
    ensures
        0 <= i < t.len(),
        tok_at(t, i) == x,
{
    assert(seq![x][0] == x);
}

/// Tokens of the canonical text of a predicate, at each level.
pub open spec fn tk_atom(p: Predicate) -> Seq<TokenView> { pieces_toks(atom_pieces(p)) }
pub open spec fn tk_or(p: Predicate) -> Seq<TokenView> { pieces_toks(or_chain_pieces(p)) }
pub open spec fn tk_and(p: Predicate) -> Seq<TokenView> { pieces_toks(and_chain_pieces(p)) }
pub open spec fn tk_pred(p: Predicate) -> Seq<TokenView> { pieces_toks(pred_pieces(p)) }
pub open spec fn tk_notin(p: Predicate) -> Seq<TokenView> { pieces_toks(not_inner_pieces(p)) }

/// Token of the right-hand side of a comparison.
pub open spec fn rhs_tok(rhs: CmpRhs) -> TokenView {
    match rhs {
        CmpRhs::Int(v) => TokenView::Int(v),
        CmpRhs::Bool(b) => TokenView::Ident(bool_word(b)),
    }
}

/// How the tokens of a predicate are built from those of its parts.
proof fn lemma_pred_toks(p: Predicate)
    ensures
        tk_or(p).len() > 0,
        tk_and(p).len() > 0,
        tk_pred(p).len() > 0,
        tk_notin(p).len() > 0,
        match p {
            Predicate::Or { left, right, .. } => {
                &&& tk_or(p) == tk_or(*left) + seq![TokenView::Ident("or"@)] + tk_or(*right)
                &&& tk_and(p) == seq![TokenView::LParen] + tk_or(p) + seq![TokenView::RParen]
                &&& tk_pred(p) == tk_or(p)
                &&& tk_notin(p) == seq![TokenView::LParen] + tk_pred(p) + seq![TokenView::RParen]
            },
            Predicate::And { left, right, .. } => {
                &&& tk_and(p) == tk_and(*left) + seq![TokenView::Amp] + tk_and(*right)
                &&& tk_or(p) == seq![TokenView::LParen] + tk_and(p) + seq![TokenView::RParen]
                &&& tk_pred(p) == tk_and(p)
                &&& tk_notin(p) == seq![TokenView::LParen] + tk_pred(p) + seq![TokenView::RParen]
            },
            Predicate::Not { inner, .. } => {
                &&& tk_atom(p) == seq![TokenView::Ident("not"@)] + tk_notin(*inner)
                &&& tk_or(p) == tk_atom(p) && tk_and(p) == tk_atom(p) && tk_pred(p) == tk_atom(p) && tk_notin(p) == tk_atom(p)
            },
            Predicate::Even { .. } => {
                &&& tk_atom(p) == seq![TokenView::Ident("even"@)]
                &&& tk_or(p) == tk_atom(p) && tk_and(p) == tk_atom(p) && tk_pred(p) == tk_atom(p) && tk_notin(p) == tk_atom(p)
            },
            Predicate::Odd { .. } => {
                &&& tk_atom(p) == seq![TokenView::Ident("odd"@)]
                &&& tk_or(p) == tk_atom(p) && tk_and(p) == tk_atom(p) && tk_pred(p) == tk_atom(p) && tk_notin(p) == tk_atom(p)
            },
            Predicate::Cmp { op, rhs, .. } => {
                &&& tk_atom(p) == seq![TokenView::Ident(compare_op_name(op)), rhs_tok(rhs)]
                &&& tk_or(p) == tk_atom(p) && tk_and(p) == tk_atom(p) && tk_pred(p) == tk_atom(p) && tk_notin(p) == tk_atom(p)
            },
        },
    decreases p,
{
    lemma_pred_pieces(p);
    lemma_literals();
    match p {
        Predicate::Or { left, right, .. } => {
            lemma_pred_pieces(*left);
            lemma_pred_pieces(*right);
            lemma_pred_toks(*left);
            lemma_bin(or_chain_pieces(*left), "or"@, or_chain_pieces(*right));
            assert(tk_or(p).len() > 0);
            lemma_parens(or_chain_pieces(p));
            lemma_parens(pred_pieces(p));
            assert(punct_token('(') == Some(TokenView::LParen));
        },
        Predicate::And { left, right, .. } => {
            lemma_pred_pieces(*left);
            lemma_pred_pieces(*right);
            lemma_pred_toks(*left);
            lemma_small_pieces("x"@, '&', 0);
            lemma_edges("x"@, '&');
            lemma_cat3(and_chain_pieces(*left), psep('&'), and_chain_pieces(*right));
            lemma_parens(and_chain_pieces(p));
            lemma_parens(pred_pieces(p));
        },
        Predicate::Not { inner, .. } => {
            lemma_pred_pieces(*inner);
            lemma_pred_toks(*inner);
            lemma_kw("not"@, not_inner_pieces(*inner));
        },
        Predicate::Even { .. } => {
            lemma_small_pieces("even"@, '(', 0);
        },
        Predicate::Odd { .. } => {
            lemma_small_pieces("odd"@, '(', 0);
        },
        Predicate::Cmp { op, rhs, .. } => {
            let w = compare_op_name(op);
            lemma_small_pieces(w, '(', 0);
            lemma_edges(w, '(');
            match rhs {
                CmpRhs::Int(v) => {
                    lemma_small_pieces(w, '(', v);
                    lemma_cat3(word(w), one(sp()), num(v));
                    assert(seq![TokenView::Ident(w)] + Seq::<TokenView>::empty() + seq![TokenView::Int(v)] =~= seq![TokenView::Ident(w), TokenView::Int(v)]);
                },
                CmpRhs::Bool(b) => {
                    lemma_small_pieces(bool_word(b), '(', 0);
                    lemma_cat3(word(w), one(sp()), word(bool_word(b)));
                    assert(seq![TokenView::Ident(w)] + Seq::<TokenView>::empty() + seq![TokenView::Ident(bool_word(b))] =~= seq![TokenView::Ident(w), TokenView::Ident(bool_word(b))]);
                },
            }
        },
    }
}


/// A comparison with a boolean right-hand side uses `eq`, as the parser demands.
pub open spec fn printable_pred(p: Predicate) -> bool
    decreases p,
{
    match p {
        Predicate::Or { left, right, .. } | Predicate::And { left, right, .. } => printable_pred(*left) && printable_pred(*right),
        Predicate::Not { inner, .. } => printable_pred(*inner),
        Predicate::Cmp { op, rhs, .. } => rhs is Bool ==> op == CmpOp::Eq,
        _ => true,
    }
}

/// A token that ends a predicate or an expression: `|`, `)` or the end.
pub open spec fn is_stop(tk: TokenView) -> bool {
    tk is Pipe || tk is RParen || tk is Eof
}

proof fn lemma_cmp_word(op: CmpOp)
    ensures
        compare_op_of(compare_op_name(op)) == Some(op),
        compare_op_name(op) != "not"@,
        compare_op_name(op) != "even"@,
        compare_op_name(op) != "odd"@,
{
    lemma_distinct_words();
}

/// Two predicates mean the same: they evaluate alike on every value of every stream type.
pub open spec fn same_meaning(a: Predicate, b: Predicate) -> bool {
    forall|v: Val, ty: ElemTy| #[trigger] eval_pred_spec(a, v, ty) == eval_pred_spec(b, v, ty)
}

/// Outcome of `or` given the outcomes of its operands (the right one is looked at only
/// when the left one is false).
pub open spec fn or_result(a: Result<bool, Fault>, b: Result<bool, Fault>) -> Result<bool, Fault> {
    match a {
        Err(f) => Err(f),
        Ok(true) => Ok(true),
        Ok(false) => b,
    }
}

/// Outcome of `&` given the outcomes of its operands.
pub open spec fn and_result(a: Result<bool, Fault>, b: Result<bool, Fault>) -> Result<bool, Fault> {
    match a {
        Err(f) => Err(f),
        Ok(false) => Ok(false),
        Ok(true) => b,
    }
}

/// An atom (`not ...`, `even`, `odd`, a comparison) parses back to an atom with the same text.
proof fn lemma_parse_atom(t: Seq<LexemeView>, off: int, i: int, p: Predicate) -> (q: Predicate)
    requires
        !(p is Or) && !(p is And),
        printable_pred(p),
        toks_at(t, i, tk_atom(p)),
    ensures
        pred_not_sp(t, off, i) == Ok::<(Predicate, int), ErrorView>((q, i + tk_atom(p).len())),
        atom_text(q) == atom_text(p),
        !(q is Or) && !(q is And),
        same_meaning(q, p),
    decreases pred_size(p), 0int,
{
    lemma_pred_toks(p);
    lemma_distinct_words();
    match p {
        Predicate::Not { inner, .. } => {
            lemma_toks_split(t, i, seq![TokenView::Ident("not"@)], tk_notin(*inner));
            lemma_tok_one(t, i, TokenView::Ident("not"@));
            let qi = lemma_parse_not_inner(t, off, i + 1, *inner);
            let sp = crate::parse::gsp(crate::parse::span_at(t, i), off);
            assert(ident_is(t, i, "not"@));
            assert(tk_atom(p).len() == 1 + tk_notin(*inner).len());
            let q = Predicate::Not { inner: Box::new(qi), span: merge_spec(sp, pred_span_of(qi)) };
            assert(pred_not_sp(t, off, i + 1) == Ok::<(Predicate, int), ErrorView>((qi, i + 1 + tk_notin(*inner).len())));
            assert(pred_not_sp(t, off, i) == Ok::<(Predicate, int), ErrorView>((q, i + 1 + tk_notin(*inner).len())));
            assert forall|v: Val, ty: ElemTy| #[trigger] eval_pred_spec(q, v, ty) == eval_pred_spec(p, v, ty) by {
                assert(eval_pred_spec(qi, v, ty) == eval_pred_spec(*inner, v, ty));
            }
            q
        },
        Predicate::Even { span } => {
            lemma_tok_one(t, i, TokenView::Ident("even"@));
            let q = Predicate::Even { span: crate::parse::gsp(crate::parse::span_at(t, i), off) };
            assert(!ident_is(t, i, "not"@));
            assert(pred_primary_sp(t, off, i) == Ok::<(Predicate, int), ErrorView>((q, i + 1)));
            q
        },
        Predicate::Odd { span } => {
            lemma_tok_one(t, i, TokenView::Ident("odd"@));
            let q = Predicate::Odd { span: crate::parse::gsp(crate::parse::span_at(t, i), off) };
            assert(!ident_is(t, i, "not"@));
            assert(pred_primary_sp(t, off, i) == Ok::<(Predicate, int), ErrorView>((q, i + 1)));
            q
        },
        Predicate::Cmp { op, rhs, .. } => {
            lemma_cmp_word(op);
            let w = compare_op_name(op);
            assert(seq![TokenView::Ident(w), rhs_tok(rhs)] =~= seq![TokenView::Ident(w)] + seq![rhs_tok(rhs)]);
            lemma_toks_split(t, i, seq![TokenView::Ident(w)], seq![rhs_tok(rhs)]);
            lemma_tok_one(t, i, TokenView::Ident(w));
            lemma_tok_one(t, i + 1, rhs_tok(rhs));
            let span = crate::parse::gsp(crate::parse::span_at(t, i), off);
            let q = Predicate::Cmp { op, rhs, span };
            assert(!ident_is(t, i, "not"@));
            assert(compare_rhs_sp(t, off, i + 1, op, span) == Ok::<(CmpRhs, int), ErrorView>((rhs, i + 2)));
            assert(pred_primary_sp(t, off, i) == Ok::<(Predicate, int), ErrorView>((q, i + 2)));
            q
        },
        _ => p,
    }
}

/// The operand of `not` parses back to a predicate whose operand text is the same.
proof fn lemma_parse_not_inner(t: Seq<LexemeView>, off: int, i: int, p: Predicate) -> (q: Predicate)
    requires
        printable_pred(p),
        toks_at(t, i, tk_notin(p)),
    ensures
        pred_not_sp(t, off, i) == Ok::<(Predicate, int), ErrorView>((q, i + tk_notin(p).len())),
        not_inner_text(q) == not_inner_text(p),
        same_meaning(q, p),
    decreases pred_size(p), 3int,
{
    lemma_pred_toks(p);
    lemma_distinct_words();
    if p is Or || p is And {
        let m = tk_pred(p).len();
        lemma_toks_split(t, i, seq![TokenView::LParen] + tk_pred(p), seq![TokenView::RParen]);
        lemma_toks_split(t, i, seq![TokenView::LParen], tk_pred(p));
        lemma_tok_one(t, i, TokenView::LParen);
        lemma_tok_one(t, i + 1 + m, TokenView::RParen);
        let q = lemma_parse_pred(t, off, i + 1, p);
        assert(pred_primary_sp(t, off, i) == Ok::<(Predicate, int), ErrorView>((q, i + 2 + m)));
        assert(!ident_is(t, i, "not"@));
        q
    } else {
        lemma_parse_atom(t, off, i, p)
    }
}

/// A predicate followed by `|`, `)` or the end parses back to one with the same text.
proof fn lemma_parse_pred(t: Seq<LexemeView>, off: int, i: int, p: Predicate) -> (q: Predicate)
    requires
        printable_pred(p),
        toks_at(t, i, tk_pred(p)),
        i + tk_pred(p).len() < t.len(),
        is_stop(t[i + tk_pred(p).len()].tok),
    ensures
        pred_or_sp(t, off, i) == Ok::<(Predicate, int), ErrorView>((q, i + tk_pred(p).len())),
        pred_text(q) == pred_text(p),
        (q is Or) == (p is Or),
        (q is And) == (p is And),
        same_meaning(q, p),
    decreases pred_size(p), 2int,
{
    lemma_pred_toks(p);
    let n = tk_pred(p).len();
    if p is Or {
        let acc = lemma_or_start(t, off, i, p);
        acc
    } else if p is And {
        let acc = lemma_and_start(t, off, i, p);
        acc
    } else {
        let q = lemma_parse_atom(t, off, i, p);
        q
    }
}

/// An operand of an `or` chain (`&` chains in parentheses, or an atom), followed by a
/// token other than `&`, parses at `&` level to a predicate with the same operand text.
proof fn lemma_or_opnd(t: Seq<LexemeView>, off: int, i: int, p: Predicate) -> (q: Predicate)
    requires
        !(p is Or),
        printable_pred(p),
        toks_at(t, i, tk_or(p)),
        i + tk_or(p).len() < t.len(),
        !(t[i + tk_or(p).len()].tok is Amp),
    ensures
        pred_and_sp(t, off, i) == Ok::<(Predicate, int), ErrorView>((q, i + tk_or(p).len())),
        or_chain_text(q) == or_chain_text(p),
        !(q is Or),
        (q is And) == (p is And),
        same_meaning(q, p),
    decreases pred_size(p), 3int,
{
    lemma_pred_toks(p);
    lemma_distinct_words();
    let n = tk_or(p).len();
    if p is And {
        let m = tk_pred(p).len();
        lemma_toks_split(t, i, seq![TokenView::LParen] + tk_pred(p), seq![TokenView::RParen]);
        lemma_toks_split(t, i, seq![TokenView::LParen], tk_pred(p));
        lemma_tok_one(t, i, TokenView::LParen);
        lemma_tok_one(t, i + 1 + m, TokenView::RParen);
        let q = lemma_parse_pred(t, off, i + 1, p);
        assert(pred_not_sp(t, off, i) == Ok::<(Predicate, int), ErrorView>((q, i + n)));
        q
    } else {
        let q = lemma_parse_atom(t, off, i, p);
        q
    }
}

/// The first operands of an `or` chain, up to the end of `p`'s text: parsing from `i` is
/// continuing the chain with an accumulated predicate that prints like `p`.
proof fn lemma_or_start(t: Seq<LexemeView>, off: int, i: int, p: Predicate) -> (acc: Predicate)
    requires
        printable_pred(p),
        toks_at(t, i, tk_or(p)),
        i + tk_or(p).len() < t.len(),
        !(t[i + tk_or(p).len()].tok is Amp),
    ensures
        pred_or_sp(t, off, i) == or_rest_sp(t, off, acc, i + tk_or(p).len()),
        or_chain_text(acc) == or_chain_text(p),
        (acc is Or) == (p is Or),
        (acc is And) == (p is And),
        same_meaning(acc, p),
    decreases pred_size(p), (if p is Or { 1int } else { 4int }),
{
    lemma_pred_toks(p);
    lemma_distinct_words();
    match p {
        Predicate::Or { left, right, .. } => {
            let l = *left;
            let r = *right;
            let nl = tk_or(l).len();
            lemma_pred_toks(l);
            lemma_toks_split(t, i, tk_or(l) + seq![TokenView::Ident("or"@)], tk_or(r));
            lemma_toks_split(t, i, tk_or(l), seq![TokenView::Ident("or"@)]);
            assert(toks_at(t, i + nl, seq![TokenView::Ident("or"@)] + tk_or(r))) by {
                assert forall|k: int| 0 <= k < 1 + tk_or(r).len() implies t[i + nl + k].tok == #[trigger] (seq![TokenView::Ident("or"@)] + tk_or(r))[k] by {
                    assert((seq![TokenView::Ident("or"@)] + tk_or(r))[k] == tk_or(p)[nl + k]);
                }
            }
            lemma_tok_one(t, i + nl, TokenView::Ident("or"@));
            let acc_l = lemma_or_start(t, off, i, l);
            let acc = lemma_or_step(t, off, acc_l, i + nl, r);
            acc
        },
        _ => {
            let q = lemma_or_opnd(t, off, i, p);
            q
        },
    }
}

/// `or` and the operands of `p`: continuing an `or` chain over them is continuing it with
/// an accumulated predicate that prints as the old one, `" or "`, then `p`.
proof fn lemma_or_step(t: Seq<LexemeView>, off: int, acc: Predicate, j: int, p: Predicate) -> (acc2: Predicate)
    requires
        printable_pred(p),
        toks_at(t, j, seq![TokenView::Ident("or"@)] + tk_or(p)),
        j + 1 + tk_or(p).len() < t.len(),
        !(t[j + 1 + tk_or(p).len()].tok is Amp),
    ensures
        or_rest_sp(t, off, acc, j) == or_rest_sp(t, off, acc2, j + 1 + tk_or(p).len()),
        or_chain_text(acc2) == or_chain_text(acc) + " or "@ + or_chain_text(p),
        acc2 is Or,
        forall|v: Val, ty: ElemTy| #[trigger] eval_pred_spec(acc2, v, ty)
            == or_result(eval_pred_spec(acc, v, ty), eval_pred_spec(p, v, ty)),
    decreases pred_size(p), (if p is Or { 1int } else { 4int }),
{
    lemma_pred_toks(p);
    lemma_distinct_words();
    lemma_toks_split(t, j, seq![TokenView::Ident("or"@)], tk_or(p));
    lemma_tok_one(t, j, TokenView::Ident("or"@));
    match p {
        Predicate::Or { left, right, .. } => {
            let l = *left;
            let r = *right;
            let nl = tk_or(l).len();
            lemma_pred_toks(l);
            lemma_toks_split(t, j + 1, tk_or(l) + seq![TokenView::Ident("or"@)], tk_or(r));
            lemma_toks_split(t, j + 1, tk_or(l), seq![TokenView::Ident("or"@)]);
            assert(toks_at(t, j, seq![TokenView::Ident("or"@)] + tk_or(l))) by {
                assert forall|k: int| 0 <= k < 1 + nl implies t[j + k].tok == #[trigger] (seq![TokenView::Ident("or"@)] + tk_or(l))[k] by {
                    if k > 0 {
                        assert((seq![TokenView::Ident("or"@)] + tk_or(l))[k] == tk_or(l)[k - 1]);
                    }
                }
            }
            assert(toks_at(t, j + 1 + nl, seq![TokenView::Ident("or"@)] + tk_or(r))) by {
                assert forall|k: int| 0 <= k < 1 + tk_or(r).len() implies t[j + 1 + nl + k].tok == #[trigger] (seq![TokenView::Ident("or"@)] + tk_or(r))[k] by {
                    assert((seq![TokenView::Ident("or"@)] + tk_or(r))[k] == tk_or(p)[nl + k]);
                }
            }
            lemma_tok_one(t, j + 1 + nl, TokenView::Ident("or"@));
            let acc1 = lemma_or_step(t, off, acc, j, l);
            let acc2 = lemma_or_step(t, off, acc1, j + 1 + nl, r);
            assert(or_chain_text(acc2) =~= or_chain_text(acc) + " or "@ + or_chain_text(p));
            assert forall|v: Val, ty: ElemTy| #[trigger] eval_pred_spec(acc2, v, ty)
                == or_result(eval_pred_spec(acc, v, ty), eval_pred_spec(p, v, ty)) by {
                assert(eval_pred_spec(acc2, v, ty) == or_result(eval_pred_spec(acc1, v, ty), eval_pred_spec(r, v, ty)));
                assert(eval_pred_spec(acc1, v, ty) == or_result(eval_pred_spec(acc, v, ty), eval_pred_spec(l, v, ty)));
            }
            acc2
        },
        _ => {
            let q = lemma_or_opnd(t, off, j + 1, p);
            let acc2 = Predicate::Or { left: Box::new(acc), right: Box::new(q), span: merge_spec(pred_span_of(acc), pred_span_of(q)) };
            assert forall|v: Val, ty: ElemTy| #[trigger] eval_pred_spec(acc2, v, ty)
                == or_result(eval_pred_spec(acc, v, ty), eval_pred_spec(p, v, ty)) by {
                assert(eval_pred_spec(q, v, ty) == eval_pred_spec(p, v, ty));
            }
            acc2
        },
    }
}

/// An operand of an `&` chain (`or` chains in parentheses, or an atom) parses at `not`
/// level to a predicate with the same operand text.
proof fn lemma_and_opnd(t: Seq<LexemeView>, off: int, i: int, p: Predicate) -> (q: Predicate)
    requires
        !(p is And),
        printable_pred(p),
        toks_at(t, i, tk_and(p)),
    ensures
        pred_not_sp(t, off, i) == Ok::<(Predicate, int), ErrorView>((q, i + tk_and(p).len())),
        and_chain_text(q) == and_chain_text(p),
        !(q is And),
        (q is Or) == (p is Or),
        same_meaning(q, p),
    decreases pred_size(p), 3int,
{
    lemma_pred_toks(p);
    lemma_distinct_words();
    if p is Or {
        let m = tk_pred(p).len();
        lemma_toks_split(t, i, seq![TokenView::LParen] + tk_pred(p), seq![TokenView::RParen]);
        lemma_toks_split(t, i, seq![TokenView::LParen], tk_pred(p));
        lemma_tok_one(t, i, TokenView::LParen);
        lemma_tok_one(t, i + 1 + m, TokenView::RParen);
        let q = lemma_parse_pred(t, off, i + 1, p);
        assert(pred_primary_sp(t, off, i) == Ok::<(Predicate, int), ErrorView>((q, i + 2 + m)));
        assert(!ident_is(t, i, "not"@));
        q
    } else {
        let q = lemma_parse_atom(t, off, i, p);
        q
    }
}

/// The first operands of an `&` chain, up to the end of `p`'s text.
proof fn lemma_and_start(t: Seq<LexemeView>, off: int, i: int, p: Predicate) -> (acc: Predicate)
    requires
        printable_pred(p),
        toks_at(t, i, tk_and(p)),
        i + tk_and(p).len() < t.len(),
    ensures
        pred_and_sp(t, off, i) == and_rest_sp(t, off, acc, i + tk_and(p).len()),
        and_chain_text(acc) == and_chain_text(p),
        (acc is Or) == (p is Or),
        (acc is And) == (p is And),
        same_meaning(acc, p),
    decreases pred_size(p), (if p is And { 1int } else { 4int }),
{
    lemma_pred_toks(p);
    match p {
        Predicate::And { left, right, .. } => {
            let l = *left;
            let r = *right;
            let nl = tk_and(l).len();
            lemma_pred_toks(l);
            lemma_toks_split(t, i, tk_and(l) + seq![TokenView::Amp], tk_and(r));
            lemma_toks_split(t, i, tk_and(l), seq![TokenView::Amp]);
            assert(toks_at(t, i + nl, seq![TokenView::Amp] + tk_and(r))) by {
                assert forall|k: int| 0 <= k < 1 + tk_and(r).len() implies t[i + nl + k].tok == #[trigger] (seq![TokenView::Amp] + tk_and(r))[k] by {
                    assert((seq![TokenView::Amp] + tk_and(r))[k] == tk_and(p)[nl + k]);
                }
            }
            let acc_l = lemma_and_start(t, off, i, l);
            let acc = lemma_and_step(t, off, acc_l, i + nl, r);
            acc
        },
        _ => {
            let q = lemma_and_opnd(t, off, i, p);
            q
        },
    }
}

/// `&` and the operands of `p`.
proof fn lemma_and_step(t: Seq<LexemeView>, off: int, acc: Predicate, j: int, p: Predicate) -> (acc2: Predicate)
    requires
        printable_pred(p),
        toks_at(t, j, seq![TokenView::Amp] + tk_and(p)),
        j + 1 + tk_and(p).len() < t.len(),
    ensures
        and_rest_sp(t, off, acc, j) == and_rest_sp(t, off, acc2, j + 1 + tk_and(p).len()),
        and_chain_text(acc2) == and_chain_text(acc) + " & "@ + and_chain_text(p),
        acc2 is And,
        forall|v: Val, ty: ElemTy| #[trigger] eval_pred_spec(acc2, v, ty)
            == and_result(eval_pred_spec(acc, v, ty), eval_pred_spec(p, v, ty)),
    decreases pred_size(p), (if p is And { 1int } else { 4int }),
{
    lemma_pred_toks(p);
    lemma_toks_split(t, j, seq![TokenView::Amp], tk_and(p));
    lemma_tok_one(t, j, TokenView::Amp);
    match p {
        Predicate::And { left, right, .. } => {
            let l = *left;
            let r = *right;
            let nl = tk_and(l).len();
            lemma_pred_toks(l);
            lemma_toks_split(t, j + 1, tk_and(l) + seq![TokenView::Amp], tk_and(r));
            lemma_toks_split(t, j + 1, tk_and(l), seq![TokenView::Amp]);
            assert(toks_at(t, j, seq![TokenView::Amp] + tk_and(l))) by {
                assert forall|k: int| 0 <= k < 1 + nl implies t[j + k].tok == #[trigger] (seq![TokenView::Amp] + tk_and(l))[k] by {
                    if k > 0 {
                        assert((seq![TokenView::Amp] + tk_and(l))[k] == tk_and(l)[k - 1]);
                    }
                }
            }
            assert(toks_at(t, j + 1 + nl, seq![TokenView::Amp] + tk_and(r))) by {
                assert forall|k: int| 0 <= k < 1 + tk_and(r).len() implies t[j + 1 + nl + k].tok == #[trigger] (seq![TokenView::Amp] + tk_and(r))[k] by {
                    assert((seq![TokenView::Amp] + tk_and(r))[k] == tk_and(p)[nl + k]);
                }
            }
            let acc1 = lemma_and_step(t, off, acc, j, l);
            let acc2 = lemma_and_step(t, off, acc1, j + 1 + nl, r);
            assert(and_chain_text(acc2) =~= and_chain_text(acc) + " & "@ + and_chain_text(p));
            assert forall|v: Val, ty: ElemTy| #[trigger] eval_pred_spec(acc2, v, ty)
                == and_result(eval_pred_spec(acc, v, ty), eval_pred_spec(p, v, ty)) by {
                assert(eval_pred_spec(acc2, v, ty) == and_result(eval_pred_spec(acc1, v, ty), eval_pred_spec(r, v, ty)));
                assert(eval_pred_spec(acc1, v, ty) == and_result(eval_pred_spec(acc, v, ty), eval_pred_spec(l, v, ty)));
            }
            acc2
        },
        _ => {
            let q = lemma_and_opnd(t, off, j + 1, p);
            let acc2 = Predicate::And { left: Box::new(acc), right: Box::new(q), span: merge_spec(pred_span_of(acc), pred_span_of(q)) };
            assert forall|v: Val, ty: ElemTy| #[trigger] eval_pred_spec(acc2, v, ty)
                == and_result(eval_pred_spec(acc, v, ty), eval_pred_spec(p, v, ty)) by {
                assert(eval_pred_spec(q, v, ty) == eval_pred_spec(p, v, ty));
            }
            acc2
        },
    }
}


/// Tokens of the canonical text of an expression in a context of binding strength `parent`.
pub open spec fn tk_expr(e: Expr, parent: int) -> Seq<TokenView> {
    pieces_toks(expr_pieces(e, parent))
}

/// The keyword of a binary expression.
pub open spec fn bin_word(e: Expr) -> Seq<char> {
    match e {
        Expr::Add { .. } => "add"@,
        Expr::Sub { .. } => "sub"@,
        Expr::Mul { .. } => "mul"@,
        Expr::Div { .. } => "div"@,
        Expr::Mod { .. } => "mod"@,
        _ => Seq::empty(),
    }
}

/// Whether an expression has two operands.
pub open spec fn is_binary(e: Expr) -> bool {
    e is Add || e is Sub || e is Mul || e is Div || e is Mod
}

/// Left operand of a binary expression.
pub open spec fn left_of(e: Expr) -> Expr {
    match e {
        Expr::Add { left, .. } | Expr::Sub { left, .. } | Expr::Mul { left, .. } | Expr::Div { left, .. } | Expr::Mod { left, .. } => *left,
        _ => e,
    }
}

/// Right operand of a binary expression.
pub open spec fn right_of(e: Expr) -> Expr {
    match e {
        Expr::Add { right, .. } | Expr::Sub { right, .. } | Expr::Mul { right, .. } | Expr::Div { right, .. } | Expr::Mod { right, .. } => *right,
        _ => e,
    }
}

/// Whether a token is `mul`, `div` or `mod`.
pub open spec fn is_mul_word(tk: TokenView) -> bool {
    tk matches TokenView::Ident(x) && (x == "mul"@ || x == "div"@ || x == "mod"@)
}

/// How the tokens and text of an expression are built from those of its parts.
proof fn lemma_expr_toks(e: Expr, parent: int)
    ensures
        tk_expr(e, 0).len() > 0,
        tk_expr(e, parent) == (if expr_prec_spec(e) < parent { seq![TokenView::LParen] + tk_expr(e, 0) + seq![TokenView::RParen] } else { tk_expr(e, 0) }),
        expr_text(e, parent) == (if expr_prec_spec(e) < parent { "("@ + expr_text(e, 0) + ")"@ } else { expr_text(e, 0) }),
        is_binary(e) ==> tk_expr(e, 0) == tk_expr(left_of(e), expr_prec_spec(e)) + seq![TokenView::Ident(bin_word(e))] + tk_expr(right_of(e), expr_prec_spec(e) + 1),
        is_binary(e) ==> expr_text(e, 0) == expr_text(left_of(e), expr_prec_spec(e)) + (seq![' '] + bin_word(e) + seq![' ']) + expr_text(right_of(e), expr_prec_spec(e) + 1),
        e matches Expr::Neg { inner, .. } ==> tk_expr(e, 0) == seq![TokenView::Ident("neg"@)] + tk_expr(*inner, 3),
        e matches Expr::Neg { inner, .. } ==> expr_text(e, 0) == "neg "@ + expr_text(*inner, 3),
        e is Dot ==> tk_expr(e, 0) == seq![TokenView::Dot],
        e matches Expr::Lit { v, .. } ==> tk_expr(e, 0) == seq![TokenView::Int(v)],
{
    lemma_literals();
    let my = expr_prec_spec(e);
    lemma_expr_pieces(e, 0);
    match e {
        Expr::Add { left, right, .. } | Expr::Sub { left, right, .. } | Expr::Mul { left, right, .. }
        | Expr::Div { left, right, .. } | Expr::Mod { left, right, .. } => {
            lemma_expr_pieces(*left, my);
            lemma_expr_pieces(*right, my + 1);
            lemma_bin(expr_pieces(*left, my), bin_word(e), expr_pieces(*right, my + 1));
        },
        Expr::Neg { inner, .. } => {
            lemma_expr_pieces(*inner, my);
            lemma_kw("neg"@, expr_pieces(*inner, my));
        },
        Expr::Dot { .. } => {
            lemma_small_pieces("x"@, '.', 0);
        },
        Expr::Lit { v, .. } => {
            lemma_small_pieces("x"@, '.', v);
        },
    }
    if my < parent {
        lemma_parens(expr_pieces(e, 0));
        assert(expr_pieces(e, parent) == punct('(') + expr_pieces(e, 0) + punct(')'));
    } else {
        assert(expr_pieces(e, parent) == expr_pieces(e, 0));
    }
}


/// The keyword of a binary operator tag.
pub open spec fn tag_word(tag: BinTag) -> Seq<char> {
    match tag {
        BinTag::Add => "add"@,
        BinTag::Sub => "sub"@,
        BinTag::Mul => "mul"@,
        BinTag::Div => "div"@,
        BinTag::Mod => "mod"@,
    }
}

/// Ranks that order the expression lemmas for one expression: its binding strength
/// decides which lemma calls which on the same expression.
pub open spec fn rank_of(e: Expr, r1: int, r2: int, r3: int) -> int {
    if expr_prec_spec(e) == 1 { r1 } else if expr_prec_spec(e) == 2 { r2 } else { r3 }
}

proof fn lemma_bin_text(tag: BinTag, l: Expr, r: Expr)
    ensures
        expr_prec_spec(bin_expr(tag, l, r)) == (if tag is Add || tag is Sub { 1int } else { 2int }),
        expr_text(bin_expr(tag, l, r), 0) == expr_text(l, expr_prec_spec(bin_expr(tag, l, r))) + (seq![' '] + tag_word(tag) + seq![' '])
            + expr_text(r, expr_prec_spec(bin_expr(tag, l, r)) + 1),
{
    lemma_literals();
}

/// An expression with every span set to `0..0`.
pub open spec fn erase_expr(e: Expr) -> Expr
    decreases e,
{
    let z = crate::error::Span { start: 0, end: 0 };
    match e {
        Expr::Add { left, right, .. } => Expr::Add { left: Box::new(erase_expr(*left)), right: Box::new(erase_expr(*right)), span: z },
        Expr::Sub { left, right, .. } => Expr::Sub { left: Box::new(erase_expr(*left)), right: Box::new(erase_expr(*right)), span: z },
        Expr::Mul { left, right, .. } => Expr::Mul { left: Box::new(erase_expr(*left)), right: Box::new(erase_expr(*right)), span: z },
        Expr::Div { left, right, .. } => Expr::Div { left: Box::new(erase_expr(*left)), right: Box::new(erase_expr(*right)), span: z },
        Expr::Mod { left, right, .. } => Expr::Mod { left: Box::new(erase_expr(*left)), right: Box::new(erase_expr(*right)), span: z },
        Expr::Neg { inner, .. } => Expr::Neg { inner: Box::new(erase_expr(*inner)), span: z },
        Expr::Dot { .. } => Expr::Dot { span: z },
        Expr::Lit { v, .. } => Expr::Lit { v, span: z },
    }
}

/// A node of the same kind as the binary expression `op`, with operands `l` and `r` and the
/// span `0..0`.
pub open spec fn with_operands(op: Expr, l: Expr, r: Expr) -> Expr {
    let z = crate::error::Span { start: 0, end: 0 };
    match op {
        Expr::Add { .. } => Expr::Add { left: Box::new(l), right: Box::new(r), span: z },
        Expr::Sub { .. } => Expr::Sub { left: Box::new(l), right: Box::new(r), span: z },
        Expr::Mul { .. } => Expr::Mul { left: Box::new(l), right: Box::new(r), span: z },
        Expr::Div { .. } => Expr::Div { left: Box::new(l), right: Box::new(r), span: z },
        Expr::Mod { .. } => Expr::Mod { left: Box::new(l), right: Box::new(r), span: z },
        _ => op,
    }
}

/// A whole expression followed by `|`, `)` or the end parses back to one with the same
/// text and binding strength.
proof fn lemma_parse_expr(t: Seq<LexemeView>, off: int, i: int, e: Expr) -> (q: Expr)
    requires
        toks_at(t, i, tk_expr(e, 0)),
        i + tk_expr(e, 0).len() < t.len(),
        is_stop(t[i + tk_expr(e, 0).len()].tok),
    ensures
        expr_add_sp(t, off, i) == Ok::<(Expr, int), ErrorView>((q, i + tk_expr(e, 0).len())),
        expr_text(q, 0) == expr_text(e, 0),
        expr_prec_spec(q) == expr_prec_spec(e),
        erase_expr(q) == erase_expr(e),
    decreases e, rank_of(e, 2, 4, 5),
{
    lemma_expr_toks(e, 1);
    let acc = lemma_add_start(t, off, i, e);
    lemma_expr_toks(acc, 1);
    lemma_distinct_words();
    acc
}

/// The operands of an `add`/`sub` chain up to the end of `e`'s text.
proof fn lemma_add_start(t: Seq<LexemeView>, off: int, i: int, e: Expr) -> (acc: Expr)
    requires
        toks_at(t, i, tk_expr(e, 1)),
        i + tk_expr(e, 1).len() < t.len(),
        !is_mul_word(t[i + tk_expr(e, 1).len()].tok),
    ensures
        expr_add_sp(t, off, i) == add_rest_sp(t, off, acc, i + tk_expr(e, 1).len()),
        expr_text(acc, 1) == expr_text(e, 1),
        expr_prec_spec(acc) == expr_prec_spec(e),
        erase_expr(acc) == erase_expr(e),
    decreases e, rank_of(e, 1, 3, 4),
{
    lemma_expr_toks(e, 1);
    lemma_expr_toks(e, 2);
    lemma_distinct_words();
    if e is Add || e is Sub {
        let l = left_of(e);
        let r = right_of(e);
        let w = bin_word(e);
        let nl = tk_expr(l, 1).len();
        lemma_expr_toks(l, 1);
        lemma_toks_split(t, i, tk_expr(l, 1) + seq![TokenView::Ident(w)], tk_expr(r, 2));
        lemma_toks_split(t, i, tk_expr(l, 1), seq![TokenView::Ident(w)]);
        assert(toks_at(t, i + nl, seq![TokenView::Ident(w)] + tk_expr(r, 2))) by {
            assert forall|k: int| 0 <= k < 1 + tk_expr(r, 2).len() implies t[i + nl + k].tok == #[trigger] (seq![TokenView::Ident(w)] + tk_expr(r, 2))[k] by {
                assert((seq![TokenView::Ident(w)] + tk_expr(r, 2))[k] == tk_expr(e, 1)[nl + k]);
            }
        }
        lemma_tok_one(t, i + nl, TokenView::Ident(w));
        let acc_l = lemma_add_start(t, off, i, l);
        let acc = lemma_add_step(t, off, acc_l, i + nl, e, r);
        acc
    } else {
        let q = lemma_mul_full(t, off, i, e);
        lemma_expr_toks(q, 1);
        lemma_expr_toks(q, 2);
        q
    }
}

/// `add` or `sub` (the keyword of `op`) and its right operand `e`, which stands at the
/// `mul`/`div`/`mod` level (parenthesized if it binds more loosely).
proof fn lemma_add_step(t: Seq<LexemeView>, off: int, acc: Expr, j: int, op: Expr, e: Expr) -> (acc2: Expr)
    requires
        op is Add || op is Sub,
        toks_at(t, j, seq![TokenView::Ident(bin_word(op))] + tk_expr(e, 2)),
        j + 1 + tk_expr(e, 2).len() < t.len(),
        !is_mul_word(t[j + 1 + tk_expr(e, 2).len()].tok),
    ensures
        add_rest_sp(t, off, acc, j) == add_rest_sp(t, off, acc2, j + 1 + tk_expr(e, 2).len()),
        expr_text(acc2, 1) == expr_text(acc, 1) + (seq![' '] + bin_word(op) + seq![' ']) + expr_text(e, 2),
        expr_prec_spec(acc2) == 1,
        erase_expr(acc2) == with_operands(op, erase_expr(acc), erase_expr(e)),
    decreases e, rank_of(e, 6, 3, 4),
{
    lemma_expr_toks(e, 2);
    lemma_distinct_words();
    let w = bin_word(op);
    lemma_toks_split(t, j, seq![TokenView::Ident(w)], tk_expr(e, 2));
    lemma_tok_one(t, j, TokenView::Ident(w));
    let q = lemma_mul_full(t, off, j + 1, e);
    lemma_expr_toks(q, 1);
    lemma_expr_toks(q, 2);
    let tag = if ident_is(t, j, "add"@) { BinTag::Add } else { BinTag::Sub };
    let acc2 = bin_expr(tag, acc, q);
    lemma_bin_text(tag, acc, q);
    lemma_expr_toks(acc2, 1);
    lemma_expr_toks(acc, 1);
    assert(tag_word(tag) == w);
    acc2
}

/// A whole `mul`/`div`/`mod` level operand followed by a token that does not continue it.
proof fn lemma_mul_full(t: Seq<LexemeView>, off: int, i: int, e: Expr) -> (q: Expr)
    requires
        toks_at(t, i, tk_expr(e, 2)),
        i + tk_expr(e, 2).len() < t.len(),
        !is_mul_word(t[i + tk_expr(e, 2).len()].tok),
    ensures
        expr_mul_sp(t, off, i) == Ok::<(Expr, int), ErrorView>((q, i + tk_expr(e, 2).len())),
        expr_text(q, 2) == expr_text(e, 2),
        expr_prec_spec(q) == expr_prec_spec(e),
        erase_expr(q) == erase_expr(e),
    decreases e, rank_of(e, 5, 2, 3),
{
    let acc = lemma_mul_start(t, off, i, e);
    lemma_distinct_words();
    acc
}

/// The operands of a `mul`/`div`/`mod` chain up to the end of `e`'s text.
proof fn lemma_mul_start(t: Seq<LexemeView>, off: int, i: int, e: Expr) -> (acc: Expr)
    requires
        toks_at(t, i, tk_expr(e, 2)),
        i + tk_expr(e, 2).len() < t.len(),
    ensures
        expr_mul_sp(t, off, i) == mul_rest_sp(t, off, acc, i + tk_expr(e, 2).len()),
        expr_text(acc, 2) == expr_text(e, 2),
        expr_prec_spec(acc) == expr_prec_spec(e),
        erase_expr(acc) == erase_expr(e),
    decreases e, rank_of(e, 4, 1, 2),
{
    lemma_expr_toks(e, 2);
    lemma_distinct_words();
    if e is Mul || e is Div || e is Mod {
        let l = left_of(e);
        let r = right_of(e);
        let w = bin_word(e);
        let nl = tk_expr(l, 2).len();
        lemma_expr_toks(l, 2);
        lemma_toks_split(t, i, tk_expr(l, 2) + seq![TokenView::Ident(w)], tk_expr(r, 3));
        lemma_toks_split(t, i, tk_expr(l, 2), seq![TokenView::Ident(w)]);
        assert(toks_at(t, i + nl, seq![TokenView::Ident(w)] + tk_expr(r, 3))) by {
            assert forall|k: int| 0 <= k < 1 + tk_expr(r, 3).len() implies t[i + nl + k].tok == #[trigger] (seq![TokenView::Ident(w)] + tk_expr(r, 3))[k] by {
                assert((seq![TokenView::Ident(w)] + tk_expr(r, 3))[k] == tk_expr(e, 2)[nl + k]);
            }
        }
        let acc_l = lemma_mul_start(t, off, i, l);
        let acc = lemma_mul_step(t, off, acc_l, i + nl, e, r);
        acc
    } else {
        let q = lemma_unary(t, off, i, e, 2);
        q
    }
}

/// `mul`, `div` or `mod` (the keyword of `op`) and its right operand `e`, which stands at
/// the `neg` level (parenthesized if it binds more loosely).
proof fn lemma_mul_step(t: Seq<LexemeView>, off: int, acc: Expr, j: int, op: Expr, e: Expr) -> (acc2: Expr)
    requires
        op is Mul || op is Div || op is Mod,
        toks_at(t, j, seq![TokenView::Ident(bin_word(op))] + tk_expr(e, 3)),
        j + 1 + tk_expr(e, 3).len() < t.len(),
    ensures
        mul_rest_sp(t, off, acc, j) == mul_rest_sp(t, off, acc2, j + 1 + tk_expr(e, 3).len()),
        expr_text(acc2, 2) == expr_text(acc, 2) + (seq![' '] + bin_word(op) + seq![' ']) + expr_text(e, 3),
        expr_prec_spec(acc2) == 2,
        erase_expr(acc2) == with_operands(op, erase_expr(acc), erase_expr(e)),
    decreases e, rank_of(e, 4, 6, 2),
{
    lemma_expr_toks(e, 3);
    lemma_distinct_words();
    let w = bin_word(op);
    lemma_toks_split(t, j, seq![TokenView::Ident(w)], tk_expr(e, 3));
    lemma_tok_one(t, j, TokenView::Ident(w));
    let q = lemma_unary(t, off, j + 1, e, 3);
    let tag = mul_op_at(t, j)->0;
    let acc2 = bin_expr(tag, acc, q);
    lemma_bin_text(tag, acc, q);
    lemma_expr_toks(acc2, 2);
    assert(tag_word(tag) == w);
    acc2
}

/// An operand at `neg` level: a parenthesized expression, `neg ...`, `.` or a number.
proof fn lemma_unary(t: Seq<LexemeView>, off: int, i: int, e: Expr, level: int) -> (q: Expr)
    requires
        level == 2 || level == 3,
        expr_prec_spec(e) < level || expr_prec_spec(e) >= 3,
        toks_at(t, i, tk_expr(e, level)),
    ensures
        expr_unary_sp(t, off, i) == Ok::<(Expr, int), ErrorView>((q, i + tk_expr(e, level).len())),
        expr_text(q, level) == expr_text(e, level),
        expr_prec_spec(q) == expr_prec_spec(e),
        erase_expr(q) == erase_expr(e),
    decreases e, rank_of(e, 3, 5, 1),
{
    lemma_expr_toks(e, level);
    lemma_distinct_words();
    if expr_prec_spec(e) < level {
        let m = tk_expr(e, 0).len();
        lemma_toks_split(t, i, seq![TokenView::LParen] + tk_expr(e, 0), seq![TokenView::RParen]);
        lemma_toks_split(t, i, seq![TokenView::LParen], tk_expr(e, 0));
        lemma_tok_one(t, i, TokenView::LParen);
        lemma_tok_one(t, i + 1 + m, TokenView::RParen);
        let q = lemma_parse_expr(t, off, i + 1, e);
        lemma_expr_toks(q, level);
        assert(!ident_is(t, i, "neg"@));
        assert(expr_primary_sp(t, off, i) == Ok::<(Expr, int), ErrorView>((q, i + 2 + m)));
        q
    } else {
        match e {
            Expr::Neg { inner, .. } => {
                let x = *inner;
                lemma_expr_toks(x, 3);
                lemma_toks_split(t, i, seq![TokenView::Ident("neg"@)], tk_expr(x, 3));
                lemma_tok_one(t, i, TokenView::Ident("neg"@));
                let qi = lemma_unary(t, off, i + 1, x, 3);
                let sp = crate::parse::gsp(crate::parse::span_at(t, i), off);
                let q = Expr::Neg { inner: Box::new(qi), span: merge_spec(sp, expr_span_of(qi)) };
                lemma_expr_toks(q, level);
                assert(expr_unary_sp(t, off, i + 1) == Ok::<(Expr, int), ErrorView>((qi, i + 1 + tk_expr(x, 3).len())));
                q
            },
            Expr::Dot { .. } => {
                lemma_tok_one(t, i, TokenView::Dot);
                let q = Expr::Dot { span: crate::parse::gsp(crate::parse::span_at(t, i), off) };
                lemma_expr_toks(q, level);
                assert(expr_primary_sp(t, off, i) == Ok::<(Expr, int), ErrorView>((q, i + 1)));
                q
            },
            Expr::Lit { v, .. } => {
                lemma_tok_one(t, i, TokenView::Int(v));
                let q = Expr::Lit { v, span: crate::parse::gsp(crate::parse::span_at(t, i), off) };
                lemma_expr_toks(q, level);
                assert(expr_primary_sp(t, off, i) == Ok::<(Expr, int), ErrorView>((q, i + 1)));
                q
            },
            _ => e,
        }
    }
}


/// Canonical text of a source view (the same as that of any source with this view).
pub open spec fn source_view_text(s: SourceView) -> Seq<char> {
    match s {
        SourceView::Input { ty, .. } => "input:"@ + ty_name(ty),
        SourceView::Range { start, stop, step, .. } => if step == default_step_spec(start, stop) {
            "range ( "@ + int_decimal(start as int) + " , "@ + int_decimal(stop as int) + " )"@
        } else {
            "range ( "@ + int_decimal(start as int) + " , "@ + int_decimal(stop as int) + " , "@
                + int_decimal(step as int) + " )"@
        },
        SourceView::Lit { elems, .. } => if elems.len() == 0 {
            "lit ()"@
        } else {
            "lit ( "@ + lit_list_text(elems) + " )"@
        },
    }
}

/// A source whose text the parser accepts: an explicit `range` step is not zero and
/// reaches the stop value.
pub open spec fn printable_source(s: Source) -> bool {
    match s {
        Source::Range { start, stop, step, .. } => step != default_step_spec(start, stop) ==> step != 0
            && !provably_infinite_spec(start, stop, step),
        _ => true,
    }
}

/// Token of a `lit` element.
pub open spec fn lit_tok(e: LitElem) -> TokenView {
    match e {
        LitElem::I32(v) => TokenView::Int(v as i64),
        LitElem::I64(v) => TokenView::Int(v),
        LitElem::Bool(b) => TokenView::Ident(bool_word(b)),
    }
}

/// Tokens of a non-empty list of `lit` elements, read from the front.
pub open spec fn lit_list_toks(es: Seq<LitElem>) -> Seq<TokenView>
    decreases es.len(),
{
    if es.len() <= 1 {
        if es.len() == 0 { Seq::empty() } else { seq![lit_tok(es[0])] }
    } else {
        seq![lit_tok(es[0]), TokenView::Comma] + lit_list_toks(es.skip(1))
    }
}

proof fn lemma_lit_list_toks(es: Seq<LitElem>)
    ensures
        pieces_toks(lit_list_pieces(es)) == lit_list_toks(es),
    decreases es.len(),
{
    lemma_literals();
    lemma_small_pieces("x"@, ',', 0);
    if es.len() == 0 {
    } else if es.len() == 1 {
        lemma_lit_elem_pieces(es[0]);
        lemma_small_pieces(bool_word(true), ',', 0);
        lemma_small_pieces(bool_word(false), ',', 0);
        match es[0] {
            LitElem::I32(v) => lemma_small_pieces("x"@, ',', v as i64),
            LitElem::I64(v) => lemma_small_pieces("x"@, ',', v),
            LitElem::Bool(b) => {},
        }
    } else {
        let d = es.drop_last();
        lemma_lit_list_toks(d);
        lemma_lit_list_pieces(d);
        lemma_lit_elem_pieces(es.last());
        match es.last() {
            LitElem::I32(v) => lemma_small_pieces("x"@, ',', v as i64),
            LitElem::I64(v) => lemma_small_pieces("x"@, ',', v),
            LitElem::Bool(b) => lemma_small_pieces(bool_word(b), ',', 0),
        }
        lemma_cat2(punct(','), one(sp()));
        lemma_cat3(lit_list_pieces(d), punct(',') + one(sp()), lit_elem_pieces(es.last()));
        // the list read from the back is the list read from the front
        lemma_lit_list_toks_back(es);
    }
}

/// Reading the element tokens from the back: the tokens of all but the last element, a
/// comma, then the last element.
proof fn lemma_lit_list_toks_back(es: Seq<LitElem>)
    requires
        es.len() >= 2,
    ensures
        lit_list_toks(es) == lit_list_toks(es.drop_last()) + seq![TokenView::Comma, lit_tok(es.last())],
    decreases es.len(),
{
    if es.len() == 2 {
        assert(es.skip(1).len() == 1);
        assert(es.drop_last().len() == 1);
        assert(lit_list_toks(es.skip(1)) == seq![lit_tok(es.skip(1)[0])]);
        assert(es.skip(1)[0] == es.last());
        assert(lit_list_toks(es.drop_last()) == seq![lit_tok(es.drop_last()[0])]);
        assert(es.drop_last()[0] == es[0]);
        assert(lit_list_toks(es) == seq![lit_tok(es[0]), TokenView::Comma] + lit_list_toks(es.skip(1)));
        assert(lit_list_toks(es) =~= lit_list_toks(es.drop_last()) + seq![TokenView::Comma, lit_tok(es.last())]);
    } else {
        lemma_lit_list_toks_back(es.skip(1));
        assert(es.skip(1).drop_last() =~= es.drop_last().skip(1));
        assert(es.skip(1).last() == es.last());
        assert(es.drop_last()[0] == es[0]);
        let d = es.drop_last();
        assert(lit_list_toks(d) == seq![lit_tok(d[0]), TokenView::Comma] + lit_list_toks(d.skip(1)));
        assert(lit_list_toks(es) == seq![lit_tok(es[0]), TokenView::Comma] + lit_list_toks(es.skip(1)));
        assert(lit_list_toks(es) =~= lit_list_toks(es.drop_last()) + seq![TokenView::Comma, lit_tok(es.last())]);
    }
}


/// Tokens of the canonical text of a source.
pub open spec fn tk_source(src: Source) -> Seq<TokenView> {
    pieces_toks(source_pieces(src))
}

proof fn lemma_source_toks(src: Source)
    ensures
        match src {
            Source::Input { ty, .. } => tk_source(src) == seq![TokenView::Ident("input"@), TokenView::Colon, TokenView::Ident(ty_name(ty))],
            Source::Range { start, stop, step, .. } => tk_source(src) == if step == default_step_spec(start, stop) {
                seq![TokenView::Ident("range"@), TokenView::LParen, TokenView::Int(start), TokenView::Comma, TokenView::Int(stop), TokenView::RParen]
            } else {
                seq![TokenView::Ident("range"@), TokenView::LParen, TokenView::Int(start), TokenView::Comma, TokenView::Int(stop),
                    TokenView::Comma, TokenView::Int(step), TokenView::RParen]
            },
            Source::Lit { elems, .. } => tk_source(src) == if elems@.len() == 0 {
                seq![TokenView::Ident("lit"@), TokenView::LParen, TokenView::RParen]
            } else {
                seq![TokenView::Ident("lit"@), TokenView::LParen] + lit_list_toks(elems@) + seq![TokenView::RParen]
            },
        },
{
    lemma_literals();
    lemma_source_pieces(src);
    lemma_small_pieces("x"@, '(', 0);
    lemma_small_pieces("x"@, ')', 0);
    lemma_small_pieces("x"@, ',', 0);
    lemma_small_pieces("x"@, ':', 0);
    match src {
        Source::Input { ty, .. } => {
            lemma_small_pieces(ty_name(ty), ':', 0);
            lemma_small_pieces("input"@, ':', 0);
            lemma_then(word("input"@), punct(':'));
            lemma_then(word("input"@) + punct(':'), word(ty_name(ty)));
            assert(tk_source(src) =~= seq![TokenView::Ident("input"@), TokenView::Colon, TokenView::Ident(ty_name(ty))]);
        },
        Source::Range { start, stop, step, .. } => {
            lemma_small_pieces("range"@, '(', start);
            lemma_small_pieces("x"@, ',', stop);
            let a1 = word("range"@) + one(sp());
            lemma_then(word("range"@), one(sp()));
            lemma_then(a1, punct('('));
            let a2 = a1 + punct('(');
            lemma_then(a2, one(sp()));
            let a3 = a2 + one(sp());
            lemma_then(a3, num(start));
            let a4 = a3 + num(start);
            lemma_then(a4, psep(','));
            let a5 = a4 + psep(',');
            lemma_edges("x"@, ',');
            lemma_then(a5, num(stop));
            let head = a5 + num(stop);
            assert(pieces_toks(head) =~= seq![TokenView::Ident("range"@), TokenView::LParen, TokenView::Int(start), TokenView::Comma, TokenView::Int(stop)]);
            if step == default_step_spec(start, stop) {
                lemma_then(head, one(sp()));
                lemma_then(head + one(sp()), punct(')'));
                assert(tk_source(src) =~= seq![TokenView::Ident("range"@), TokenView::LParen, TokenView::Int(start), TokenView::Comma, TokenView::Int(stop), TokenView::RParen]);
            } else {
                lemma_small_pieces("x"@, ',', step);
                lemma_then(head, psep(','));
                lemma_then(head + psep(','), num(step));
                lemma_then(head + psep(',') + num(step), one(sp()));
                lemma_then(head + psep(',') + num(step) + one(sp()), punct(')'));
                assert(tk_source(src) =~= seq![TokenView::Ident("range"@), TokenView::LParen, TokenView::Int(start), TokenView::Comma, TokenView::Int(stop),
                    TokenView::Comma, TokenView::Int(step), TokenView::RParen]);
            }
        },
        Source::Lit { elems, .. } => {
            lemma_small_pieces("lit"@, '(', 0);
            let a1 = word("lit"@) + one(sp());
            lemma_then(word("lit"@), one(sp()));
            lemma_then(a1, punct('('));
            let a2 = a1 + punct('(');
            if elems@.len() == 0 {
                lemma_then(a2, punct(')'));
                assert(tk_source(src) =~= seq![TokenView::Ident("lit"@), TokenView::LParen, TokenView::RParen]);
            } else {
                lemma_lit_list_pieces(elems@);
                lemma_lit_list_toks(elems@);
                lemma_then(a2, one(sp()));
                let a3 = a2 + one(sp());
                lemma_then(a3, lit_list_pieces(elems@));
                let a4 = a3 + lit_list_pieces(elems@);
                lemma_then(a4, one(sp()));
                lemma_then(a4 + one(sp()), punct(')'));
                assert(tk_source(src) =~= seq![TokenView::Ident("lit"@), TokenView::LParen] + lit_list_toks(elems@) + seq![TokenView::RParen]);
            }
        },
    }
}

proof fn lemma_lit_list_text_eq(a: Seq<LitElem>, b: Seq<LitElem>)
    requires
        a.len() == b.len(),
        forall|k: int| 0 <= k < a.len() ==> lit_elem_text(#[trigger] a[k]) == lit_elem_text(b[k]),
    ensures
        lit_list_text(a) == lit_list_text(b),
    decreases a.len(),
{
    if a.len() > 1 {
        assert forall|k: int| 0 <= k < a.len() - 1 implies lit_elem_text(#[trigger] a.drop_last()[k]) == lit_elem_text(b.drop_last()[k]) by {
            assert(a.drop_last()[k] == a[k] && b.drop_last()[k] == b[k]);
        }
        lemma_lit_list_text_eq(a.drop_last(), b.drop_last());
        assert(lit_elem_text(a.last()) == lit_elem_text(b.last())) by {
            assert(a.last() == a[a.len() - 1]);
        }
    } else if a.len() == 1 {
        assert(lit_elem_text(a[0]) == lit_elem_text(b[0]));
    }
}

/// The elements of a `lit` list, followed by `)`, parse back to elements with the same text.
proof fn lemma_parse_lit_elems(t: Seq<LexemeView>, off: int, i: int, es: Seq<LitElem>) -> (es2: Seq<LitElem>)
    requires
        es.len() >= 1,
        toks_at(t, i, lit_list_toks(es)),
        i + lit_list_toks(es).len() < t.len(),
        t[i + lit_list_toks(es).len()].tok is RParen,
    ensures
        lit_elems_sp(t, off, i) == Ok::<(Seq<LitElem>, int), ErrorView>((es2, i + lit_list_toks(es).len())),
        es2.len() == es.len(),
        forall|k: int| 0 <= k < es.len() ==> lit_elem_text(#[trigger] es2[k]) == lit_elem_text(es[k]),
    decreases es.len(),
{
    lemma_distinct_words();
    lemma_literals();
    let e0 = es[0];
    if es.len() == 1 {
        assert(lit_list_toks(es) == seq![lit_tok(e0)]);
    } else {
        assert(lit_list_toks(es) == seq![lit_tok(e0), TokenView::Comma] + lit_list_toks(es.skip(1)));
        lemma_toks_split(t, i, seq![lit_tok(e0), TokenView::Comma], lit_list_toks(es.skip(1)));
    }
    assert(tok_at(t, i) == lit_tok(e0)) by {
        assert(lit_list_toks(es)[0] == lit_tok(e0));
    }
    let el = match lit_tok(e0) {
        TokenView::Int(v) => if crate::interp::fits_i32(v as int) { LitElem::I32(v as i32) } else { LitElem::I64(v) },
        _ => LitElem::Bool(e0->Bool_0),
    };
    assert(lit_atom_sp(t, off, i) == Ok::<LitElem, ErrorView>(el));
    assert(lit_elem_text(el) == lit_elem_text(e0));
    if es.len() == 1 {
        let es2 = seq![el];
        assert(lit_elems_sp(t, off, i) == Ok::<(Seq<LitElem>, int), ErrorView>((es2, i + 1)));
        es2
    } else {
        let rest = es.skip(1);
        assert(tok_at(t, i + 1) is Comma) by {
            assert(lit_list_toks(es)[1] == TokenView::Comma);
        }
        assert(lit_list_toks(rest).len() >= 1 && lit_list_toks(rest)[0] == lit_tok(rest[0])) by {
            if rest.len() > 1 {
                assert(lit_list_toks(rest) == seq![lit_tok(rest[0]), TokenView::Comma] + lit_list_toks(rest.skip(1)));
            }
        }
        assert(!(tok_at(t, i + 2) is RParen)) by {
            assert(t[i + 2 + 0].tok == lit_list_toks(rest)[0]);
        }
        let r2 = lemma_parse_lit_elems(t, off, i + 2, rest);
        let es2 = seq![el] + r2;
        assert forall|k: int| 0 <= k < es.len() implies lit_elem_text(#[trigger] es2[k]) == lit_elem_text(es[k]) by {
            if k > 0 {
                assert(es2[k] == r2[k - 1]);
                assert(rest[k - 1] == es[k]);
            }
        }
        es2
    }
}


/// The tokens of a source (with a token after them) parse back to a source view with the
/// same text.
proof fn lemma_parse_source(t: Seq<LexemeView>, off: int, src: Source) -> (sv: SourceView)
    requires
        printable_source(src),
        toks_at(t, 0, tk_source(src)),
        tk_source(src).len() < t.len(),
    ensures
        source_sp(t, off, 0) == Ok::<(SourceView, int), ErrorView>((sv, tk_source(src).len() as int)),
        source_view_text(sv) == source_text(src),
{
    lemma_source_toks(src);
    lemma_distinct_words();
    let n = tk_source(src).len() as int;
    let ks = tk_source(src);
    assert forall|k: int| 0 <= k < n implies tok_at(t, k) == ks[k] by {
        assert(t[0 + k].tok == ks[k]);
    }
    let span = crate::parse::gsp(crate::parse::span_at(t, 0), off);
    match src {
        Source::Input { ty, .. } => {
            assert(ks[0] == TokenView::Ident("input"@));
            assert(ks[1] == TokenView::Colon);
            assert(ks[2] == TokenView::Ident(ty_name(ty)));
            let sv = SourceView::Input { ty, explicit: true, span };
            assert(source_sp(t, off, 0) == Ok::<(SourceView, int), ErrorView>((sv, 3)));
            sv
        },
        Source::Range { start, stop, step, .. } => {
            assert(ks[0] == TokenView::Ident("range"@));
            assert(ks[1] == TokenView::LParen && ks[2] == TokenView::Int(start) && ks[3] == TokenView::Comma && ks[4] == TokenView::Int(stop));
            if step == default_step_spec(start, stop) {
                assert(ks[5] == TokenView::RParen);
                let sv = SourceView::Range { start, stop, step, span: merge_spec(span, crate::parse::gsp(crate::parse::span_at(t, 5), off)) };
                assert(range_sp(t, off, 1, span) == Ok::<(SourceView, int), ErrorView>((sv, 6)));
                sv
            } else {
                assert(ks[5] == TokenView::Comma && ks[6] == TokenView::Int(step) && ks[7] == TokenView::RParen);
                let sv = SourceView::Range { start, stop, step, span: merge_spec(span, crate::parse::gsp(crate::parse::span_at(t, 7), off)) };
                assert(range_sp(t, off, 1, span) == Ok::<(SourceView, int), ErrorView>((sv, 8)));
                sv
            }
        },
        Source::Lit { elems, .. } => {
            assert(ks[0] == TokenView::Ident("lit"@));
            assert(ks[1] == TokenView::LParen);
            if elems@.len() == 0 {
                assert(ks[2] == TokenView::RParen);
                let sv = SourceView::Lit { elems: Seq::empty(), span: merge_spec(span, crate::parse::gsp(crate::parse::span_at(t, 2), off)) };
                assert(lit_sp(t, off, 1, span) == Ok::<(SourceView, int), ErrorView>((sv, 3)));
                sv
            } else {
                let es = elems@;
                let m = lit_list_toks(es).len() as int;
                lemma_toks_split(t, 0, seq![TokenView::Ident("lit"@), TokenView::LParen] + lit_list_toks(es), seq![TokenView::RParen]);
                lemma_toks_split(t, 0, seq![TokenView::Ident("lit"@), TokenView::LParen], lit_list_toks(es));
                assert(ks[2 + m] == TokenView::RParen);
                assert(lit_list_toks(es)[0] == lit_tok(es[0])) by {
                    if es.len() > 1 {
                        assert(lit_list_toks(es) == seq![lit_tok(es[0]), TokenView::Comma] + lit_list_toks(es.skip(1)));
                    }
                }
                assert(ks[2] == lit_tok(es[0]));
                let es2 = lemma_parse_lit_elems(t, off, 2, es);
                lemma_lit_list_text_eq(es2, es);
                let sv = SourceView::Lit { elems: es2, span: merge_spec(span, crate::parse::gsp(crate::parse::span_at(t, 2 + m), off)) };
                assert(lit_sp(t, off, 1, span) == Ok::<(SourceView, int), ErrorView>((sv, 3 + m)));
                sv
            }
        },
    }
}


/// Tokens of the canonical text of a stage.
pub open spec fn tk_stage(st: Stage) -> Seq<TokenView> {
    pieces_toks(stage_pieces(st))
}

/// Tokens of the stages, each preceded by `|`.
pub open spec fn tk_stages(sts: Seq<Stage>) -> Seq<TokenView> {
    pieces_toks(stages_pieces(sts))
}

/// A stage whose text the parser accepts.
pub open spec fn printable_stage(st: Stage) -> bool {
    match st {
        Stage::Filter { pred, .. } => printable_pred(pred),
        _ => true,
    }
}

proof fn lemma_stage_toks(st: Stage)
    ensures
        tk_stage(st).len() > 0,
        match st {
            Stage::Filter { pred, .. } => tk_stage(st) == seq![TokenView::Ident("filter"@)] + tk_pred(pred),
            Stage::MapEach { expr, .. } => tk_stage(st) == seq![TokenView::Ident("map"@)] + tk_expr(expr, 0),
            Stage::Scan { init, op, .. } => tk_stage(st) == seq![TokenView::Ident("scan"@), TokenView::Int(init), TokenView::Comma, TokenView::Ident(scan_op_word(op))],
            Stage::Reduce { op, .. } => tk_stage(st) == seq![TokenView::Ident("reduce"@), TokenView::Ident(reduce_op_word(op))],
            Stage::Take { n, .. } => tk_stage(st) == seq![TokenView::Ident("take"@), TokenView::Int(n as i64)],
            Stage::Drop { n, .. } => tk_stage(st) == seq![TokenView::Ident("drop"@), TokenView::Int(n as i64)],
            Stage::Id { .. } => tk_stage(st) == seq![TokenView::Ident("id"@)],
        },
{
    lemma_literals();
    lemma_stage_pieces(st);
    match st {
        Stage::Filter { pred, .. } => {
            lemma_pred_pieces(pred);
            lemma_kw("filter"@, pred_pieces(pred));
        },
        Stage::MapEach { expr, .. } => {
            lemma_expr_pieces(expr, 0);
            lemma_kw("map"@, expr_pieces(expr, 0));
        },
        Stage::Scan { init, op, .. } => {
            lemma_small_pieces(scan_op_word(op), ',', init);
            lemma_edges("scan"@, ',');
            lemma_kw("scan"@, num(init));
            lemma_then(kw("scan"@) + num(init), punct(','));
            lemma_then(kw("scan"@) + num(init) + punct(','), one(sp()));
            lemma_then(kw("scan"@) + num(init) + punct(',') + one(sp()), word(scan_op_word(op)));
            assert(tk_stage(st) =~= seq![TokenView::Ident("scan"@), TokenView::Int(init), TokenView::Comma, TokenView::Ident(scan_op_word(op))]);
        },
        Stage::Reduce { op, .. } => {
            lemma_small_pieces(reduce_op_word(op), ',', 0);
            lemma_kw("reduce"@, word(reduce_op_word(op)));
            assert(tk_stage(st) =~= seq![TokenView::Ident("reduce"@), TokenView::Ident(reduce_op_word(op))]);
        },
        Stage::Take { n, .. } => {
            lemma_small_pieces("x"@, ',', n as i64);
            lemma_kw("take"@, num(n as i64));
            assert(tk_stage(st) =~= seq![TokenView::Ident("take"@), TokenView::Int(n as i64)]);
        },
        Stage::Drop { n, .. } => {
            lemma_small_pieces("x"@, ',', n as i64);
            lemma_kw("drop"@, num(n as i64));
            assert(tk_stage(st) =~= seq![TokenView::Ident("drop"@), TokenView::Int(n as i64)]);
        },
        Stage::Id { .. } => {
            lemma_small_pieces("id"@, ',', 0);
        },
    }
}

/// The tokens of the stages, read from the front: `|` and the first stage, then the rest.
proof fn lemma_stages_toks(sts: Seq<Stage>)
    ensures
        sts.len() == 0 ==> tk_stages(sts).len() == 0,
        sts.len() > 0 ==> tk_stages(sts) == seq![TokenView::Pipe] + tk_stage(sts[0]) + tk_stages(sts.skip(1)),
    decreases sts.len(),
{
    lemma_stages_pieces(sts);
    if sts.len() > 0 {
        let d = sts.drop_last();
        lemma_stages_pieces(d);
        lemma_stage_pieces(sts.last());
        lemma_small_pieces("x"@, '|', 0);
        lemma_edges("x"@, '|');
        lemma_then(stages_pieces(d), psep('|'));
        lemma_then(stages_pieces(d) + psep('|'), stage_pieces(sts.last()));
        assert(tk_stages(sts) == tk_stages(d) + seq![TokenView::Pipe] + tk_stage(sts.last()));
        if sts.len() == 1 {
            assert(d.len() == 0);
            assert(tk_stages(d) == Seq::<TokenView>::empty());
            assert(sts.skip(1).len() == 0);
            lemma_stages_toks(sts.skip(1));
            assert(sts.last() == sts[0]);
            assert(tk_stages(sts) =~= seq![TokenView::Pipe] + tk_stage(sts[0]) + tk_stages(sts.skip(1)));
        } else {
            lemma_stages_toks(d);
            lemma_stages_toks(sts.skip(1));
            let r = sts.skip(1);
            lemma_stages_pieces(r.drop_last());
            lemma_stages_pieces(r);
            lemma_then(stages_pieces(r.drop_last()), psep('|'));
            lemma_then(stages_pieces(r.drop_last()) + psep('|'), stage_pieces(r.last()));
            assert(tk_stages(r) == tk_stages(r.drop_last()) + seq![TokenView::Pipe] + tk_stage(r.last()));
            assert(r.drop_last() =~= d.skip(1));
            assert(r.last() == sts.last());
            assert(d[0] == sts[0]);
            assert(tk_stages(sts) =~= seq![TokenView::Pipe] + tk_stage(sts[0]) + tk_stages(sts.skip(1)));
        }
    }
}

/// Two stages that do the same: the same kind and numbers, `map` expressions equal up to
/// spans, and `filter` predicates with the same canonical text that evaluate alike on every
/// value (only how their `&` and `or` chains are grouped may differ).
pub open spec fn same_stage(a: Stage, b: Stage) -> bool {
    match (a, b) {
        (Stage::Filter { pred: p1, .. }, Stage::Filter { pred: p2, .. }) => pred_text(p1) == pred_text(p2)
            && same_meaning(p1, p2),
        (Stage::MapEach { expr: e1, .. }, Stage::MapEach { expr: e2, .. }) => erase_expr(e1) == erase_expr(e2),
        (Stage::Scan { init: i1, op: o1, .. }, Stage::Scan { init: i2, op: o2, .. }) => i1 == i2 && o1 == o2,
        (Stage::Reduce { op: o1, .. }, Stage::Reduce { op: o2, .. }) => o1 == o2,
        (Stage::Take { n: n1, .. }, Stage::Take { n: n2, .. }) => n1 == n2,
        (Stage::Drop { n: n1, .. }, Stage::Drop { n: n2, .. }) => n1 == n2,
        (Stage::Id { .. }, Stage::Id { .. }) => true,
        _ => false,
    }
}

/// A stage followed by `|` or the end parses back to a stage with the same text.
proof fn lemma_parse_stage(t: Seq<LexemeView>, off: int, i: int, st: Stage) -> (st2: Stage)
    requires
        printable_stage(st),
        toks_at(t, i, tk_stage(st)),
        i + tk_stage(st).len() < t.len(),
        is_stop(t[i + tk_stage(st).len()].tok),
    ensures
        stage_sp(t, off, i) == Ok::<(Stage, int), ErrorView>((st2, i + tk_stage(st).len())),
        stage_text(st2) == stage_text(st),
        same_stage(st2, st),
{
    lemma_stage_toks(st);
    lemma_distinct_words();
    let ks = tk_stage(st);
    let n = ks.len() as int;
    assert forall|k: int| 0 <= k < n implies tok_at(t, i + k) == ks[k] by {
        assert(t[i + k].tok == ks[k]);
    }
    let span = crate::parse::gsp(crate::parse::span_at(t, i), off);
    match st {
        Stage::Filter { pred, .. } => {
            lemma_toks_split(t, i, seq![TokenView::Ident("filter"@)], tk_pred(pred));
            let q = lemma_parse_pred(t, off, i + 1, pred);
            let st2 = Stage::Filter { pred: q, span };
            assert(stage_sp(t, off, i) == Ok::<(Stage, int), ErrorView>((st2, i + n)));
            st2
        },
        Stage::MapEach { expr, .. } => {
            lemma_toks_split(t, i, seq![TokenView::Ident("map"@)], tk_expr(expr, 0));
            let q = lemma_parse_expr(t, off, i + 1, expr);
            let st2 = Stage::MapEach { expr: q, span };
            assert(stage_sp(t, off, i) == Ok::<(Stage, int), ErrorView>((st2, i + n)));
            st2
        },
        Stage::Scan { init, op, .. } => {
            assert(ks[0] == TokenView::Ident("scan"@) && ks[1] == TokenView::Int(init) && ks[2] == TokenView::Comma && ks[3] == TokenView::Ident(scan_op_word(op)));
            let st2 = Stage::Scan { init, op, span };
            assert(stage_sp(t, off, i) == Ok::<(Stage, int), ErrorView>((st2, i + 4)));
            st2
        },
        Stage::Reduce { op, .. } => {
            assert(ks[0] == TokenView::Ident("reduce"@) && ks[1] == TokenView::Ident(reduce_op_word(op)));
            let st2 = Stage::Reduce { op, span };
            assert(stage_sp(t, off, i) == Ok::<(Stage, int), ErrorView>((st2, i + 2)));
            st2
        },
        Stage::Take { n: c, .. } => {
            assert(ks[0] == TokenView::Ident("take"@) && ks[1] == TokenView::Int(c as i64));
            let st2 = Stage::Take { n: c, span };
            assert(stage_sp(t, off, i) == Ok::<(Stage, int), ErrorView>((st2, i + 2)));
            st2
        },
        Stage::Drop { n: c, .. } => {
            assert(ks[0] == TokenView::Ident("drop"@) && ks[1] == TokenView::Int(c as i64));
            let st2 = Stage::Drop { n: c, span };
            assert(stage_sp(t, off, i) == Ok::<(Stage, int), ErrorView>((st2, i + 2)));
            st2
        },
        Stage::Id { .. } => {
            assert(ks[0] == TokenView::Ident("id"@));
            let st2 = Stage::Id { span };
            assert(stage_sp(t, off, i) == Ok::<(Stage, int), ErrorView>((st2, i + 1)));
            st2
        },
    }
}


proof fn lemma_stages_text_eq(a: Seq<Stage>, b: Seq<Stage>)
    requires
        a.len() == b.len(),
        forall|k: int| 0 <= k < a.len() ==> stage_text(#[trigger] a[k]) == stage_text(b[k]),
    ensures
        stages_text(a) == stages_text(b),
    decreases a.len(),
{
    if a.len() > 0 {
        assert forall|k: int| 0 <= k < a.len() - 1 implies stage_text(#[trigger] a.drop_last()[k]) == stage_text(b.drop_last()[k]) by {
            assert(a.drop_last()[k] == a[k] && b.drop_last()[k] == b[k]);
        }
        lemma_stages_text_eq(a.drop_last(), b.drop_last());
        assert(stage_text(a.last()) == stage_text(b.last())) by {
            assert(a.last() == a[a.len() - 1]);
        }
    }
}

/// Stages separated by `|` and followed by the end parse back to stages with the same texts.
proof fn lemma_parse_stages(t: Seq<LexemeView>, off: int, i: int, sts: Seq<Stage>) -> (sts2: Seq<Stage>)
    requires
        sts.len() >= 1,
        forall|k: int| 0 <= k < sts.len() ==> printable_stage(#[trigger] sts[k]),
        toks_at(t, i, tk_stage(sts[0]) + tk_stages(sts.skip(1))),
        i + (tk_stage(sts[0]) + tk_stages(sts.skip(1))).len() < t.len(),
        t[i + (tk_stage(sts[0]) + tk_stages(sts.skip(1))).len()].tok is Eof,
    ensures
        stages_sp(t, off, i) == Ok::<(Seq<Stage>, int), ErrorView>((sts2, i + (tk_stage(sts[0]) + tk_stages(sts.skip(1))).len())),
        sts2.len() == sts.len(),
        forall|k: int| 0 <= k < sts.len() ==> stage_text(#[trigger] sts2[k]) == stage_text(sts[k]),
        forall|k: int| 0 <= k < sts.len() ==> same_stage(#[trigger] sts2[k], sts[k]),
    decreases sts.len(),
{
    reveal(stages_sp);
    let s0 = sts[0];
    let rest = sts.skip(1);
    let n0 = tk_stage(s0).len();
    lemma_stage_toks(s0);
    lemma_stages_toks(rest);
    lemma_toks_split(t, i, tk_stage(s0), tk_stages(rest));
    if rest.len() == 0 {
        assert(tk_stage(s0) + tk_stages(rest) =~= tk_stage(s0));
        let st2 = lemma_parse_stage(t, off, i, s0);
        assert(stages_sp(t, off, i) == Ok::<(Seq<Stage>, int), ErrorView>((seq![st2], i + n0)));
        seq![st2]
    } else {
        let tail = tk_stage(rest[0]) + tk_stages(rest.skip(1));
        assert(tk_stages(rest) == seq![TokenView::Pipe] + tail);
        lemma_toks_split(t, i + n0, seq![TokenView::Pipe], tail);
        lemma_tok_one(t, i + n0, TokenView::Pipe);
        assert(t[i + n0].tok is Pipe);
        let st2 = lemma_parse_stage(t, off, i, s0);
        assert forall|k: int| 0 <= k < rest.len() implies printable_stage(#[trigger] rest[k]) by {
            assert(rest[k] == sts[k + 1]);
        }
        let r2 = lemma_parse_stages(t, off, i + n0 + 1, rest);
        let sts2 = seq![st2] + r2;
        assert forall|k: int| 0 <= k < sts.len() implies stage_text(#[trigger] sts2[k]) == stage_text(sts[k]) && same_stage(sts2[k], sts[k]) by {
            if k > 0 {
                assert(sts2[k] == r2[k - 1]);
                assert(rest[k - 1] == sts[k]);
            }
        }
        assert(stages_sp(t, off, i) == Ok::<(Seq<Stage>, int), ErrorView>((sts2, i + n0 + 1 + tail.len())));
        sts2
    }
}

/// Canonical text of a program view.
pub open spec fn program_view_text(v: ProgramView) -> Seq<char> {
    "lir/1\n"@ + source_view_text(v.source) + stages_text(v.stages) + "\n"@
}

/// A program whose canonical text the parser accepts: at least one stage, an explicit
/// `range` step that is not zero and reaches the stop value, and `true` / `false` compared
/// only with `eq`.
pub open spec fn printable_program(p: Program) -> bool {
    &&& printable_source(p.source)
    &&& p.stages@.len() > 0
    &&& forall|k: int| 0 <= k < p.stages@.len() ==> printable_stage(#[trigger] p.stages@[k])
}

proof fn lemma_view_text(q: Program)
    ensures
        format_program_spec(q) == program_view_text(q@),
{
}

proof fn lemma_newline_at(cs: Seq<char>, i: int, j: int)
    requires
        0 <= i <= j < cs.len(),
        forall|k: int| i <= k < j ==> cs[k] != '\n',
        cs[j] == '\n',
    ensures
        newline_from(cs, i) == j,
    decreases j - i,
{
    if i < j {
        lemma_newline_at(cs, i + 1, j);
    }
}

/// Reading back the canonical text of a program: the parser accepts the text that
/// `format_program` prints for a program that meets `printable_program`, and what it
/// returns prints as the same text again.
pub proof fn law_canonical_text_reads_back(p: Program)
    requires
        printable_program(p),
    ensures
        parse_program_spec(format_program_spec(p)) matches Ok(v) && program_view_text(v) == format_program_spec(p),
        parse_program_spec(format_program_spec(p)) matches Ok(v) && v.stages.len() == p.stages@.len()
            && source_view_text(v.source) == source_text(p.source)
            && forall|k: int| 0 <= k < v.stages.len() ==> same_stage(#[trigger] v.stages[k], p.stages@[k]),
        forall|q: Program| parse_program_spec(format_program_spec(p)) == Ok::<ProgramView, ErrorView>(q@)
            ==> #[trigger] format_program_spec(q) == format_program_spec(p),
{
    let src = p.source;
    let sts = p.stages@;
    let st_text = source_text(src);
    let body = st_text + stages_text(sts) + "\n"@;
    let text = format_program_spec(p);
    reveal_strlit("lir/1\n");
    reveal_strlit("lir/1");
    reveal_strlit("\n");
    assert(text =~= "lir/1\n"@ + body);
    // the header line and the body
    lemma_source_pieces(src);
    lemma_source_toks(src);
    assert(st_text.len() > 0 && st_text[0] != '\r' && st_text[0] != '\u{feff}') by {
        reveal_strlit("input:");
        reveal_strlit("range ( ");
        reveal_strlit("lit ()");
        reveal_strlit("lit ( ");
    }
    assert(without_bom(text) == text);
    assert forall|k: int| 0 <= k < 5 implies text[k] != '\n' by {
        assert(text[k] == "lir/1\n"@[k]);
    }
    lemma_newline_at(text, 0, 5);
    assert(text.take(5) =~= "lir/1"@);
    assert(header_line(text) == "lir/1"@);
    assert(text.skip(6) =~= body);
    assert(body[0] == st_text[0]);
    assert(body_text(text) == body);
    // lexing the body
    lemma_stages_pieces(sts);
    lemma_stages_toks(sts);
    lemma_small_pieces("x"@, '(', 0);
    let ps = source_pieces(src) + stages_pieces(sts) + one(Piece::Space('\n'));
    lemma_cat3(source_pieces(src), stages_pieces(sts), one(Piece::Space('\n')));
    assert(pieces_text(ps) == body);
    assert(body.subrange(0, body.len() as int) =~= body);
    lemma_lex_pieces(body, 0, ps);
    let toks = tk_source(src) + tk_stages(sts);
    assert(pieces_toks(ps) =~= toks);
    let eof = crate::lex::LexemeView { tok: TokenView::Eof, span: crate::error::Span { start: body.len() as usize, end: body.len() as usize } };
    assert(lex_from(body, body.len() as int) == Ok::<Seq<LexemeView>, ErrorView>(seq![eof]));
    assert(lex_kinds(body, body.len() as int) == Some(seq![TokenView::Eof])) by {
        assert(seq![eof].map_values(|l: LexemeView| l.tok) =~= seq![TokenView::Eof]);
    }
    let tv = lex_from(body, 0)->Ok_0;
    assert(lex_from(body, 0) is Ok);
    let kinds = tv.map_values(|l: LexemeView| l.tok);
    assert(kinds == toks + seq![TokenView::Eof]);
    assert(kinds.len() == tv.len());
    assert((toks + seq![TokenView::Eof]).len() == toks.len() + 1);
    let n = toks.len();
    assert(tv.len() == n + 1);
    assert(toks_at(tv, 0, toks)) by {
        assert forall|k: int| 0 <= k < toks.len() implies tv[0 + k].tok == #[trigger] toks[k] by {
            assert(kinds[k] == tv[k].tok);
            assert(kinds[k] == toks[k]);
        }
    }
    assert(tv[n as int].tok is Eof) by {
        assert(kinds[n as int] == tv[n as int].tok);
    }
    // parsing the tokens
    let off = body_offset(text);
    lemma_toks_split(tv, 0, tk_source(src), tk_stages(sts));
    let ns: int = tk_source(src).len() as int;
    let sv = lemma_parse_source(tv, off, src);
    let tail = tk_stage(sts[0]) + tk_stages(sts.skip(1));
    assert(tk_stages(sts) == seq![TokenView::Pipe] + tail);
    lemma_toks_split(tv, ns, seq![TokenView::Pipe], tail);
    lemma_tok_one(tv, ns, TokenView::Pipe);
    let sts2 = lemma_parse_stages(tv, off, ns + 1, sts);
    lemma_stages_text_eq(sts2, sts);
    assert(pipeline_sp(tv, off) == Ok::<(SourceView, Seq<Stage>), ErrorView>((sv, sts2)));
    let v = ProgramView {
        span: crate::error::Span { start: 0, end: (off + crate::text::utf8_len(body)) as usize },
        source: sv,
        stages: sts2,
    };
    assert(parse_program_spec(text) == Ok::<ProgramView, ErrorView>(v));
    assert(program_view_text(v) =~= text);
    assert forall|q: Program| parse_program_spec(format_program_spec(p)) == Ok::<ProgramView, ErrorView>(q@)
        implies #[trigger] format_program_spec(q) == format_program_spec(p) by {
        lemma_view_text(q);
    }
}


/// Every predicate the parser returns compares `true` / `false` only with `eq`.
proof fn lemma_parsed_or(t: Seq<LexemeView>, off: int, i: int)
    ensures
        pred_or_sp(t, off, i) matches Ok((q, _)) ==> printable_pred(q),
    decreases t.len() - i, 3int,
{
    lemma_parsed_and(t, off, i);
    if let Ok((left, j)) = pred_and_sp(t, off, i) {
        if i < j <= t.len() {
            lemma_parsed_or_rest(t, off, left, j);
        }
    }
}

proof fn lemma_parsed_or_rest(t: Seq<LexemeView>, off: int, left: Predicate, j: int)
    requires
        printable_pred(left),
    ensures
        or_rest_sp(t, off, left, j) matches Ok((q, _)) ==> printable_pred(q),
    decreases t.len() - j, 0int,
{
    if ident_is(t, j, "or"@) && 0 <= j < t.len() {
        lemma_parsed_and(t, off, j + 1);
        if let Ok((right, k)) = pred_and_sp(t, off, j + 1) {
            if j < k <= t.len() {
                let next = Predicate::Or { left: Box::new(left), right: Box::new(right), span: merge_spec(pred_span_of(left), pred_span_of(right)) };
                lemma_parsed_or_rest(t, off, next, k);
            }
        }
    }
}

proof fn lemma_parsed_and(t: Seq<LexemeView>, off: int, i: int)
    ensures
        pred_and_sp(t, off, i) matches Ok((q, _)) ==> printable_pred(q),
    decreases t.len() - i, 2int,
{
    lemma_parsed_not(t, off, i);
    if let Ok((left, j)) = pred_not_sp(t, off, i) {
        if i < j <= t.len() {
            lemma_parsed_and_rest(t, off, left, j);
        }
    }
}

proof fn lemma_parsed_and_rest(t: Seq<LexemeView>, off: int, left: Predicate, j: int)
    requires
        printable_pred(left),
    ensures
        and_rest_sp(t, off, left, j) matches Ok((q, _)) ==> printable_pred(q),
    decreases t.len() - j, 0int,
{
    if tok_at(t, j) is Amp && 0 <= j < t.len() {
        lemma_parsed_not(t, off, j + 1);
        if let Ok((right, k)) = pred_not_sp(t, off, j + 1) {
            if j < k <= t.len() {
                let next = Predicate::And { left: Box::new(left), right: Box::new(right), span: merge_spec(pred_span_of(left), pred_span_of(right)) };
                lemma_parsed_and_rest(t, off, next, k);
            }
        }
    }
}

proof fn lemma_parsed_not(t: Seq<LexemeView>, off: int, i: int)
    ensures
        pred_not_sp(t, off, i) matches Ok((q, _)) ==> printable_pred(q),
    decreases t.len() - i, 1int,
{
    if ident_is(t, i, "not"@) && 0 <= i < t.len() {
        lemma_parsed_not(t, off, i + 1);
    } else {
        lemma_parsed_primary(t, off, i);
    }
}

proof fn lemma_parsed_primary(t: Seq<LexemeView>, off: int, i: int)
    ensures
        pred_primary_sp(t, off, i) matches Ok((q, _)) ==> printable_pred(q),
    decreases t.len() - i, 0int,
{
    if tok_at(t, i) is LParen && 0 <= i < t.len() {
        lemma_parsed_or(t, off, i + 1);
    }
}

/// Every stage list the parser returns has a stage, and its filters meet `printable_pred`.
proof fn lemma_parsed_stages(t: Seq<LexemeView>, off: int, i: int)
    ensures
        stages_sp(t, off, i) matches Ok((sts, _)) ==> sts.len() >= 1
            && forall|k: int| 0 <= k < sts.len() ==> printable_stage(#[trigger] sts[k]),
    decreases t.len() - i,
{
    reveal(stages_sp);
    if let Ok((st, j)) = stage_sp(t, off, i) {
        if let Ok((name, span, j0)) = expect_ident_sp(t, off, i) {
            lemma_parsed_or(t, off, j0);
        }
        assert(printable_stage(st));
        if tok_at(t, j) is Pipe && i < j + 1 <= t.len() {
            lemma_parsed_stages(t, off, j + 1);
            if let Ok((rest, k)) = stages_sp(t, off, j + 1) {
                let all = seq![st] + rest;
                assert forall|k2: int| 0 <= k2 < all.len() implies printable_stage(#[trigger] all[k2]) by {
                    if k2 > 0 {
                        assert(all[k2] == rest[k2 - 1]);
                    }
                }
            }
        }
    }
}

/// Every program the parser returns meets `printable_program`.
pub proof fn law_parsed_programs_are_printable(src: Seq<char>, q: Program)
    requires
        parse_program_spec(src) == Ok::<ProgramView, ErrorView>(q@),
    ensures
        printable_program(q),
{
    let t = without_bom(src);
    let toks = lex_from(body_text(t), 0)->Ok_0;
    let off = body_offset(t);
    let (sv, i) = source_sp(toks, off, 0)->Ok_0;
    lemma_parsed_stages(toks, off, i + 1);
    assert(q.stages@.len() > 0);
}

/// The canonical text of a program that the parser returned reads back to a program with
/// the same source text and, stage by stage, the same stages: the same kinds and numbers,
/// the same `map` expressions up to spans, and `filter` predicates with the same text that
/// evaluate alike on every value (`or` and `&` chains may come back grouped otherwise).
pub proof fn law_format_keeps_stages(src: Seq<char>, q: Program)
    requires
        parse_program_spec(src) == Ok::<ProgramView, ErrorView>(q@),
    ensures
        parse_program_spec(format_program_spec(q)) matches Ok(v) && source_view_text(v.source) == source_text(q.source)
            && v.stages.len() == q.stages@.len()
            && forall|k: int| 0 <= k < v.stages.len() ==> same_stage(#[trigger] v.stages[k], q.stages@[k]),
{
    law_parsed_programs_are_printable(src, q);
    law_canonical_text_reads_back(q);
}

/// Formatting is stable: the canonical text of a program that the parser returned reads
/// back, and what it reads back to prints the same text again.
pub proof fn law_format_is_stable(src: Seq<char>, q: Program)
    requires
        parse_program_spec(src) == Ok::<ProgramView, ErrorView>(q@),
    ensures
        parse_program_spec(format_program_spec(q)) matches Ok(v) && program_view_text(v) == format_program_spec(q),
        forall|q2: Program| parse_program_spec(format_program_spec(q)) == Ok::<ProgramView, ErrorView>(q2@)
            ==> #[trigger] format_program_spec(q2) == format_program_spec(q),
{
    law_parsed_programs_are_printable(src, q);
    law_canonical_text_reads_back(q);
}

} // verus!
