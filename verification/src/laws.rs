//! Properties that relate the stages of the engine to one another.

use vstd::prelude::*;

use crate::ast::expr_wf;
use crate::ast::spec_ast_text;
use crate::ast::AstErrorV;
use crate::ast::ExprV;
use crate::lexer::lex_cont;
use crate::lexer::lex_from;
use crate::lexer::lex_num;
use crate::lexer::spec_tokenize;
use crate::parser::spec_expr;
use crate::parser::spec_expr_more;
use crate::parser::spec_exponent;
use crate::parser::spec_exponent_more;
use crate::parser::spec_factor;
use crate::parser::spec_factor_more;
use crate::parser::spec_parse;
use crate::parser::spec_term;
use crate::token::digit_tally;
use crate::token::is_lparen_char;
use crate::token::is_num_char;
use crate::token::is_op_char;
use crate::token::is_rparen_char;
use crate::token::is_space_char;
use crate::token::numeral_wf;
use crate::token::spec_numeral_text;
use crate::token::token_wf;
use crate::token::valid_literal;
use crate::token::NumeralV;
use crate::token::TokenErrorV;
use crate::token::TokenV;

verus! {

/// Rewrites square brackets as round ones and leaves every other
/// character alone.
pub open spec fn canon_char(c: char) -> char {
    if c == '[' {
        '('
    } else if c == ']' {
        ')'
    } else {
        c
    }
}

/// The text with every square bracket rewritten as a round one.
pub open spec fn canon_text(s: Seq<char>) -> Seq<char> {
    Seq::new(s.len(), |k: int| canon_char(s[k]))
}

proof fn lemma_lex_num_canon(s: Seq<char>, bs: int, j: int, neg: bool)
    requires
        0 <= bs <= j <= s.len(),
        forall|k: int| bs <= k < j ==> is_num_char(s[k]),
    ensures
        lex_num(s, bs, j, neg) == lex_num(canon_text(s), bs, j, neg),
    decreases s.len() - j, 1int,
{
    let t = canon_text(s);
    if 0 <= j < s.len() && is_num_char(s[j]) {
        assert(t[j] == s[j]);
        lemma_lex_num_canon(s, bs, j + 1, neg);
    } else {
        if 0 <= j < s.len() {
            assert(t[j] == canon_char(s[j]));
            assert(!is_num_char(t[j]));
        }
        assert(t.subrange(bs, j) =~= s.subrange(bs, j));
        lemma_lex_from_canon(s, j);
    }
}

proof fn lemma_lex_from_canon(s: Seq<char>, i: int)
    ensures
        lex_from(s, i) == lex_from(canon_text(s), i),
    decreases s.len() - i, 0int,
{
    let t = canon_text(s);
    if !(0 <= i < s.len()) {
    } else {
        let c = s[i];
        let d = t[i];
        assert(d == canon_char(c));
        if is_space_char(c) {
            lemma_lex_from_canon(s, i + 1);
        } else if is_num_char(c) {
            lemma_lex_num_canon(s, i, i + 1, false);
        } else if c == '-' && i + 1 < s.len() && is_num_char(s[i + 1]) {
            assert(t[i + 1] == canon_char(s[i + 1]));
            lemma_lex_num_canon(s, i + 1, i + 1, true);
        } else if is_lparen_char(c) || is_rparen_char(c) || is_op_char(c) {
            if c == '-' {
                assert(!(d == '-' && i + 1 < t.len() && is_num_char(t[i + 1])));
            }
            lemma_lex_from_canon(s, i + 1);
        } else {
            assert(d == c);
        }
    }
}

/// Bracket and parenthesis equivalence: a text scans to exactly the
/// same tokens when every `[` is written `(` and every `]` is written
/// `)`. Parsing and evaluating therefore treat the two spellings
/// identically, since both work on the tokens alone.
pub proof fn lemma_bracket_equivalence(s: Seq<char>)
    ensures
        spec_tokenize(canon_text(s)) == spec_tokenize(s),
{
    lemma_lex_from_canon(s, 0);
}

proof fn lemma_lex_num_all(s: Seq<char>, bs: int, j: int, neg: bool)
    requires
        0 <= bs <= j <= s.len(),
        forall|k: int| j <= k < s.len() ==> is_num_char(s[k]),
    ensures
        lex_num(s, bs, j, neg) == ({
            let lit = s.subrange(bs, s.len() as int);
            if valid_literal(lit) {
                Ok::<Seq<TokenV>, TokenErrorV>(
                    seq![TokenV::Number(NumeralV { neg, digits: lit })],
                )
            } else {
                Err::<Seq<TokenV>, TokenErrorV>(TokenErrorV::ParseError(lit))
            }
        }),
    decreases s.len() - j,
{
    if j < s.len() {
        lemma_lex_num_all(s, bs, j + 1, neg);
    } else {
        let lit = s.subrange(bs, s.len() as int);
        assert(lex_from(s, j) == Ok::<Seq<TokenV>, TokenErrorV>(Seq::empty()));
        assert(seq![TokenV::Number(NumeralV { neg, digits: lit })] + Seq::<TokenV>::empty()
            =~= seq![TokenV::Number(NumeralV { neg, digits: lit })]);
    }
}

/// A single valid decimal literal, with or without a leading minus,
/// scans to exactly one number token carrying that literal, and that
/// token parses to exactly the number leaf carrying it.
pub proof fn lemma_literal_round_trip(body: Seq<char>, neg: bool)
    requires
        valid_literal(body),
    ensures
        spec_tokenize(
            if neg {
                seq!['-'] + body
            } else {
                body
            },
        ) == Ok::<Seq<TokenV>, TokenErrorV>(
            seq![TokenV::Number(NumeralV { neg, digits: body })],
        ),
        spec_parse(seq![TokenV::Number(NumeralV { neg, digits: body })]) == Ok::<
            ExprV,
            AstErrorV,
        >(ExprV::Number(NumeralV { neg, digits: body })),
{
    if body.len() == 0 {
        assert(digit_tally(body) == 0);
    }
    let n = NumeralV { neg, digits: body };
    if neg {
        let s = seq!['-'] + body;
        assert(s[0] == '-');
        assert(s[1] == body[0]);
        assert(is_num_char(s[1]));
        assert(!is_num_char('-'));
        assert(!is_space_char('-'));
        assert(forall|k: int| 1 <= k < s.len() ==> s[k] == body[k - 1] && is_num_char(s[k]));
        lemma_lex_num_all(s, 1, 1, true);
        assert(s.subrange(1, s.len() as int) =~= body);
        assert(lex_from(s, 0) == lex_num(s, 1, 1, true));
    } else {
        assert(is_num_char(body[0]));
        lemma_lex_num_all(body, 0, 1, false);
        assert(body.subrange(0, body.len() as int) =~= body);
        assert(lex_from(body, 0) == lex_num(body, 0, 1, false));
    }
    let ts = seq![TokenV::Number(n)];
    assert(spec_term(ts, 0) == Ok::<(ExprV, int), AstErrorV>((ExprV::Number(n), 1)));
    assert(spec_exponent_more(ts, 1, ExprV::Number(n)) == Ok::<(ExprV, int), AstErrorV>(
        (ExprV::Number(n), 1),
    ));
    assert(spec_exponent(ts, 0) == Ok::<(ExprV, int), AstErrorV>((ExprV::Number(n), 1)));
    assert(spec_factor_more(ts, 1, ExprV::Number(n)) == Ok::<(ExprV, int), AstErrorV>(
        (ExprV::Number(n), 1),
    ));
    assert(ts[0] != TokenV::Operator('-'));
    assert(spec_factor(ts, 0) == Ok::<(ExprV, int), AstErrorV>((ExprV::Number(n), 1)));
    assert(spec_expr_more(ts, 1, ExprV::Number(n)) == Ok::<(ExprV, int), AstErrorV>(
        (ExprV::Number(n), 1),
    ));
    assert(spec_expr(ts, 0) == Ok::<(ExprV, int), AstErrorV>((ExprV::Number(n), 1)));
}

/// The tokens that scanning a rendered expression yields: a literal
/// gives one number token; a binary operation gives its bracketed
/// infix form; a negation gives a minus operator before its child's
/// tokens, except that a minus directly before an unsigned literal
/// folds into that literal.
pub open spec fn toks(e: ExprV) -> Seq<TokenV>
    decreases e,
{
    match e {
        ExprV::Number(n) => seq![TokenV::Number(n)],
        ExprV::BinOp(op, l, r) => seq![TokenV::LParen] + toks(*l) + seq![TokenV::Operator(op)]
            + toks(*r) + seq![TokenV::RParen],
        ExprV::Neg(c) => match *c {
            ExprV::Number(n) => if !n.neg {
                seq![TokenV::Number(NumeralV { neg: true, digits: n.digits })]
            } else {
                seq![TokenV::Operator('-'), TokenV::Number(n)]
            },
            _ => seq![TokenV::Operator('-')] + toks(*c),
        },
    }
}

proof fn lemma_valid_literal_nonempty(s: Seq<char>)
    requires
        valid_literal(s),
    ensures
        s.len() >= 1,
{
    if s.len() == 0 {
        assert(digit_tally(s) == 0);
    }
}

proof fn lemma_lex_cont_assoc(x: Seq<TokenV>, y: Seq<TokenV>, r: Result<Seq<TokenV>, TokenErrorV>)
    ensures
        lex_cont(x, lex_cont(y, r)) == lex_cont(x + y, r),
{
    match r {
        Ok(ts) => {
            assert(x + (y + ts) =~= (x + y) + ts);
        },
        Err(_) => {},
    }
}

proof fn lemma_lex_num_span(s: Seq<char>, bs: int, j: int, end: int, neg: bool)
    requires
        0 <= bs <= j <= end <= s.len(),
        forall|k: int| j <= k < end ==> is_num_char(s[k]),
        end == s.len() || !is_num_char(s[end]),
    ensures
        lex_num(s, bs, j, neg) == ({
            let lit = s.subrange(bs, end);
            if valid_literal(lit) {
                lex_cont(seq![TokenV::Number(NumeralV { neg, digits: lit })], lex_from(s, end))
            } else {
                Err::<Seq<TokenV>, TokenErrorV>(TokenErrorV::ParseError(lit))
            }
        }),
    decreases end - j,
{
    if j < end {
        lemma_lex_num_span(s, bs, j + 1, end, neg);
    }
}

/// Scanning a rendered literal inside a larger text yields exactly
/// its number token, provided no literal character follows directly.
proof fn lemma_literal_lex(n: NumeralV, s: Seq<char>, i: int)
    requires
        numeral_wf(n),
        0 <= i,
        i + spec_numeral_text(n).len() <= s.len(),
        s.subrange(i, i + spec_numeral_text(n).len() as int) == spec_numeral_text(n),
        i + spec_numeral_text(n).len() == s.len() || !is_num_char(
            s[i + spec_numeral_text(n).len()],
        ),
    ensures
        lex_from(s, i) == lex_cont(
            seq![TokenV::Number(n)],
            lex_from(s, i + spec_numeral_text(n).len() as int),
        ),
{
    let t = spec_numeral_text(n);
    let end = i + t.len() as int;
    lemma_valid_literal_nonempty(n.digits);
    if n.neg {
        assert(s[i] == t[0]);
        assert(t[0] == '-');
        assert(s[i + 1] == t[1]);
        assert(t[1] == n.digits[0]);
        assert(is_num_char(s[i + 1]));
        assert forall|k: int| i + 1 <= k < end implies s[k] == n.digits[k - i - 1] by {
            assert(s[k] == s.subrange(i, end)[k - i]);
            assert(t[k - i] == n.digits[k - i - 1]);
        }
        lemma_lex_num_span(s, i + 1, i + 1, end, true);
        assert(s.subrange(i + 1, end) =~= n.digits);
        assert(NumeralV { neg: true, digits: s.subrange(i + 1, end) } == n);
        assert(lex_from(s, i) == lex_num(s, i + 1, i + 1, true));
    } else {
        assert(s[i] == t[0]);
        assert(t[0] == n.digits[0]);
        assert(is_num_char(s[i]));
        assert forall|k: int| i <= k < end implies s[k] == n.digits[k - i] by {
            assert(s[k] == s.subrange(i, end)[k - i]);
            assert(t[k - i] == n.digits[k - i]);
        }
        lemma_lex_num_span(s, i, i + 1, end, false);
        assert(s.subrange(i, end) =~= n.digits);
        assert(NumeralV { neg: false, digits: s.subrange(i, end) } == n);
        assert(lex_from(s, i) == lex_num(s, i, i + 1, false));
    }
}

/// Every well-formed expression renders to at least one character,
/// and the first one shows the shape: a bracket for a binary
/// operation, a minus for a negation.
proof fn lemma_text_first(e: ExprV)
    requires
        expr_wf(e),
    ensures
        spec_ast_text(e).len() >= 1,
        e is BinOp ==> spec_ast_text(e)[0] == '(',
        e is Neg ==> spec_ast_text(e)[0] == '-',
{
    match e {
        ExprV::Number(n) => {
            lemma_valid_literal_nonempty(n.digits);
        },
        ExprV::BinOp(op, l, r) => {},
        ExprV::Neg(c) => {},
    }
}

/// Scanning a rendered expression inside a larger text yields exactly
/// its token sequence, provided no literal character follows
/// directly.
proof fn lemma_text_lex(e: ExprV, s: Seq<char>, i: int)
    requires
        expr_wf(e),
        0 <= i,
        i + spec_ast_text(e).len() <= s.len(),
        s.subrange(i, i + spec_ast_text(e).len() as int) == spec_ast_text(e),
        i + spec_ast_text(e).len() == s.len() || !is_num_char(s[i + spec_ast_text(e).len()]),
    ensures
        lex_from(s, i) == lex_cont(toks(e), lex_from(s, i + spec_ast_text(e).len() as int)),
    decreases e,
{
    let t = spec_ast_text(e);
    let end = i + t.len() as int;
    match e {
        ExprV::Number(n) => {
            lemma_literal_lex(n, s, i);
        },
        ExprV::BinOp(op, l, r) => {
            let tl = spec_ast_text(*l);
            let tr = spec_ast_text(*r);
            let a = tl.len() as int;
            let b = tr.len() as int;
            assert(t == seq!['('] + tl + seq![' ', op, ' '] + tr + seq![')']);
            assert(t.len() == a + b + 5);
            assert(s[i] == t[0] && t[0] == '(');
            assert(s[i + 1 + a] == t[1 + a] && t[1 + a] == ' ');
            assert(s[i + 2 + a] == t[2 + a] && t[2 + a] == op);
            assert(s[i + 3 + a] == t[3 + a] && t[3 + a] == ' ');
            assert(s[i + 4 + a + b] == t[4 + a + b] && t[4 + a + b] == ')');
            assert(s.subrange(i + 1, i + 1 + a) =~= tl) by {
                assert forall|k: int| 0 <= k < a implies s.subrange(i + 1, i + 1 + a)[k]
                    == tl[k] by {
                    assert(s[i + 1 + k] == t[1 + k]);
                    assert(t[1 + k] == tl[k]);
                }
            }
            assert(s.subrange(i + 4 + a, i + 4 + a + b) =~= tr) by {
                assert forall|k: int| 0 <= k < b implies s.subrange(i + 4 + a, i + 4 + a + b)[k]
                    == tr[k] by {
                    assert(s[i + 4 + a + k] == t[4 + a + k]);
                    assert(t[4 + a + k] == tr[k]);
                }
            }
            // the opening bracket
            assert(lex_from(s, i) == lex_cont(seq![TokenV::LParen], lex_from(s, i + 1)));
            // the left subexpression, delimited by the space after it
            lemma_text_lex(*l, s, i + 1);
            // the space, the operator, the space
            assert(is_op_char(op));
            assert(lex_from(s, i + 1 + a) == lex_from(s, i + 2 + a));
            assert(!is_num_char(s[i + 3 + a]));
            assert(lex_from(s, i + 2 + a) == lex_cont(
                seq![TokenV::Operator(op)],
                lex_from(s, i + 3 + a),
            ));
            assert(lex_from(s, i + 3 + a) == lex_from(s, i + 4 + a));
            // the right subexpression, delimited by the closing bracket
            lemma_text_lex(*r, s, i + 4 + a);
            assert(!is_num_char(')'));
            // the closing bracket
            assert(lex_from(s, i + 4 + a + b) == lex_cont(
                seq![TokenV::RParen],
                lex_from(s, end),
            ));
            // chain the pieces together
            lemma_lex_cont_assoc(
                toks(*r),
                seq![TokenV::RParen],
                lex_from(s, end),
            );
            lemma_lex_cont_assoc(
                seq![TokenV::Operator(op)],
                toks(*r) + seq![TokenV::RParen],
                lex_from(s, end),
            );
            lemma_lex_cont_assoc(
                toks(*l),
                seq![TokenV::Operator(op)] + (toks(*r) + seq![TokenV::RParen]),
                lex_from(s, end),
            );
            lemma_lex_cont_assoc(
                seq![TokenV::LParen],
                toks(*l) + (seq![TokenV::Operator(op)] + (toks(*r) + seq![TokenV::RParen])),
                lex_from(s, end),
            );
            assert(seq![TokenV::LParen] + (toks(*l) + (seq![TokenV::Operator(op)] + (toks(*r)
                + seq![TokenV::RParen]))) =~= toks(e));
        },
        ExprV::Neg(c) => {
            assert(s[i] == t[0] && t[0] == '-');
            let tc = spec_ast_text(*c);
            let a = tc.len() as int;
            assert(t == seq!['-'] + tc);
            assert(expr_wf(*c));
            lemma_text_first(*c);
            assert(s.subrange(i + 1, i + 1 + a) =~= tc) by {
                assert forall|k: int| 0 <= k < a implies s.subrange(i + 1, i + 1 + a)[k]
                    == tc[k] by {
                    assert(s[i + 1 + k] == t[1 + k]);
                    assert(t[1 + k] == tc[k]);
                }
            }
            match *c {
                ExprV::Number(n) => {
                    assert(numeral_wf(n));
                    if !n.neg {
                        // the minus folds into the literal that follows
                        lemma_valid_literal_nonempty(n.digits);
                        let m = NumeralV { neg: true, digits: n.digits };
                        assert(spec_numeral_text(m) == t);
                        assert(numeral_wf(m));
                        lemma_literal_lex(m, s, i);
                    } else {
                        // a minus before a signed literal stays an operator
                        assert(s[i + 1] == tc[0] && tc[0] == '-');
                        assert(lex_from(s, i) == lex_cont(
                            seq![TokenV::Operator('-')],
                            lex_from(s, i + 1),
                        ));
                        lemma_literal_lex(n, s, i + 1);
                        lemma_lex_cont_assoc(
                            seq![TokenV::Operator('-')],
                            seq![TokenV::Number(n)],
                            lex_from(s, end),
                        );
                        assert(seq![TokenV::Operator('-')] + seq![TokenV::Number(n)] =~= toks(e));
                    }
                },
                _ => {
                    // the child starts with a bracket or another minus,
                    // so this minus stays an operator
                    assert(s[i + 1] == tc[0]);
                    assert(!is_num_char(s[i + 1]));
                    assert(lex_from(s, i) == lex_cont(
                        seq![TokenV::Operator('-')],
                        lex_from(s, i + 1),
                    ));
                    lemma_text_lex(*c, s, i + 1);
                    lemma_lex_cont_assoc(seq![TokenV::Operator('-')], toks(*c), lex_from(s, end));
                },
            }
        },
    }
}

/// Whether a rendered expression reads back as one term: a literal, a
/// bracketed binary operation, or a negation that folds into the
/// unsigned literal under it.
pub open spec fn term_like(e: ExprV) -> bool {
    match e {
        ExprV::Number(_) => true,
        ExprV::BinOp(_, _, _) => true,
        ExprV::Neg(c) => match *c {
            ExprV::Number(n) => !n.neg,
            _ => false,
        },
    }
}

/// Whether a rendered expression reads back as one factor: a term, or
/// a negation over one term.
pub open spec fn factor_like(e: ExprV) -> bool {
    term_like(e) || match e {
        ExprV::Neg(c) => term_like(*c),
        _ => false,
    }
}

/// The expressions whose rendering the engine reads back: every
/// negation stands over a single term, and either side of `^` reads
/// back as a single term. A negation over anything else, or beside
/// `^`, renders without brackets, and such a text genuinely reads
/// back as a different tree.
pub open spec fn rt_safe(e: ExprV) -> bool
    decreases e,
{
    match e {
        ExprV::Number(_) => true,
        ExprV::BinOp(op, l, r) => rt_safe(*l) && rt_safe(*r) && if op == '^' {
            term_like(*l) && term_like(*r)
        } else {
            factor_like(*l) && factor_like(*r)
        },
        ExprV::Neg(c) => rt_safe(*c) && term_like(*c),
    }
}

/// The tree that re-reading a rendered expression gives back:
/// identical, except that a negation over an unsigned literal becomes
/// the signed literal, which denotes the same number.
pub open spec fn norm(e: ExprV) -> ExprV
    decreases e,
{
    match e {
        ExprV::Number(n) => ExprV::Number(n),
        ExprV::BinOp(op, l, r) => ExprV::BinOp(op, Box::new(norm(*l)), Box::new(norm(*r))),
        ExprV::Neg(c) => match *c {
            ExprV::Number(n) => if !n.neg {
                ExprV::Number(NumeralV { neg: true, digits: n.digits })
            } else {
                ExprV::Neg(Box::new(ExprV::Number(n)))
            },
            _ => ExprV::Neg(Box::new(norm(*c))),
        },
    }
}

proof fn lemma_toks_shape(e: ExprV)
    ensures
        toks(e).len() >= 1,
        term_like(e) ==> (toks(e)[0] is Number || toks(e)[0] is LParen),
        !term_like(e) && e is Neg ==> toks(e)[0] == TokenV::Operator('-'),
{
    match e {
        ExprV::Number(_) => {},
        ExprV::BinOp(_, _, _) => {},
        ExprV::Neg(c) => {},
    }
}

/// The operator of a binary node; meaningful only on `BinOp`.
pub open spec fn bin_op_of(e: ExprV) -> char {
    match e {
        ExprV::BinOp(op, _, _) => op,
        _ => ' ',
    }
}

/// The left side of a binary node; meaningful only on `BinOp`.
pub open spec fn bin_lhs_of(e: ExprV) -> ExprV {
    match e {
        ExprV::BinOp(_, l, _) => *l,
        _ => e,
    }
}

/// The right side of a binary node; meaningful only on `BinOp`.
pub open spec fn bin_rhs_of(e: ExprV) -> ExprV {
    match e {
        ExprV::BinOp(_, _, r) => *r,
        _ => e,
    }
}

/// Within a larger token sequence, the tokens of a term-like rendered
/// expression parse as exactly one term.
proof fn lemma_toks_term(e: ExprV, ts: Seq<TokenV>, p: int)
    requires
        expr_wf(e),
        rt_safe(e),
        term_like(e),
        0 <= p,
        p + toks(e).len() <= ts.len(),
        ts.subrange(p, p + toks(e).len() as int) == toks(e),
    ensures
        spec_term(ts, p) == Ok::<(ExprV, int), AstErrorV>((norm(e), p + toks(e).len() as int)),
    decreases e, 2int,
{
    match e {
        ExprV::Number(n) => {
            assert(ts[p] == toks(e)[0]);
        },
        ExprV::Neg(c) => {
            assert(ts[p] == toks(e)[0]);
        },
        ExprV::BinOp(op, l, r) => {
            lemma_toks_term_binop(e, ts, p);
        },
    }
}

/// The bracketed rendering of a binary node parses as one term.
proof fn lemma_toks_term_binop(e: ExprV, ts: Seq<TokenV>, p: int)
    requires
        expr_wf(e),
        rt_safe(e),
        e is BinOp,
        0 <= p,
        p + toks(e).len() <= ts.len(),
        ts.subrange(p, p + toks(e).len() as int) == toks(e),
    ensures
        spec_term(ts, p) == Ok::<(ExprV, int), AstErrorV>((norm(e), p + toks(e).len() as int)),
    decreases e, 1int,
{
    let op = bin_op_of(e);
    let l = bin_lhs_of(e);
    let r = bin_rhs_of(e);
    let tl = toks(l);
    let tr = toks(r);
    let la = tl.len() as int;
    let lb = tr.len() as int;
    let pl = p + 1;
    let pop = p + 1 + la;
    let pr = p + 2 + la;
    let prp = p + 2 + la + lb;
    assert(toks(e) == seq![TokenV::LParen] + tl + seq![TokenV::Operator(op)] + tr
        + seq![TokenV::RParen]);
    assert(toks(e).len() == la + lb + 3);
    assert(ts[p] == toks(e)[0] && toks(e)[0] is LParen);
    assert(ts[pop] == toks(e)[1 + la] && toks(e)[1 + la] == TokenV::Operator(op));
    assert(ts[prp] == toks(e)[2 + la + lb] && toks(e)[2 + la + lb] is RParen);
    assert(ts.subrange(pl, pl + la) =~= tl) by {
        assert forall|k: int| 0 <= k < la implies ts.subrange(pl, pl + la)[k] == tl[k] by {
            assert(ts[pl + k] == toks(e)[1 + k]);
            assert(toks(e)[1 + k] == tl[k]);
        }
    }
    assert(ts.subrange(pr, pr + lb) =~= tr) by {
        assert forall|k: int| 0 <= k < lb implies ts.subrange(pr, pr + lb)[k] == tr[k] by {
            assert(ts[pr + k] == toks(e)[2 + la + k]);
            assert(toks(e)[2 + la + k] == tr[k]);
        }
    }
    let inner = ExprV::BinOp(op, Box::new(norm(l)), Box::new(norm(r)));
    assert(is_op_char(op));
    if op == '^' {
        lemma_toks_inner_pow(e, ts, p);
    } else if op == '*' || op == '/' {
        lemma_toks_inner_muldiv(e, ts, p);
    } else {
        lemma_toks_inner_addsub(e, ts, p);
    }
    assert(spec_term(ts, p) == Ok::<(ExprV, int), AstErrorV>((inner, prp + 1)));
    assert(norm(e) == inner);
}

/// The shared premises of the three inner-content lemmas: the left
/// side's tokens, the operator, the right side's tokens and the
/// closing bracket stand at their places after position `p`.
pub open spec fn binop_embedded(e: ExprV, ts: Seq<TokenV>, p: int) -> bool {
    let l = bin_lhs_of(e);
    let r = bin_rhs_of(e);
    let la = toks(l).len() as int;
    let lb = toks(r).len() as int;
    &&& expr_wf(e)
    &&& rt_safe(e)
    &&& e is BinOp
    &&& 0 <= p
    &&& p + la + lb + 3 <= ts.len()
    &&& ts.subrange(p + 1, p + 1 + la) == toks(l)
    &&& ts[p + 1 + la] == TokenV::Operator(bin_op_of(e))
    &&& ts.subrange(p + 2 + la, p + 2 + la + lb) == toks(r)
    &&& ts[p + 2 + la + lb] is RParen
}

/// What the inner-content lemmas conclude: between the brackets, a
/// whole expression parses, ending right at the closing bracket.
pub open spec fn binop_inner_parses(e: ExprV, ts: Seq<TokenV>, p: int) -> bool {
    let l = bin_lhs_of(e);
    let r = bin_rhs_of(e);
    spec_expr(ts, p + 1) == Ok::<(ExprV, int), AstErrorV>(
        (
            ExprV::BinOp(bin_op_of(e), Box::new(norm(l)), Box::new(norm(r))),
            p + 2 + toks(l).len() + toks(r).len(),
        ),
    )
}

/// Between the brackets of a `^` node: term, `^`, term, folded inside
/// the exponent tier.
proof fn lemma_toks_inner_pow(e: ExprV, ts: Seq<TokenV>, p: int)
    requires
        binop_embedded(e, ts, p),
        bin_op_of(e) == '^',
    ensures
        binop_inner_parses(e, ts, p),
    decreases e, 0int,
{
    let op = bin_op_of(e);
    let l = bin_lhs_of(e);
    let r = bin_rhs_of(e);
    let la = toks(l).len() as int;
    let lb = toks(r).len() as int;
    let pl = p + 1;
    let pop = p + 1 + la;
    let pr = p + 2 + la;
    let prp = p + 2 + la + lb;
    lemma_toks_shape(l);
    lemma_toks_shape(r);
    let inner = ExprV::BinOp(op, Box::new(norm(l)), Box::new(norm(r)));
    lemma_toks_term(l, ts, pl);
    lemma_toks_term(r, ts, pr);
    assert(ts[pl] != TokenV::Operator('-'));
    assert(spec_exponent_more(ts, prp, inner) == Ok::<(ExprV, int), AstErrorV>((inner, prp)));
    assert(spec_exponent_more(ts, pop, norm(l)) == Ok::<(ExprV, int), AstErrorV>((inner, prp)));
    assert(spec_exponent(ts, pl) == Ok::<(ExprV, int), AstErrorV>((inner, prp)));
    assert(spec_factor(ts, pl) == Ok::<(ExprV, int), AstErrorV>((inner, prp)));
    assert(spec_expr_more(ts, prp, inner) == Ok::<(ExprV, int), AstErrorV>((inner, prp)));
    assert(spec_expr(ts, pl) == Ok::<(ExprV, int), AstErrorV>((inner, prp)));
}

/// Between the brackets of a `*` or `/` node: factor-like sides,
/// folded inside the factor tier.
proof fn lemma_toks_inner_muldiv(e: ExprV, ts: Seq<TokenV>, p: int)
    requires
        binop_embedded(e, ts, p),
        bin_op_of(e) == '*' || bin_op_of(e) == '/',
    ensures
        binop_inner_parses(e, ts, p),
    decreases e, 0int,
{
    let op = bin_op_of(e);
    let l = bin_lhs_of(e);
    let r = bin_rhs_of(e);
    let tl = toks(l);
    let la = tl.len() as int;
    let lb = toks(r).len() as int;
    let pl = p + 1;
    let pop = p + 1 + la;
    let prp = p + 2 + la + lb;
    lemma_toks_shape(l);
    lemma_toks_shape(r);
    let inner = ExprV::BinOp(op, Box::new(norm(l)), Box::new(norm(r)));
    if term_like(l) {
        assert(ts[pl] != TokenV::Operator('-'));
        lemma_toks_exponent(l, ts, pl);
        lemma_toks_factor_chain(op, norm(l), r, ts, pop);
        assert(spec_factor(ts, pl) == Ok::<(ExprV, int), AstErrorV>((inner, prp)));
    } else {
        // the left side is a negation over one term
        let cl = e_neg_child(l);
        assert(expr_wf(l) && rt_safe(l) && factor_like(l));
        assert(expr_wf(cl) && rt_safe(cl) && term_like(cl));
        assert(ts[pl] == TokenV::Operator('-'));
        assert(toks(l) == seq![TokenV::Operator('-')] + toks(cl));
        assert(ts.subrange(pl + 1, pl + 1 + toks(cl).len() as int) =~= toks(cl)) by {
            assert forall|k: int| 0 <= k < toks(cl).len() implies ts.subrange(
                pl + 1,
                pl + 1 + toks(cl).len() as int,
            )[k] == toks(cl)[k] by {
                assert(ts[pl + 1 + k] == tl[1 + k]);
                assert(tl[1 + k] == toks(cl)[k]);
            }
        }
        lemma_toks_exponent(cl, ts, pl + 1);
        assert(norm(l) == ExprV::Neg(Box::new(norm(cl))));
        lemma_toks_factor_chain(op, norm(l), r, ts, pop);
        assert(spec_factor(ts, pl) == Ok::<(ExprV, int), AstErrorV>((inner, prp)));
    }
    assert(spec_expr_more(ts, prp, inner) == Ok::<(ExprV, int), AstErrorV>((inner, prp)));
    assert(spec_expr(ts, pl) == Ok::<(ExprV, int), AstErrorV>((inner, prp)));
}

/// Between the brackets of a `+` or `-` node: factor-like sides,
/// folded inside the expression tier.
proof fn lemma_toks_inner_addsub(e: ExprV, ts: Seq<TokenV>, p: int)
    requires
        binop_embedded(e, ts, p),
        bin_op_of(e) == '+' || bin_op_of(e) == '-',
    ensures
        binop_inner_parses(e, ts, p),
    decreases e, 0int,
{
    let op = bin_op_of(e);
    let l = bin_lhs_of(e);
    let r = bin_rhs_of(e);
    let la = toks(l).len() as int;
    let lb = toks(r).len() as int;
    let pl = p + 1;
    let pop = p + 1 + la;
    let pr = p + 2 + la;
    let prp = p + 2 + la + lb;
    lemma_toks_shape(l);
    lemma_toks_shape(r);
    let inner = ExprV::BinOp(op, Box::new(norm(l)), Box::new(norm(r)));
    lemma_toks_factor(l, ts, pl);
    lemma_toks_factor(r, ts, pr);
    assert(spec_expr_more(ts, prp, inner) == Ok::<(ExprV, int), AstErrorV>((inner, prp)));
    assert(spec_expr_more(ts, pop, norm(l)) == Ok::<(ExprV, int), AstErrorV>((inner, prp)));
    assert(spec_expr(ts, pl) == Ok::<(ExprV, int), AstErrorV>((inner, prp)));
}

/// The spec-level child of a negation; meaningful only on `Neg`.
pub open spec fn e_neg_child(e: ExprV) -> ExprV {
    match e {
        ExprV::Neg(c) => *c,
        _ => e,
    }
}

/// Folds one `* exponent` or `/ exponent` step whose right side is a
/// rendered expression followed by a closing bracket.
proof fn lemma_toks_factor_chain(op: char, lhs: ExprV, r: ExprV, ts: Seq<TokenV>, pop: int)
    requires
        op == '*' || op == '/',
        expr_wf(r),
        rt_safe(r),
        factor_like(r),
        0 <= pop,
        ts[pop] == TokenV::Operator(op),
        pop + 1 + toks(r).len() < ts.len(),
        ts.subrange(pop + 1, pop + 1 + toks(r).len() as int) == toks(r),
        ts[pop + 1 + toks(r).len()] is RParen,
    ensures
        spec_factor_more(ts, pop, lhs) == Ok::<(ExprV, int), AstErrorV>(
            (
                ExprV::BinOp(op, Box::new(lhs), Box::new(norm(r))),
                pop + 1 + toks(r).len() as int,
            ),
        ),
    decreases r, 6int,
{
    let pr = pop + 1;
    let lb = toks(r).len() as int;
    let prp = pr + lb;
    lemma_toks_shape(r);
    let out = ExprV::BinOp(op, Box::new(lhs), Box::new(norm(r)));
    if term_like(r) {
        assert(ts[pr] != TokenV::Operator('-'));
        lemma_toks_exponent(r, ts, pr);
        assert(spec_factor_more(ts, prp, out) == Ok::<(ExprV, int), AstErrorV>((out, prp)));
    } else {
        let c = e_neg_child(r);
        assert(ts[pr] == TokenV::Operator('-'));
        assert(toks(r) == seq![TokenV::Operator('-')] + toks(c));
        assert(ts.subrange(pr + 1, pr + 1 + toks(c).len() as int) =~= toks(c)) by {
            assert forall|k: int| 0 <= k < toks(c).len() implies ts.subrange(
                pr + 1,
                pr + 1 + toks(c).len() as int,
            )[k] == toks(c)[k] by {
                assert(ts[pr + 1 + k] == toks(r)[1 + k]);
                assert(toks(r)[1 + k] == toks(c)[k]);
            }
        }
        lemma_toks_exponent(c, ts, pr + 1);
        assert(norm(r) == ExprV::Neg(Box::new(norm(c))));
        assert(spec_factor_more(ts, prp, out) == Ok::<(ExprV, int), AstErrorV>((out, prp)));
    }
}

/// Within a larger token sequence, the tokens of a term-like rendered
/// expression parse as exactly one exponent chain, provided no `^`
/// follows directly.
proof fn lemma_toks_exponent(e: ExprV, ts: Seq<TokenV>, p: int)
    requires
        expr_wf(e),
        rt_safe(e),
        term_like(e),
        0 <= p,
        p + toks(e).len() <= ts.len(),
        ts.subrange(p, p + toks(e).len() as int) == toks(e),
        p + toks(e).len() == ts.len() || ts[p + toks(e).len()] != TokenV::Operator('^'),
    ensures
        spec_exponent(ts, p) == Ok::<(ExprV, int), AstErrorV>(
            (norm(e), p + toks(e).len() as int),
        ),
    decreases e, 3int,
{
    let q = p + toks(e).len() as int;
    lemma_toks_shape(e);
    lemma_toks_term(e, ts, p);
    assert(spec_exponent_more(ts, q, norm(e)) == Ok::<(ExprV, int), AstErrorV>((norm(e), q)));
}

/// Within a larger token sequence, the tokens of a factor-like
/// rendered expression parse as exactly one factor chain, provided no
/// `^`, `*` or `/` follows directly.
proof fn lemma_toks_factor(e: ExprV, ts: Seq<TokenV>, p: int)
    requires
        expr_wf(e),
        rt_safe(e),
        factor_like(e),
        0 <= p,
        p + toks(e).len() <= ts.len(),
        ts.subrange(p, p + toks(e).len() as int) == toks(e),
        p + toks(e).len() == ts.len() || (ts[p + toks(e).len()] != TokenV::Operator('^')
            && ts[p + toks(e).len()] != TokenV::Operator('*') && ts[p + toks(e).len()]
            != TokenV::Operator('/')),
    ensures
        spec_factor(ts, p) == Ok::<(ExprV, int), AstErrorV>((norm(e), p + toks(e).len() as int)),
    decreases e, 4int,
{
    let q = p + toks(e).len() as int;
    lemma_toks_shape(e);
    if term_like(e) {
        assert(ts[p] != TokenV::Operator('-'));
        lemma_toks_exponent(e, ts, p);
        assert(spec_factor_more(ts, q, norm(e)) == Ok::<(ExprV, int), AstErrorV>((norm(e), q)));
    } else {
        let c = e_neg_child(e);
        assert(ts[p] == TokenV::Operator('-'));
        assert(toks(e) == seq![TokenV::Operator('-')] + toks(c));
        assert(ts.subrange(p + 1, p + 1 + toks(c).len() as int) =~= toks(c)) by {
            assert forall|k: int| 0 <= k < toks(c).len() implies ts.subrange(
                p + 1,
                p + 1 + toks(c).len() as int,
            )[k] == toks(c)[k] by {
                assert(ts[p + 1 + k] == toks(e)[1 + k]);
                assert(toks(e)[1 + k] == toks(c)[k]);
            }
        }
        lemma_toks_exponent(c, ts, p + 1);
        assert(norm(e) == ExprV::Neg(Box::new(norm(c))));
        assert(spec_factor_more(ts, q, norm(e)) == Ok::<(ExprV, int), AstErrorV>((norm(e), q)));
    }
}

/// Within a larger token sequence, the tokens of a safe rendered
/// expression parse as exactly one expression, provided only a
/// closing bracket or the end follows.
proof fn lemma_toks_expr(e: ExprV, ts: Seq<TokenV>, p: int)
    requires
        expr_wf(e),
        rt_safe(e),
        0 <= p,
        p + toks(e).len() <= ts.len(),
        ts.subrange(p, p + toks(e).len() as int) == toks(e),
        p + toks(e).len() == ts.len() || ts[p + toks(e).len()] is RParen,
    ensures
        spec_expr(ts, p) == Ok::<(ExprV, int), AstErrorV>((norm(e), p + toks(e).len() as int)),
    decreases e, 5int,
{
    let q = p + toks(e).len() as int;
    assert(factor_like(e));
    lemma_toks_shape(e);
    lemma_toks_factor(e, ts, p);
    assert(spec_expr_more(ts, q, norm(e)) == Ok::<(ExprV, int), AstErrorV>((norm(e), q)));
}

/// Display round trip: rendering an expression, then scanning and
/// parsing the text again, gives back the same tree up to `norm`,
/// which only folds a negation over an unsigned literal into the
/// signed literal — the same number. It holds of every expression
/// whose rendering the engine can re-read (`rt_safe`); a negation
/// over more than a single term, or beside `^`, renders without
/// brackets and genuinely reads back differently.
pub proof fn lemma_display_round_trip(e: ExprV)
    requires
        expr_wf(e),
        rt_safe(e),
    ensures
        spec_tokenize(spec_ast_text(e)) == Ok::<Seq<TokenV>, TokenErrorV>(toks(e)),
        spec_parse(toks(e)) == Ok::<ExprV, AstErrorV>(norm(e)),
{
    let t = spec_ast_text(e);
    assert(t.subrange(0, t.len() as int) =~= t);
    lemma_text_lex(e, t, 0);
    assert(lex_from(t, t.len() as int) == Ok::<Seq<TokenV>, TokenErrorV>(Seq::empty()));
    assert(toks(e) + Seq::<TokenV>::empty() =~= toks(e));
    let ts = toks(e);
    assert(ts.subrange(0, ts.len() as int) =~= ts);
    lemma_toks_expr(e, ts, 0);
}

pub open spec fn all_tokens_wf(ts: Seq<TokenV>) -> bool {
    forall|k: int| 0 <= k < ts.len() ==> token_wf(ts[k])
}

proof fn lemma_lex_num_wf(s: Seq<char>, bs: int, j: int, neg: bool, ts: Seq<TokenV>)
    requires
        lex_num(s, bs, j, neg) == Ok::<Seq<TokenV>, TokenErrorV>(ts),
    ensures
        all_tokens_wf(ts),
    decreases s.len() - j, 1int,
{
    if 0 <= j < s.len() && is_num_char(s[j]) {
        lemma_lex_num_wf(s, bs, j + 1, neg, ts);
    } else {
        let lit = s.subrange(bs, j);
        let rest = match lex_from(s, j) {
            Ok(more) => more,
            Err(_) => Seq::empty(),
        };
        lemma_lex_from_wf(s, j, rest);
        assert(ts == seq![TokenV::Number(NumeralV { neg, digits: lit })] + rest);
        assert(token_wf(ts[0]));
        assert(forall|k: int| 1 <= k < ts.len() ==> ts[k] == rest[k - 1]);
    }
}

proof fn lemma_lex_from_wf(s: Seq<char>, i: int, ts: Seq<TokenV>)
    requires
        lex_from(s, i) == Ok::<Seq<TokenV>, TokenErrorV>(ts),
    ensures
        all_tokens_wf(ts),
    decreases s.len() - i, 0int,
{
    if !(0 <= i < s.len()) {
    } else {
        let c = s[i];
        if is_space_char(c) {
            lemma_lex_from_wf(s, i + 1, ts);
        } else if is_num_char(c) {
            lemma_lex_num_wf(s, i, i + 1, false, ts);
        } else if c == '-' && i + 1 < s.len() && is_num_char(s[i + 1]) {
            lemma_lex_num_wf(s, i + 1, i + 1, true, ts);
        } else if is_lparen_char(c) || is_rparen_char(c) || is_op_char(c) {
            let t = if is_lparen_char(c) {
                TokenV::LParen
            } else if is_rparen_char(c) {
                TokenV::RParen
            } else {
                TokenV::Operator(c)
            };
            let rest = match lex_from(s, i + 1) {
                Ok(more) => more,
                Err(_) => Seq::empty(),
            };
            lemma_lex_from_wf(s, i + 1, rest);
            assert(ts == seq![t] + rest);
            assert(token_wf(ts[0]));
            assert(forall|k: int| 1 <= k < ts.len() ==> ts[k] == rest[k - 1]);
        } else {
        }
    }
}

/// Every token the lexer hands out is well formed: its numerals are
/// valid literals and its operators are the five operator characters.
pub proof fn lemma_tokenize_wf(s: Seq<char>, ts: Seq<TokenV>)
    requires
        spec_tokenize(s) == Ok::<Seq<TokenV>, TokenErrorV>(ts),
    ensures
        all_tokens_wf(ts),
{
    lemma_lex_from_wf(s, 0, ts);
}

proof fn lemma_parse_wf_term(ts: Seq<TokenV>, i: int, e: ExprV, j: int)
    requires
        all_tokens_wf(ts),
        spec_term(ts, i) == Ok::<(ExprV, int), AstErrorV>((e, j)),
    ensures
        expr_wf(e),
    decreases ts.len() - i, 0int,
{
    if 0 <= i < ts.len() && ts[i] is LParen {
        let inner = spec_expr(ts, i + 1);
        match inner {
            Ok((e2, j2)) => {
                lemma_parse_wf_expr(ts, i + 1, e2, j2);
            },
            Err(_) => {},
        }
    }
}

proof fn lemma_parse_wf_exponent(ts: Seq<TokenV>, i: int, e: ExprV, j: int)
    requires
        all_tokens_wf(ts),
        spec_exponent(ts, i) == Ok::<(ExprV, int), AstErrorV>((e, j)),
    ensures
        expr_wf(e),
    decreases ts.len() - i, 1int,
{
    match spec_term(ts, i) {
        Ok((lhs, k)) => {
            lemma_parse_wf_term(ts, i, lhs, k);
            if i < k <= ts.len() {
                lemma_parse_wf_exponent_more(ts, k, lhs, e, j);
            }
        },
        Err(_) => {},
    }
}

proof fn lemma_parse_wf_exponent_more(ts: Seq<TokenV>, k: int, lhs: ExprV, e: ExprV, j: int)
    requires
        all_tokens_wf(ts),
        expr_wf(lhs),
        spec_exponent_more(ts, k, lhs) == Ok::<(ExprV, int), AstErrorV>((e, j)),
    ensures
        expr_wf(e),
    decreases ts.len() - k, 2int,
{
    if k < ts.len() && ts[k] == TokenV::Operator('^') {
        match spec_term(ts, k + 1) {
            Ok((rhs, m)) => {
                lemma_parse_wf_term(ts, k + 1, rhs, m);
                if k < m <= ts.len() {
                    assert(is_op_char('^'));
                    lemma_parse_wf_exponent_more(
                        ts,
                        m,
                        ExprV::BinOp('^', Box::new(lhs), Box::new(rhs)),
                        e,
                        j,
                    );
                }
            },
            Err(_) => {},
        }
    }
}

proof fn lemma_parse_wf_factor(ts: Seq<TokenV>, i: int, e: ExprV, j: int)
    requires
        all_tokens_wf(ts),
        spec_factor(ts, i) == Ok::<(ExprV, int), AstErrorV>((e, j)),
    ensures
        expr_wf(e),
    decreases ts.len() - i, 3int,
{
    if 0 <= i < ts.len() && ts[i] == TokenV::Operator('-') {
        match spec_exponent(ts, i + 1) {
            Ok((e2, k)) => {
                lemma_parse_wf_exponent(ts, i + 1, e2, k);
                if i < k <= ts.len() {
                    lemma_parse_wf_factor_more(ts, k, ExprV::Neg(Box::new(e2)), e, j);
                }
            },
            Err(_) => {},
        }
    } else {
        match spec_exponent(ts, i) {
            Ok((lhs, k)) => {
                lemma_parse_wf_exponent(ts, i, lhs, k);
                if i < k <= ts.len() {
                    lemma_parse_wf_factor_more(ts, k, lhs, e, j);
                }
            },
            Err(_) => {},
        }
    }
}

proof fn lemma_parse_wf_factor_more(ts: Seq<TokenV>, k: int, lhs: ExprV, e: ExprV, j: int)
    requires
        all_tokens_wf(ts),
        expr_wf(lhs),
        spec_factor_more(ts, k, lhs) == Ok::<(ExprV, int), AstErrorV>((e, j)),
    ensures
        expr_wf(e),
    decreases ts.len() - k, 4int,
{
    if k < ts.len() {
        match ts[k] {
            TokenV::Operator(op) => {
                if op == '*' || op == '/' {
                    assert(token_wf(ts[k]));
                    if k + 1 < ts.len() && ts[k + 1] == TokenV::Operator('-') {
                        match spec_exponent(ts, k + 2) {
                            Ok((rhs, m)) => {
                                lemma_parse_wf_exponent(ts, k + 2, rhs, m);
                                assert(expr_wf(ExprV::Neg(Box::new(rhs))));
                                if k < m <= ts.len() {
                                    lemma_parse_wf_factor_more(
                                        ts,
                                        m,
                                        ExprV::BinOp(
                                            op,
                                            Box::new(lhs),
                                            Box::new(ExprV::Neg(Box::new(rhs))),
                                        ),
                                        e,
                                        j,
                                    );
                                }
                            },
                            Err(_) => {},
                        }
                    } else {
                        match spec_exponent(ts, k + 1) {
                            Ok((rhs, m)) => {
                                lemma_parse_wf_exponent(ts, k + 1, rhs, m);
                                if k < m <= ts.len() {
                                    lemma_parse_wf_factor_more(
                                        ts,
                                        m,
                                        ExprV::BinOp(op, Box::new(lhs), Box::new(rhs)),
                                        e,
                                        j,
                                    );
                                }
                            },
                            Err(_) => {},
                        }
                    }
                }
            },
            _ => {},
        }
    }
}

proof fn lemma_parse_wf_expr(ts: Seq<TokenV>, i: int, e: ExprV, j: int)
    requires
        all_tokens_wf(ts),
        spec_expr(ts, i) == Ok::<(ExprV, int), AstErrorV>((e, j)),
    ensures
        expr_wf(e),
    decreases ts.len() - i, 5int,
{
    match spec_factor(ts, i) {
        Ok((lhs, k)) => {
            lemma_parse_wf_factor(ts, i, lhs, k);
            if i < k <= ts.len() {
                lemma_parse_wf_expr_more(ts, k, lhs, e, j);
            }
        },
        Err(_) => {},
    }
}

proof fn lemma_parse_wf_expr_more(ts: Seq<TokenV>, k: int, lhs: ExprV, e: ExprV, j: int)
    requires
        all_tokens_wf(ts),
        expr_wf(lhs),
        spec_expr_more(ts, k, lhs) == Ok::<(ExprV, int), AstErrorV>((e, j)),
    ensures
        expr_wf(e),
    decreases ts.len() - k, 6int,
{
    if k < ts.len() {
        match ts[k] {
            TokenV::Operator(op) => {
                if op == '+' || op == '-' {
                    assert(token_wf(ts[k]));
                    match spec_factor(ts, k + 1) {
                        Ok((rhs, m)) => {
                            lemma_parse_wf_factor(ts, k + 1, rhs, m);
                            if k < m <= ts.len() {
                                lemma_parse_wf_expr_more(
                                    ts,
                                    m,
                                    ExprV::BinOp(op, Box::new(lhs), Box::new(rhs)),
                                    e,
                                    j,
                                );
                            }
                        },
                        Err(_) => {},
                    }
                }
            },
            _ => {},
        }
    }
}

/// Every tree the parser builds from well-formed tokens is well
/// formed: its numerals are valid literals and its operators are the
/// five operator characters. Together with `lemma_tokenize_wf`, every
/// tree built from scanned text is well formed.
pub proof fn lemma_parse_wf(ts: Seq<TokenV>, e: ExprV)
    requires
        all_tokens_wf(ts),
        spec_parse(ts) == Ok::<ExprV, AstErrorV>(e),
    ensures
        expr_wf(e),
{
    match spec_expr(ts, 0) {
        Ok((e2, j)) => {
            lemma_parse_wf_expr(ts, 0, e2, j);
        },
        Err(_) => {},
    }
}

} // verus!
