//! Infix CSG expressions as they are written, read with the precedence of
//! the operators (`!` binds tightest, then `*`, then `-`, then `+`; the
//! binary operators associate to the left), and the proof that the
//! shunting-yard translation of their tokens is the RPN program of that
//! reading.
use vstd::prelude::*;

use crate::csg::{Instruction, csg_eval, is_valid_rpn};
use crate::csg_parser::{
    Assoc, Token, lex_from, op_instruction, pop_higher, pop_to_lparen, spec_precedence,
    spec_shunting_yard, drain, sy_fold,
};
use crate::expr::{
    CsgExpr, expr_eval, lemma_rpn_valid_meaning, lemma_sy_fold_concat, lemma_sy_fold_one, rpn,
};

verus! {

/// An infix expression as written: primitives, `!`, the binary operators
/// (`op` is `Union`, `Intersection` or `Difference`) and parenthesized
/// groups.
pub enum Infix {
    Prim(usize),
    Not(Box<Infix>),
    Binary(Token, Box<Infix>, Box<Infix>),
    Group(Box<Infix>),
}

/// The tokens of an expression, in the order in which they are written.
pub open spec fn infix_tokens(t: Infix) -> Seq<Token>
    decreases t,
{
    match t {
        Infix::Prim(i) => seq![Token::Primitive(i)],
        Infix::Not(a) => seq![Token::Complement] + infix_tokens(*a),
        Infix::Binary(op, l, r) => infix_tokens(*l) + seq![op] + infix_tokens(*r),
        Infix::Group(a) => seq![Token::LParen] + infix_tokens(*a) + seq![Token::RParen],
    }
}

/// The binding strength of an operator token (0 for the other tokens).
pub open spec fn prec_of(t: Token) -> u8 {
    match spec_precedence(t) {
        Some((p, _)) => p,
        None => 0u8,
    }
}

/// A binary operator token.
pub open spec fn is_binary_op(t: Token) -> bool {
    t == Token::Union || t == Token::Intersection || t == Token::Difference
}

/// How tightly the outermost construct of an expression binds: that of its
/// operator, or 5 for a primitive or a group.
pub open spec fn binding(t: Infix) -> u8 {
    match t {
        Infix::Prim(_) => 5u8,
        Infix::Not(_) => 4u8,
        Infix::Binary(op, _, _) => prec_of(op),
        Infix::Group(_) => 5u8,
    }
}

/// The loosest binary operator outside every group at the top of an
/// expression: that of its operator for a binary expression, 5 otherwise.
pub open spec fn loosest(t: Infix) -> u8 {
    match t {
        Infix::Binary(op, _, _) => prec_of(op),
        _ => 5u8,
    }
}

/// The tree is how its tokens read with the precedence of the operators:
/// `!` applies to a primitive, a group or another `!`; the left operand of
/// a binary operator binds at least as tightly as it (left association),
/// the right operand strictly more tightly.
pub open spec fn read_by_precedence(t: Infix) -> bool
    decreases t,
{
    match t {
        Infix::Prim(_) => true,
        Infix::Not(a) => binding(*a) >= 4 && read_by_precedence(*a),
        Infix::Binary(op, l, r) => {
            &&& is_binary_op(op)
            &&& binding(*l) >= prec_of(op)
            &&& binding(*r) > prec_of(op)
            &&& read_by_precedence(*l)
            &&& read_by_precedence(*r)
        },
        Infix::Group(a) => read_by_precedence(*a),
    }
}

/// The expression an infix tree denotes (groups only group).
pub open spec fn infix_expr(t: Infix) -> CsgExpr
    decreases t,
{
    match t {
        Infix::Prim(i) => CsgExpr::Prim(i),
        Infix::Not(a) => CsgExpr::Not(Box::new(infix_expr(*a))),
        Infix::Binary(op, l, r) => {
            let a = Box::new(infix_expr(*l));
            let b = Box::new(infix_expr(*r));
            if op == Token::Intersection {
                CsgExpr::Intersection(a, b)
            } else if op == Token::Difference {
                CsgExpr::Difference(a, b)
            } else {
                CsgExpr::Union(a, b)
            }
        },
        Infix::Group(a) => infix_expr(*a),
    }
}

/// The instructions of the operators left on a stack, in the order in which
/// they are popped (top first).
pub open spec fn flush(p: Seq<Token>) -> Seq<Instruction>
    decreases p.len(),
{
    if p.len() == 0 {
        Seq::empty()
    } else {
        seq![op_instruction(p.last())] + flush(p.drop_last())
    }
}

/// Every token of `p` is an operator binding at least as tightly as `lo`.
pub open spec fn pending_ok(p: Seq<Token>, lo: u8) -> bool {
    forall|k: int|
        #![trigger p[k]]
        0 <= k < p.len() ==> {
            &&& (p[k] == Token::Complement || is_binary_op(p[k]))
            &&& prec_of(p[k]) >= lo
        }
}

/// The operators above the nearest `(` of the stack bind less tightly
/// than `b`.
pub open spec fn top_region_below(st: Seq<Token>, b: u8) -> bool
    decreases st.len(),
{
    if st.len() == 0 {
        true
    } else if st.last() == Token::LParen {
        true
    } else {
        prec_of(st.last()) < b && top_region_below(st.drop_last(), b)
    }
}

/// What the tokens of an expression emit into the output while they are
/// read.
pub open spec fn emitted(t: Infix) -> Seq<Instruction>
    decreases t,
{
    match t {
        Infix::Prim(i) => seq![Instruction::PushPrimitive(i)],
        Infix::Not(a) => emitted(*a),
        Infix::Binary(op, l, r) => rpn(infix_expr(*l)) + emitted(*r),
        Infix::Group(a) => rpn(infix_expr(*a)),
    }
}

/// The operators of an expression still on the stack once its tokens are
/// read.
pub open spec fn pending(t: Infix) -> Seq<Token>
    decreases t,
{
    match t {
        Infix::Prim(_) => Seq::empty(),
        Infix::Not(a) => seq![Token::Complement] + pending(*a),
        Infix::Binary(op, l, r) => seq![op] + pending(*r),
        Infix::Group(_) => Seq::empty(),
    }
}

proof fn lemma_flush_concat(a: Seq<Token>, b: Seq<Token>)
    ensures
        flush(a + b) == flush(b) + flush(a),
    decreases b.len(),
{
    if b.len() == 0 {
        assert(a + b =~= a);
        assert(flush(b) + flush(a) =~= flush(a));
    } else {
        assert((a + b).drop_last() =~= a + b.drop_last());
        assert((a + b).last() == b.last());
        lemma_flush_concat(a, b.drop_last());
        assert(seq![op_instruction(b.last())] + (flush(b.drop_last()) + flush(a)) =~= (seq![
            op_instruction(b.last()),
        ] + flush(b.drop_last())) + flush(a));
    }
}

/// What is emitted and what stays pending make up the RPN program, and the
/// pending operators bind at least as tightly as the expression.
proof fn lemma_emitted_pending(t: Infix)
    requires
        read_by_precedence(t),
    ensures
        emitted(t) + flush(pending(t)) == rpn(infix_expr(t)),
        pending_ok(pending(t), binding(t)),
    decreases t,
{
    match t {
        Infix::Prim(i) => {
            assert(flush(Seq::<Token>::empty()) =~= Seq::<Instruction>::empty());
            assert(emitted(t) + flush(pending(t)) =~= rpn(infix_expr(t)));
        },
        Infix::Not(a) => {
            lemma_emitted_pending(*a);
            lemma_flush_concat(seq![Token::Complement], pending(*a));
            let one = seq![Token::Complement];
            assert(one.drop_last() =~= Seq::<Token>::empty());
            assert(one.last() == Token::Complement);
            assert(flush(Seq::<Token>::empty()) =~= Seq::<Instruction>::empty());
            assert(flush(one) =~= seq![Instruction::Complement]);
            assert(emitted(*a) + (flush(pending(*a)) + flush(one)) =~= (emitted(*a) + flush(
                pending(*a),
            )).push(Instruction::Complement));
            let p = pending(t);
            assert forall|k: int| 0 <= k < p.len() implies {
                &&& (p[k] == Token::Complement || is_binary_op(p[k]))
                &&& prec_of(p[k]) >= binding(t)
            } by {
                if k > 0 {
                    assert(p[k] == pending(*a)[k - 1]);
                }
            }
        },
        Infix::Binary(op, l, r) => {
            lemma_emitted_pending(*l);
            lemma_emitted_pending(*r);
            lemma_flush_concat(seq![op], pending(*r));
            let one = seq![op];
            assert(one.drop_last() =~= Seq::<Token>::empty());
            assert(one.last() == op);
            assert(flush(Seq::<Token>::empty()) =~= Seq::<Instruction>::empty());
            assert(flush(one) =~= seq![op_instruction(op)]);
            let x = rpn(infix_expr(*l));
            let y = rpn(infix_expr(*r));
            assert(x + emitted(*r) + (flush(pending(*r)) + flush(one)) =~= (x + (emitted(*r)
                + flush(pending(*r)))).push(op_instruction(op)));
            let p = pending(t);
            assert forall|k: int| 0 <= k < p.len() implies {
                &&& (p[k] == Token::Complement || is_binary_op(p[k]))
                &&& prec_of(p[k]) >= binding(t)
            } by {
                if k > 0 {
                    assert(p[k] == pending(*r)[k - 1]);
                }
            }
        },
        Infix::Group(a) => {
            assert(flush(Seq::<Token>::empty()) =~= Seq::<Instruction>::empty());
            assert(emitted(t) + flush(pending(t)) =~= rpn(infix_expr(t)));
        },
    }
}

proof fn lemma_top_region_mono(st: Seq<Token>, a: u8, b: u8)
    requires
        top_region_below(st, a),
        a <= b,
    ensures
        top_region_below(st, b),
    decreases st.len(),
{
    if st.len() > 0 && st.last() != Token::LParen {
        lemma_top_region_mono(st.drop_last(), a, b);
    }
}

/// Draining a stack of pending operators flushes them.
proof fn lemma_drain_pending(out: Seq<Instruction>, p: Seq<Token>, lo: u8)
    requires
        pending_ok(p, lo),
    ensures
        drain(out, p) == Some(out + flush(p)),
    decreases p.len(),
{
    if p.len() == 0 {
        assert(out + flush(p) =~= out);
    } else {
        let q = p.drop_last();
        assert(p.last() == p[p.len() - 1]);
        assert(pending_ok(q, lo)) by {
            assert forall|k: int| 0 <= k < q.len() implies {
                &&& (q[k] == Token::Complement || is_binary_op(q[k]))
                &&& prec_of(q[k]) >= lo
            } by {
                assert(q[k] == p[k]);
            }
        }
        lemma_drain_pending(out.push(op_instruction(p.last())), q, lo);
        assert(out.push(op_instruction(p.last())) + flush(q) =~= out + flush(p));
    }
}

/// A closing parenthesis flushes the operators pending above its `(`.
proof fn lemma_pop_to_lparen_pending(out: Seq<Instruction>, st: Seq<Token>, p: Seq<Token>, lo: u8)
    requires
        pending_ok(p, lo),
    ensures
        pop_to_lparen(out, st.push(Token::LParen) + p) == Some((out + flush(p), st)),
    decreases p.len(),
{
    let s = st.push(Token::LParen) + p;
    if p.len() == 0 {
        assert(s =~= st.push(Token::LParen));
        assert(s.drop_last() =~= st);
        assert(out + flush(p) =~= out);
    } else {
        let q = p.drop_last();
        assert(s.last() == p[p.len() - 1]);
        assert(s.drop_last() =~= st.push(Token::LParen) + q);
        assert(pending_ok(q, lo)) by {
            assert forall|k: int| 0 <= k < q.len() implies {
                &&& (q[k] == Token::Complement || is_binary_op(q[k]))
                &&& prec_of(q[k]) >= lo
            } by {
                assert(q[k] == p[k]);
            }
        }
        lemma_pop_to_lparen_pending(out.push(op_instruction(p.last())), st, q, lo);
        assert(out.push(op_instruction(p.last())) + flush(q) =~= out + flush(p));
    }
}

/// An incoming binary operator of precedence `prec` flushes the pending
/// operators (which bind at least as tightly) and stops below them.
proof fn lemma_pop_higher_pending(
    out: Seq<Instruction>,
    st: Seq<Token>,
    p: Seq<Token>,
    prec: u8,
)
    requires
        pending_ok(p, prec),
        top_region_below(st, prec),
    ensures
        pop_higher(out, st + p, prec, Assoc::Left) == (out + flush(p), st),
    decreases p.len(),
{
    let s = st + p;
    if p.len() == 0 {
        assert(s =~= st);
        assert(out + flush(p) =~= out);
    } else {
        let q = p.drop_last();
        assert(s.last() == p[p.len() - 1]);
        assert(s.drop_last() =~= st + q);
        assert(pending_ok(q, prec)) by {
            assert forall|k: int| 0 <= k < q.len() implies {
                &&& (q[k] == Token::Complement || is_binary_op(q[k]))
                &&& prec_of(q[k]) >= prec
            } by {
                assert(q[k] == p[k]);
            }
        }
        lemma_pop_higher_pending(out.push(op_instruction(p.last())), st, q, prec);
        assert(out.push(op_instruction(p.last())) + flush(q) =~= out + flush(p));
    }
}

/// Reading the tokens of an expression, from a state whose operators above
/// the nearest `(` bind less tightly than every binary operator at the top
/// of the expression, emits `emitted(t)` and leaves `pending(t)` on top of
/// the stack.
pub proof fn lemma_sy_infix(out: Seq<Instruction>, st: Seq<Token>, t: Infix)
    requires
        read_by_precedence(t),
        top_region_below(st, loosest(t)),
    ensures
        sy_fold(Some((out, st)), infix_tokens(t)) == Some((out + emitted(t), st + pending(t))),
    decreases t,
{
    match t {
        Infix::Prim(i) => {
            lemma_sy_fold_one(Some((out, st)), Token::Primitive(i));
            assert(out.push(Instruction::PushPrimitive(i)) =~= out + emitted(t));
            assert(st + pending(t) =~= st);
        },
        Infix::Not(a) => {
            let s0 = Some((out, st));
            let one = seq![Token::Complement];
            lemma_sy_fold_concat(s0, one, infix_tokens(*a));
            lemma_sy_fold_one(s0, Token::Complement);
            let st1 = st.push(Token::Complement);
            assert(st1.drop_last() =~= st);
            assert(st1.last() == Token::Complement);
            assert(loosest(*a) == 5u8) by {
                assert(read_by_precedence(*a));
                match *a {
                    Infix::Binary(op, _, _) => {
                        assert(is_binary_op(op));
                        assert(prec_of(op) <= 3);
                    },
                    _ => {},
                }
            }
            assert(top_region_below(st1, loosest(*a)));
            lemma_sy_infix(out, st1, *a);
            assert(st1 + pending(*a) =~= st + pending(t));
        },
        Infix::Binary(op, l, r) => {
            let s0 = Some((out, st));
            let tl = infix_tokens(*l);
            let tr = infix_tokens(*r);
            let prec = prec_of(op);
            lemma_sy_fold_concat(s0, tl + seq![op], tr);
            lemma_sy_fold_concat(s0, tl, seq![op]);
            lemma_top_region_mono(st, prec, loosest(*l));
            lemma_sy_infix(out, st, *l);
            let o1 = out + emitted(*l);
            lemma_sy_fold_one(Some((o1, st + pending(*l))), op);
            lemma_emitted_pending(*l);
            assert(pending_ok(pending(*l), prec)) by {
                let p = pending(*l);
                assert forall|k: int| 0 <= k < p.len() implies {
                    &&& (p[k] == Token::Complement || is_binary_op(p[k]))
                    &&& prec_of(p[k]) >= prec
                } by {
                    assert(prec_of(p[k]) >= binding(*l));
                }
            }
            assert(spec_precedence(op) == Some((prec, Assoc::Left)));
            lemma_pop_higher_pending(o1, st, pending(*l), prec);
            let o2 = o1 + flush(pending(*l));
            assert(o2 =~= out + rpn(infix_expr(*l)));
            let st2 = st.push(op);
            assert(st2.drop_last() =~= st);
            assert(st2.last() == op);
            lemma_top_region_mono(st, prec, loosest(*r));
            assert(prec < loosest(*r));
            assert(top_region_below(st2, loosest(*r)));
            lemma_sy_infix(o2, st2, *r);
            assert(o2 + emitted(*r) =~= out + emitted(t));
            assert(st2 + pending(*r) =~= st + pending(t));
        },
        Infix::Group(a) => {
            let s0 = Some((out, st));
            let ta = infix_tokens(*a);
            lemma_sy_fold_concat(s0, seq![Token::LParen] + ta, seq![Token::RParen]);
            lemma_sy_fold_concat(s0, seq![Token::LParen], ta);
            lemma_sy_fold_one(s0, Token::LParen);
            let st1 = st.push(Token::LParen);
            assert(st1.drop_last() =~= st);
            assert(top_region_below(st1, loosest(*a)));
            lemma_sy_infix(out, st1, *a);
            let o1 = out + emitted(*a);
            lemma_sy_fold_one(Some((o1, st1 + pending(*a))), Token::RParen);
            lemma_emitted_pending(*a);
            lemma_pop_to_lparen_pending(o1, st, pending(*a), binding(*a));
            assert(o1 + flush(pending(*a)) =~= out + emitted(t));
            assert(st + pending(t) =~= st);
        },
    }
}

/// The meaning of an infix expression survives parsing with precedence:
/// for every expression read with `!` tightest, then `*`, `-`, `+`, and
/// left-associative binary operators, the shunting-yard translation of its
/// tokens is the post-order RPN program of that reading, a valid program
/// whose evaluation on every membership mask is the value of the expression.
pub proof fn lemma_precedence_reading_meaning(t: Infix, mask: u64)
    requires
        read_by_precedence(t),
    ensures
        spec_shunting_yard(infix_tokens(t)) == Some(rpn(infix_expr(t))),
        is_valid_rpn(rpn(infix_expr(t))),
        csg_eval(rpn(infix_expr(t)), mask) == expr_eval(infix_expr(t), mask),
{
    let e = Seq::<Instruction>::empty();
    let st = Seq::<Token>::empty();
    lemma_sy_infix(e, st, t);
    assert(e + emitted(t) =~= emitted(t));
    assert(st + pending(t) =~= pending(t));
    lemma_emitted_pending(t);
    lemma_drain_pending(emitted(t), pending(t), binding(t));
    lemma_rpn_valid_meaning(infix_expr(t), mask);
}

/// The same law from the characters of the input: when an input lexes to
/// the tokens of an expression read by precedence, the program that
/// [`crate::csg_parser::parse_csg`] builds from it (the shunting-yard
/// translation of those tokens) is the RPN program of that reading, valid
/// and with the expression's value on every mask.
pub proof fn lemma_parse_reading_meaning(
    input: Seq<char>,
    names: Map<Seq<char>, usize>,
    t: Infix,
    mask: u64,
)
    requires
        lex_from(input, 0, names) == Some(infix_tokens(t)),
        read_by_precedence(t),
    ensures
        spec_shunting_yard(lex_from(input, 0, names)->0) == Some(rpn(infix_expr(t))),
        is_valid_rpn(rpn(infix_expr(t))),
        csg_eval(rpn(infix_expr(t)), mask) == expr_eval(infix_expr(t), mask),
{
    lemma_precedence_reading_meaning(t, mask);
}

} // verus!
