//! CSG expression trees: what a parenthesized infix expression means, and
//! the proof that parsing it yields an RPN program with the same meaning.
use vstd::prelude::*;

use crate::csg::{
    Instruction, arity, csg_eval, depth_after, eval_prefix, eval_step, is_valid_rpn, mask_bit,
    net_effect, no_underflow_before, underflows_at,
};
use crate::csg_parser::{
    Token, op_instruction, pop_higher, pop_to_lparen, spec_precedence, spec_shunting_yard, sy_fold,
    sy_step,
};

verus! {

/// A CSG expression over primitive indices.
pub enum CsgExpr {
    Prim(usize),
    Not(Box<CsgExpr>),
    Union(Box<CsgExpr>, Box<CsgExpr>),
    Intersection(Box<CsgExpr>, Box<CsgExpr>),
    Difference(Box<CsgExpr>, Box<CsgExpr>),
}

/// Point membership: the point is in primitive `i` when bit `i` of `mask` is set.
pub open spec fn expr_eval(e: CsgExpr, mask: u64) -> bool
    decreases e,
{
    match e {
        CsgExpr::Prim(i) => mask_bit(mask, i),
        CsgExpr::Not(a) => !expr_eval(*a, mask),
        CsgExpr::Union(a, b) => expr_eval(*a, mask) || expr_eval(*b, mask),
        CsgExpr::Intersection(a, b) => expr_eval(*a, mask) && expr_eval(*b, mask),
        CsgExpr::Difference(a, b) => expr_eval(*a, mask) && !expr_eval(*b, mask),
    }
}

/// Tokens of the fully parenthesized infix rendering of an expression:
/// `(!a)`, `(a + b)`, `(a * b)`, `(a - b)`.
pub open spec fn paren_tokens(e: CsgExpr) -> Seq<Token>
    decreases e,
{
    match e {
        CsgExpr::Prim(i) => seq![Token::Primitive(i)],
        CsgExpr::Not(a) => seq![Token::LParen, Token::Complement] + paren_tokens(*a) + seq![
            Token::RParen,
        ],
        CsgExpr::Union(a, b) => seq![Token::LParen] + paren_tokens(*a) + seq![Token::Union]
            + paren_tokens(*b) + seq![Token::RParen],
        CsgExpr::Intersection(a, b) => seq![Token::LParen] + paren_tokens(*a) + seq![
            Token::Intersection,
        ] + paren_tokens(*b) + seq![Token::RParen],
        CsgExpr::Difference(a, b) => seq![Token::LParen] + paren_tokens(*a) + seq![
            Token::Difference,
        ] + paren_tokens(*b) + seq![Token::RParen],
    }
}

/// Post-order RPN program of an expression.
pub open spec fn rpn(e: CsgExpr) -> Seq<Instruction>
    decreases e,
{
    match e {
        CsgExpr::Prim(i) => seq![Instruction::PushPrimitive(i)],
        CsgExpr::Not(a) => rpn(*a).push(Instruction::Complement),
        CsgExpr::Union(a, b) => (rpn(*a) + rpn(*b)).push(Instruction::Union),
        CsgExpr::Intersection(a, b) => (rpn(*a) + rpn(*b)).push(Instruction::Intersection),
        CsgExpr::Difference(a, b) => (rpn(*a) + rpn(*b)).push(Instruction::Difference),
    }
}

pub(crate) proof fn lemma_sy_fold_concat(
    state: Option<(Seq<Instruction>, Seq<Token>)>,
    a: Seq<Token>,
    b: Seq<Token>,
)
    ensures
        sy_fold(state, a + b) == sy_fold(sy_fold(state, a), b),
    decreases b.len(),
{
    if b.len() == 0 {
        assert(a + b =~= a);
    } else {
        assert((a + b).drop_last() =~= a + b.drop_last());
        assert((a + b).last() == b.last());
        lemma_sy_fold_concat(state, a, b.drop_last());
    }
}

pub(crate) proof fn lemma_sy_fold_one(state: Option<(Seq<Instruction>, Seq<Token>)>, t: Token)
    ensures
        sy_fold(state, seq![t]) == sy_step(state, t),
{
    assert(seq![t].drop_last() =~= Seq::<Token>::empty());
    assert(seq![t].last() == t);
    assert(sy_fold(state, Seq::<Token>::empty()) == state);
}

proof fn lemma_sy_fold_binary(
    out: Seq<Instruction>,
    st: Seq<Token>,
    a: CsgExpr,
    b: CsgExpr,
    op: Token,
)
    requires
        op == Token::Union || op == Token::Intersection || op == Token::Difference,
        sy_fold(Some((out, st.push(Token::LParen))), paren_tokens(a)) == Some(
            (out + rpn(a), st.push(Token::LParen)),
        ),
        sy_fold(
            Some((out + rpn(a), st.push(Token::LParen).push(op))),
            paren_tokens(b),
        ) == Some((out + rpn(a) + rpn(b), st.push(Token::LParen).push(op))),
    ensures
        sy_fold(
            Some((out, st)),
            seq![Token::LParen] + paren_tokens(a) + seq![op] + paren_tokens(b) + seq![Token::RParen],
        ) == Some((out + (rpn(a) + rpn(b)).push(op_instruction(op)), st)),
{
    let s0 = Some((out, st));
    let t1 = seq![Token::LParen];
    let t2 = paren_tokens(a);
    let t3 = seq![op];
    let t4 = paren_tokens(b);
    let t5 = seq![Token::RParen];
    lemma_sy_fold_concat(s0, t1 + t2 + t3 + t4, t5);
    lemma_sy_fold_concat(s0, t1 + t2 + t3, t4);
    lemma_sy_fold_concat(s0, t1 + t2, t3);
    lemma_sy_fold_concat(s0, t1, t2);
    lemma_sy_fold_one(s0, Token::LParen);
    let stl = st.push(Token::LParen);
    let o1 = out + rpn(a);
    lemma_sy_fold_one(Some((o1, stl)), op);
    assert(stl.last() == Token::LParen);
    let (p, asc) = spec_precedence(op).unwrap();
    assert(pop_higher(o1, stl, p, asc) == (o1, stl));
    let o2 = o1 + rpn(b);
    let st2 = stl.push(op);
    lemma_sy_fold_one(Some((o2, st2)), Token::RParen);
    assert(st2.drop_last() =~= stl);
    assert(stl.drop_last() =~= st);
    assert(pop_to_lparen(o2, st2) == pop_to_lparen(o2.push(op_instruction(op)), stl));
    assert(o2.push(op_instruction(op)) =~= out + (rpn(a) + rpn(b)).push(op_instruction(op)));
}

/// Running the shunting-yard algorithm over the tokens of a parenthesized
/// expression, from any state, appends the expression's RPN program to the
/// output and leaves the operator stack as it was.
pub proof fn lemma_sy_paren_expr(out: Seq<Instruction>, st: Seq<Token>, e: CsgExpr)
    ensures
        sy_fold(Some((out, st)), paren_tokens(e)) == Some((out + rpn(e), st)),
    decreases e,
{
    match e {
        CsgExpr::Prim(i) => {
            lemma_sy_fold_one(Some((out, st)), Token::Primitive(i));
            assert(paren_tokens(e) == seq![Token::Primitive(i)]);
            assert(sy_step(Some((out, st)), Token::Primitive(i)) == Some(
                (out.push(Instruction::PushPrimitive(i)), st),
            ));
            assert(out.push(Instruction::PushPrimitive(i)) =~= out + rpn(e));
        },
        CsgExpr::Not(a) => {
            let s0 = Some((out, st));
            let t1 = seq![Token::LParen, Token::Complement];
            let t2 = paren_tokens(*a);
            let t3 = seq![Token::RParen];
            lemma_sy_fold_concat(s0, t1 + t2, t3);
            lemma_sy_fold_concat(s0, t1, t2);
            lemma_sy_fold_concat(s0, seq![Token::LParen], seq![Token::Complement]);
            assert(seq![Token::LParen] + seq![Token::Complement] =~= t1);
            lemma_sy_fold_one(s0, Token::LParen);
            let stl = st.push(Token::LParen);
            lemma_sy_fold_one(Some((out, stl)), Token::Complement);
            let st2 = stl.push(Token::Complement);
            lemma_sy_paren_expr(out, st2, *a);
            let o1 = out + rpn(*a);
            lemma_sy_fold_one(Some((o1, st2)), Token::RParen);
            assert(st2.drop_last() =~= stl);
            assert(stl.drop_last() =~= st);
            assert(st2.last() == Token::Complement);
            assert(stl.last() == Token::LParen);
            assert(pop_to_lparen(o1, st2) == pop_to_lparen(o1.push(Instruction::Complement), stl));
            assert(pop_to_lparen(o1.push(Instruction::Complement), stl) == Some(
                (o1.push(Instruction::Complement), st),
            ));
            assert(paren_tokens(e) == t1 + t2 + t3);
            assert(o1.push(Instruction::Complement) =~= out + rpn(e));
        },
        CsgExpr::Union(a, b) => {
            lemma_sy_paren_expr(out, st.push(Token::LParen), *a);
            lemma_sy_paren_expr(out + rpn(*a), st.push(Token::LParen).push(Token::Union), *b);
            assert(out + rpn(*a) + rpn(*b) =~= out + (rpn(*a) + rpn(*b)));
            lemma_sy_fold_binary(out, st, *a, *b, Token::Union);
        },
        CsgExpr::Intersection(a, b) => {
            lemma_sy_paren_expr(out, st.push(Token::LParen), *a);
            lemma_sy_paren_expr(
                out + rpn(*a),
                st.push(Token::LParen).push(Token::Intersection),
                *b,
            );
            assert(out + rpn(*a) + rpn(*b) =~= out + (rpn(*a) + rpn(*b)));
            lemma_sy_fold_binary(out, st, *a, *b, Token::Intersection);
        },
        CsgExpr::Difference(a, b) => {
            lemma_sy_paren_expr(out, st.push(Token::LParen), *a);
            lemma_sy_paren_expr(
                out + rpn(*a),
                st.push(Token::LParen).push(Token::Difference),
                *b,
            );
            assert(out + rpn(*a) + rpn(*b) =~= out + (rpn(*a) + rpn(*b)));
            lemma_sy_fold_binary(out, st, *a, *b, Token::Difference);
        },
    }
}

/// The shunting-yard translation of a fully parenthesized infix expression
/// is its post-order RPN program.
pub proof fn lemma_shunting_yard_paren_expr(e: CsgExpr)
    ensures
        spec_shunting_yard(paren_tokens(e)) == Some(rpn(e)),
{
    lemma_sy_paren_expr(Seq::empty(), Seq::empty(), e);
    assert(Seq::<Instruction>::empty() + rpn(e) =~= rpn(e));
}

/// Stack of membership values after running `ins` from stack `st`.
pub open spec fn run_from(st: Seq<bool>, ins: Seq<Instruction>, mask: u64) -> Seq<bool>
    decreases ins.len(),
{
    if ins.len() == 0 {
        st
    } else {
        eval_step(run_from(st, ins.drop_last(), mask), ins.last(), mask)
    }
}

/// Stack depth after running `ins` from depth `d`.
pub open spec fn depth_from(d: int, ins: Seq<Instruction>) -> int
    decreases ins.len(),
{
    if ins.len() == 0 {
        d
    } else {
        depth_from(d, ins.drop_last()) + net_effect(ins.last())
    }
}

/// Running `ins` from depth `d` never pops an empty stack.
pub open spec fn ok_from(d: int, ins: Seq<Instruction>) -> bool
    decreases ins.len(),
{
    if ins.len() == 0 {
        true
    } else {
        ok_from(d, ins.drop_last()) && depth_from(d, ins.drop_last()) >= arity(ins.last())
    }
}

proof fn lemma_run_concat(st: Seq<bool>, a: Seq<Instruction>, b: Seq<Instruction>, mask: u64)
    ensures
        run_from(st, a + b, mask) == run_from(run_from(st, a, mask), b, mask),
        depth_from(st.len() as int, a + b) == depth_from(depth_from(st.len() as int, a), b),
        ok_from(st.len() as int, a + b) == (ok_from(st.len() as int, a) && ok_from(
            depth_from(st.len() as int, a),
            b,
        )),
    decreases b.len(),
{
    if b.len() == 0 {
        assert(a + b =~= a);
    } else {
        assert((a + b).drop_last() =~= a + b.drop_last());
        assert((a + b).last() == b.last());
        lemma_run_concat(st, a, b.drop_last(), mask);
    }
}

proof fn lemma_run_one(st: Seq<bool>, op: Instruction, mask: u64)
    ensures
        run_from(st, seq![op], mask) == eval_step(st, op, mask),
        depth_from(st.len() as int, seq![op]) == st.len() + net_effect(op),
        ok_from(st.len() as int, seq![op]) == (st.len() >= arity(op)),
{
    assert(seq![op].drop_last() =~= Seq::<Instruction>::empty());
    assert(seq![op].last() == op);
    assert(run_from(st, Seq::<Instruction>::empty(), mask) == st);
    assert(depth_from(st.len() as int, Seq::<Instruction>::empty()) == st.len());
    assert(ok_from(st.len() as int, Seq::<Instruction>::empty()));
}

/// Running the RPN program of an expression pushes the expression's value,
/// without touching what lies below, and never underflows.
pub proof fn lemma_rpn_pushes_value(st: Seq<bool>, e: CsgExpr, mask: u64)
    ensures
        run_from(st, rpn(e), mask) == st.push(expr_eval(e, mask)),
        depth_from(st.len() as int, rpn(e)) == st.len() + 1,
        ok_from(st.len() as int, rpn(e)),
    decreases e,
{
    match e {
        CsgExpr::Prim(i) => {
            lemma_run_one(st, Instruction::PushPrimitive(i), mask);
        },
        CsgExpr::Not(a) => {
            lemma_rpn_pushes_value(st, *a, mask);
            let s1 = st.push(expr_eval(*a, mask));
            lemma_run_concat(st, rpn(*a), seq![Instruction::Complement], mask);
            assert(rpn(*a) + seq![Instruction::Complement] =~= rpn(e));
            lemma_run_one(s1, Instruction::Complement, mask);
            assert(s1.drop_last() =~= st);
        },
        CsgExpr::Union(a, b) => {
            lemma_rpn_pushes_value(st, *a, mask);
            lemma_rpn_pushes_value(st.push(expr_eval(*a, mask)), *b, mask);
            lemma_rpn_binary(st, *a, *b, Instruction::Union, mask);
        },
        CsgExpr::Intersection(a, b) => {
            lemma_rpn_pushes_value(st, *a, mask);
            lemma_rpn_pushes_value(st.push(expr_eval(*a, mask)), *b, mask);
            lemma_rpn_binary(st, *a, *b, Instruction::Intersection, mask);
        },
        CsgExpr::Difference(a, b) => {
            lemma_rpn_pushes_value(st, *a, mask);
            lemma_rpn_pushes_value(st.push(expr_eval(*a, mask)), *b, mask);
            lemma_rpn_binary(st, *a, *b, Instruction::Difference, mask);
        },
    }
}

proof fn lemma_rpn_binary(st: Seq<bool>, a: CsgExpr, b: CsgExpr, op: Instruction, mask: u64)
    requires
        op == Instruction::Union || op == Instruction::Intersection || op
            == Instruction::Difference,
        run_from(st, rpn(a), mask) == st.push(expr_eval(a, mask)),
        depth_from(st.len() as int, rpn(a)) == st.len() + 1,
        ok_from(st.len() as int, rpn(a)),
        run_from(st.push(expr_eval(a, mask)), rpn(b), mask) == st.push(expr_eval(a, mask)).push(
            expr_eval(b, mask),
        ),
        depth_from(st.len() + 1int, rpn(b)) == st.len() + 2,
        ok_from(st.len() + 1int, rpn(b)),
    ensures
        run_from(st, (rpn(a) + rpn(b)).push(op), mask) == st.push(
            match op {
                Instruction::Union => expr_eval(a, mask) || expr_eval(b, mask),
                Instruction::Intersection => expr_eval(a, mask) && expr_eval(b, mask),
                _ => expr_eval(a, mask) && !expr_eval(b, mask),
            },
        ),
        depth_from(st.len() as int, (rpn(a) + rpn(b)).push(op)) == st.len() + 1,
        ok_from(st.len() as int, (rpn(a) + rpn(b)).push(op)),
{
    let s1 = st.push(expr_eval(a, mask));
    let s2 = s1.push(expr_eval(b, mask));
    lemma_run_concat(st, rpn(a), rpn(b), mask);
    lemma_run_concat(st, rpn(a) + rpn(b), seq![op], mask);
    assert((rpn(a) + rpn(b)) + seq![op] =~= (rpn(a) + rpn(b)).push(op));
    lemma_run_one(s2, op, mask);
    assert(s2.drop_last().drop_last() =~= st);
}

proof fn lemma_prefix_bridge(ins: Seq<Instruction>, mask: u64, n: int)
    requires
        0 <= n <= ins.len(),
    ensures
        eval_prefix(ins, mask, n) == run_from(Seq::empty(), ins.take(n), mask),
        depth_after(ins, n) == depth_from(0, ins.take(n)),
        no_underflow_before(ins, n) == ok_from(0, ins.take(n)),
    decreases n,
{
    if n == 0 {
        assert(ins.take(0) =~= Seq::<Instruction>::empty());
    } else {
        lemma_prefix_bridge(ins, mask, n - 1);
        assert(ins.take(n).drop_last() =~= ins.take(n - 1));
        assert(ins.take(n).last() == ins[n - 1]);
        if no_underflow_before(ins, n) {
            assert(!underflows_at(ins, n - 1));
        }
        if ok_from(0, ins.take(n)) {
            assert forall|i: int| 0 <= i < n implies !#[trigger] underflows_at(ins, i) by {
                if i < n - 1 {
                    assert(no_underflow_before(ins, n - 1));
                }
            }
        }
    }
}

/// The RPN program of an expression is valid, and its evaluation on every
/// membership mask is the value of the expression.
pub proof fn lemma_rpn_valid_meaning(e: CsgExpr, mask: u64)
    ensures
        is_valid_rpn(rpn(e)),
        csg_eval(rpn(e), mask) == expr_eval(e, mask),
{
    let ins = rpn(e);
    lemma_rpn_pushes_value(Seq::empty(), e, mask);
    lemma_prefix_bridge(ins, mask, ins.len() as int);
    assert(ins.take(ins.len() as int) =~= ins);
    assert(Seq::<bool>::empty().push(expr_eval(e, mask))[0] == expr_eval(e, mask));
}

/// The meaning of a parenthesized CSG expression survives parsing: the
/// shunting-yard translation of its tokens is a valid RPN program whose
/// evaluation on every membership mask is the value of the expression.
pub proof fn lemma_parsed_expr_meaning(e: CsgExpr, mask: u64)
    ensures
        spec_shunting_yard(paren_tokens(e)) == Some(rpn(e)),
        is_valid_rpn(rpn(e)),
        csg_eval(rpn(e), mask) == expr_eval(e, mask),
{
    lemma_shunting_yard_paren_expr(e);
    lemma_rpn_valid_meaning(e, mask);
}

} // verus!
