//! Infix CSG expressions (`a + b * !(c - d)`) turned into RPN programs by a
//! lexer and the shunting-yard algorithm.
use vstd::prelude::*;

use crate::csg::{FlatCSG, Instruction};
use crate::names::NameMap;
use crate::std_specs::{char_is_alphanumeric, debug_str, str_debug};

verus! {

/// A lexical token of a CSG expression.
#[derive(Debug, Clone, Copy, PartialEq, Eq, Structural)]
pub enum Token {
    Primitive(usize),
    /// `+`
    Union,
    /// `*`
    Intersection,
    /// `-`
    Difference,
    /// `!`
    Complement,
    /// `(`
    LParen,
    /// `)`
    RParen,
}

/// Associativity of an operator.
#[derive(Debug, Clone, Copy, PartialEq, Eq, Structural)]
pub enum Assoc {
    Left,
    Right,
}

/// Errors of [`parse_csg`].
#[derive(Debug)]
pub enum CSGParseError {
    LexError(String),
    ShuntingYardError(String),
}

/// Binding strength and associativity of the operators; none for the rest.
pub open spec fn spec_precedence(token: Token) -> Option<(u8, Assoc)> {
    match token {
        Token::Union => Some((1u8, Assoc::Left)),
        Token::Difference => Some((2u8, Assoc::Left)),
        Token::Intersection => Some((3u8, Assoc::Left)),
        Token::Complement => Some((4u8, Assoc::Right)),
        _ => None,
    }
}

fn precedence(token: &Token) -> (r: Option<(u8, Assoc)>)
    ensures
        r == spec_precedence(*token),
{
    match token {
        Token::Union => Some((1, Assoc::Left)),
        Token::Difference => Some((2, Assoc::Left)),
        Token::Intersection => Some((3, Assoc::Left)),
        Token::Complement => Some((4, Assoc::Right)),
        _ => None,
    }
}

// ---------------------------------------------------------------------------
// Lexer
// ---------------------------------------------------------------------------
/// Whitespace between tokens: space, tab, carriage return, line feed.
pub open spec fn is_space(c: char) -> bool {
    c == ' ' || c == '\t' || c == '\r' || c == '\n'
}

/// Characters of a primitive name.
pub open spec fn is_ident_char(c: char) -> bool {
    if (c as u32) < 128 {
        ascii_name_char(c)
    } else {
        char_is_alphanumeric(c)
    }
}

/// The ASCII characters of names: letters, digits and `_`.
pub open spec fn ascii_name_char(c: char) -> bool {
    ||| 'a' <= c && c <= 'z'
    ||| 'A' <= c && c <= 'Z'
    ||| '0' <= c && c <= '9'
    ||| c == '_'
}

/// The token of a one-character operator or parenthesis.
pub open spec fn operator_token(c: char) -> Option<Token> {
    if c == '(' {
        Some(Token::LParen)
    } else if c == ')' {
        Some(Token::RParen)
    } else if c == '+' {
        Some(Token::Union)
    } else if c == '*' {
        Some(Token::Intersection)
    } else if c == '-' {
        Some(Token::Difference)
    } else if c == '!' {
        Some(Token::Complement)
    } else {
        None
    }
}

/// End of the longest run of name characters starting at `i`.
pub open spec fn ident_end(s: Seq<char>, i: int) -> int
    decreases s.len() - i,
{
    if 0 <= i < s.len() && is_ident_char(s[i]) {
        ident_end(s, i + 1)
    } else {
        i
    }
}

/// Tokens of `s` from position `i` on; `None` when a character starts no
/// token or a name is not in `names`.
pub open spec fn lex_from(s: Seq<char>, i: int, names: Map<Seq<char>, usize>) -> Option<
    Seq<Token>,
>
    decreases s.len() - i,
{
    if i < 0 || i >= s.len() {
        Some(Seq::empty())
    } else if is_space(s[i]) {
        lex_from(s, i + 1, names)
    } else {
        match operator_token(s[i]) {
            Some(t) => match lex_from(s, i + 1, names) {
                Some(rest) => Some(seq![t] + rest),
                None => None,
            },
            None => {
                let e = ident_end(s, i);
                if e <= i || e > s.len() {
                    None
                } else if names.contains_key(s.subrange(i, e)) {
                    match lex_from(s, e, names) {
                        Some(rest) => Some(seq![Token::Primitive(names[s.subrange(i, e)])] + rest),
                        None => None,
                    }
                } else {
                    None
                }
            },
        }
    }
}

proof fn lemma_ident_run(s: Seq<char>, i: int, j: int)
    requires
        0 <= i <= j <= s.len(),
        forall|k: int| i <= k < j ==> is_ident_char(#[trigger] s[k]),
        j == s.len() || !is_ident_char(s[j]),
    ensures
        ident_end(s, i) == j,
    decreases j - i,
{
    if i < j {
        lemma_ident_run(s, i + 1, j);
    }
}

/// A name written with ASCII letters, digits and `_` only.
pub open spec fn plain_name(x: Seq<char>) -> bool {
    &&& x.len() > 0
    &&& forall|k: int|
        0 <= k < x.len() ==> {
            let c = #[trigger] x[k];
            ||| 'a' <= c && c <= 'z'
            ||| 'A' <= c && c <= 'Z'
            ||| '0' <= c && c <= '9'
            ||| c == '_'
        }
}

/// Lexing a known plain name from position `i`, up to a character that is
/// not a name character (or the end), gives its primitive token.
proof fn lemma_lex_name(s: Seq<char>, i: int, x: Seq<char>, names: Map<Seq<char>, usize>)
    requires
        plain_name(x),
        names.contains_key(x),
        0 <= i,
        i + x.len() <= s.len(),
        s.subrange(i, i + x.len()) == x,
        i + x.len() == s.len() || !is_ident_char(s[i + x.len()]),
    ensures
        lex_from(s, i, names) == match lex_from(s, i + x.len(), names) {
            Some(rest) => Some(seq![Token::Primitive(names[x])] + rest),
            None => None,
        },
{
    let j = i + x.len();
    assert forall|k: int| i <= k < j implies is_ident_char(#[trigger] s[k]) by {
        assert(s[k] == x[k - i]);
        assert(x[k - i] == s.subrange(i, j)[k - i]);
    }
    lemma_ident_run(s, i, j);
    assert(s[i] == x[0]);
    assert(!is_space(s[i]));
    assert(operator_token(s[i]) is None);
}

/// `-` (like `+` and `*`) never belongs to a name: between two known names
/// written with letters, digits and `_`, an operator character lexes to its
/// operator token, so `x-y` is `x`, a difference, then `y`.
pub proof fn lemma_lex_names_around_operator(
    x: Seq<char>,
    op: char,
    y: Seq<char>,
    names: Map<Seq<char>, usize>,
)
    requires
        plain_name(x),
        plain_name(y),
        names.contains_key(x),
        names.contains_key(y),
        op == '-' || op == '+' || op == '*',
    ensures
        lex_from(x + seq![op] + y, 0, names) == Some(
            seq![
                Token::Primitive(names[x]),
                if op == '-' {
                    Token::Difference
                } else if op == '+' {
                    Token::Union
                } else {
                    Token::Intersection
                },
                Token::Primitive(names[y]),
            ],
        ),
{
    let s = x + seq![op] + y;
    let n = x.len() as int;
    let t = if op == '-' {
        Token::Difference
    } else if op == '+' {
        Token::Union
    } else {
        Token::Intersection
    };
    assert(s.subrange(0, n) =~= x);
    assert(s[n] == op);
    assert(!is_ident_char(op));
    assert(s.subrange(n + 1, s.len() as int) =~= y);
    assert(lex_from(s, s.len() as int, names) == Some(Seq::<Token>::empty()));
    lemma_lex_name(s, n + 1, y, names);
    assert(seq![Token::Primitive(names[y])] + Seq::<Token>::empty() =~= seq![
        Token::Primitive(names[y]),
    ]);
    assert(!is_space(s[n]));
    assert(operator_token(s[n]) == Some(t));
    assert(lex_from(s, n, names) == Some(seq![t] + seq![Token::Primitive(names[y])]));
    lemma_lex_name(s, 0, x, names);
    assert(seq![Token::Primitive(names[x])] + (seq![t] + seq![Token::Primitive(names[y])])
        =~= seq![Token::Primitive(names[x]), t, Token::Primitive(names[y])]);
}

/// The message for input that starts no token at all: `rest` is the input
/// from the offending character on.
pub open spec fn no_token_message(rest: Seq<char>) -> Seq<char> {
    "Error(Error { input: "@ + str_debug(rest) + ", code: TakeWhile1 })"@
}

/// The message for a name that is not a known primitive: `rest` is the
/// input from the start of the name on.
pub open spec fn unknown_name_message(rest: Seq<char>) -> Seq<char> {
    "Failure(Error { input: "@ + str_debug(rest) + ", code: Tag })"@
}

/// The message of the first lexing failure in `s` from position `i` on.
pub open spec fn lex_error(s: Seq<char>, i: int, names: Map<Seq<char>, usize>) -> Seq<char>
    decreases s.len() - i,
{
    if i < 0 || i >= s.len() {
        Seq::empty()
    } else if is_space(s[i]) {
        lex_error(s, i + 1, names)
    } else {
        match operator_token(s[i]) {
            Some(_) => lex_error(s, i + 1, names),
            None => {
                let e = ident_end(s, i);
                if e <= i || e > s.len() {
                    no_token_message(s.subrange(i, s.len() as int))
                } else if names.contains_key(s.subrange(i, e)) {
                    lex_error(s, e, names)
                } else {
                    unknown_name_message(s.subrange(i, s.len() as int))
                }
            },
        }
    }
}

/// The characters of a string, in order.
pub(crate) fn str_chars(s: &str) -> (v: Vec<char>)
    ensures
        v@ == s@,
{
    broadcast use vstd::string::group_string_axioms;

    let mut v: Vec<char> = Vec::new();
    for c in it: s.chars()
        invariant
            it.seq() == s@,
            v@ == it.seq().take(it.index()),
    {
        v.push(c);
    }
    v
}

/// The string made of `chars[from..to]`.
pub(crate) fn string_of(chars: &Vec<char>, from: usize, to: usize) -> (r: String)
    requires
        from <= to <= chars@.len(),
    ensures
        r@ == chars@.subrange(from as int, to as int),
{
    let mut out = String::new();
    let mut k: usize = from;
    while k < to
        invariant
            from <= k <= to <= chars@.len(),
            out@ == chars@.subrange(from as int, k as int),
        decreases to - k,
    {
        out.push(chars[k]);
        assert(chars@.subrange(from as int, k + 1) =~= chars@.subrange(from as int, k as int).push(
            chars@[k as int],
        ));
        k = k + 1;
    }
    out
}

fn tokenize(input: &str, prim_map: &NameMap) -> (r: Result<Vec<Token>, CSGParseError>)
    requires
        prim_map.wf(),
    ensures
        match lex_from(input@, 0, prim_map@) {
            Some(t) => r matches Ok(v) && v@ == t,
            None => r matches Err(CSGParseError::LexError(m)) && m@ == lex_error(
                input@,
                0,
                prim_map@,
            ),
        },
{
    let chars = str_chars(input);
    let ghost s = chars@;
    let ghost m = prim_map@;
    let n = chars.len();
    let mut tokens: Vec<Token> = Vec::new();
    let mut i: usize = 0;
    while i < n
        invariant
            s == chars@,
            s == input@,
            m == prim_map@,
            n == s.len(),
            0 <= i <= n,
            prim_map.wf(),
            lex_from(s, 0, m) == match lex_from(s, i as int, m) {
                Some(rest) => Some(tokens@ + rest),
                None => None,
            },
            lex_from(s, i as int, m) is None ==> lex_error(s, 0, m) == lex_error(s, i as int, m),
        decreases n - i,
    {
        let c = chars[i];
        if c == ' ' || c == '\t' || c == '\r' || c == '\n' {
            i = i + 1;
        } else {
            let op = if c == '(' {
                Some(Token::LParen)
            } else if c == ')' {
                Some(Token::RParen)
            } else if c == '+' {
                Some(Token::Union)
            } else if c == '*' {
                Some(Token::Intersection)
            } else if c == '-' {
                Some(Token::Difference)
            } else if c == '!' {
                Some(Token::Complement)
            } else {
                None
            };
            assert(op == operator_token(c));
            match op {
                Some(t) => {
                    proof {
                        if let Some(rest) = lex_from(s, i + 1, m) {
                            assert(tokens@ + (seq![t] + rest) =~= tokens@.push(t) + rest);
                        }
                    }
                    tokens.push(t);
                    i = i + 1;
                },
                None => {
                    let mut name = String::new();
                    let mut j: usize = i;
                    loop
                        invariant
                            s == chars@,
                            n == s.len(),
                            i <= j <= n,
                            ident_end(s, i as int) == ident_end(s, j as int),
                            name@ == s.subrange(i as int, j as int),
                        ensures
                            i <= j <= n,
                            ident_end(s, i as int) == j,
                            name@ == s.subrange(i as int, j as int),
                        decreases n - j,
                    {
                        if j >= n {
                            break ;
                        }
                        let d = chars[j];
                        if !(d.is_alphanumeric() || d == '_') {
                            break ;
                        }
                        name.push(d);
                        proof {
                            assert(s.subrange(i as int, j + 1) =~= s.subrange(i as int, j as int).push(
                                d,
                            ));
                        }
                        j = j + 1;
                    }
                    if j == i {
                        let rest = string_of(&chars, i, n);
                        let shown = debug_str(rest.as_str());
                        let mut msg = String::from_str("Error(Error { input: ");
                        msg.append(shown.as_str());
                        msg.append(", code: TakeWhile1 })");
                        return Err(CSGParseError::LexError(msg));
                    }
                    match prim_map.get(&name) {
                        None => {
                            let rest = string_of(&chars, i, n);
                            let shown = debug_str(rest.as_str());
                            let mut msg = String::from_str("Failure(Error { input: ");
                            msg.append(shown.as_str());
                            msg.append(", code: Tag })");
                            return Err(CSGParseError::LexError(msg));
                        },
                        Some(idx) => {
                            proof {
                                if let Some(rest) = lex_from(s, j as int, m) {
                                    assert(tokens@ + (seq![Token::Primitive(idx)] + rest)
                                        =~= tokens@.push(Token::Primitive(idx)) + rest);
                                }
                            }
                            tokens.push(Token::Primitive(idx));
                            i = j;
                        },
                    }
                },
            }
        }
    }
    assert(tokens@ + Seq::<Token>::empty() =~= tokens@);
    Ok(tokens)
}

// ---------------------------------------------------------------------------
// Shunting yard
// ---------------------------------------------------------------------------
/// The instruction an operator token becomes.
pub open spec fn op_instruction(t: Token) -> Instruction {
    match t {
        Token::Intersection => Instruction::Intersection,
        Token::Difference => Instruction::Difference,
        Token::Complement => Instruction::Complement,
        _ => Instruction::Union,
    }
}

/// The operator stack holds only operators and opening parentheses.
pub open spec fn ops_only(st: Seq<Token>) -> bool {
    forall|k: int|
        0 <= k < st.len() ==> !(#[trigger] st[k] is Primitive) && !(st[k] is RParen)
}

/// Pops into the output every operator above the nearest `(` that binds at
/// least as strongly as an incoming operator of precedence `prec`.
pub open spec fn pop_higher(out: Seq<Instruction>, st: Seq<Token>, prec: u8, assoc: Assoc) -> (
    Seq<Instruction>,
    Seq<Token>,
)
    decreases st.len(),
{
    if st.len() == 0 {
        (out, st)
    } else {
        let top = st.last();
        if top == Token::LParen {
            (out, st)
        } else {
            let top_prec = match spec_precedence(top) {
                Some((p, _)) => p,
                None => 0u8,
            };
            let should_pop = match assoc {
                Assoc::Left => top_prec >= prec,
                Assoc::Right => top_prec > prec,
            };
            if !should_pop {
                (out, st)
            } else {
                pop_higher(out.push(op_instruction(top)), st.drop_last(), prec, assoc)
            }
        }
    }
}

/// Pops operators into the output up to and including the nearest `(`;
/// `None` when there is no `(`.
pub open spec fn pop_to_lparen(out: Seq<Instruction>, st: Seq<Token>) -> Option<
    (Seq<Instruction>, Seq<Token>),
>
    decreases st.len(),
{
    if st.len() == 0 {
        None
    } else if st.last() == Token::LParen {
        Some((out, st.drop_last()))
    } else {
        pop_to_lparen(out.push(op_instruction(st.last())), st.drop_last())
    }
}

/// One token of the shunting-yard algorithm on (output, operator stack).
pub open spec fn sy_step(state: Option<(Seq<Instruction>, Seq<Token>)>, t: Token) -> Option<
    (Seq<Instruction>, Seq<Token>),
> {
    match state {
        None => None,
        Some((out, st)) => match t {
            Token::Primitive(idx) => Some((out.push(Instruction::PushPrimitive(idx)), st)),
            Token::Complement => Some((out, st.push(t))),
            Token::LParen => Some((out, st.push(t))),
            Token::RParen => pop_to_lparen(out, st),
            _ => {
                let (prec, assoc) = spec_precedence(t).unwrap();
                let (out2, st2) = pop_higher(out, st, prec, assoc);
                Some((out2, st2.push(t)))
            },
        },
    }
}

/// The shunting-yard state after a sequence of tokens.
pub open spec fn sy_fold(state: Option<(Seq<Instruction>, Seq<Token>)>, toks: Seq<Token>) -> Option<
    (Seq<Instruction>, Seq<Token>),
>
    decreases toks.len(),
{
    if toks.len() == 0 {
        state
    } else {
        sy_step(sy_fold(state, toks.drop_last()), toks.last())
    }
}

/// Empties the operator stack into the output; `None` on a leftover `(`.
pub open spec fn drain(out: Seq<Instruction>, st: Seq<Token>) -> Option<Seq<Instruction>>
    decreases st.len(),
{
    if st.len() == 0 {
        Some(out)
    } else if st.last() == Token::LParen {
        None
    } else {
        drain(out.push(op_instruction(st.last())), st.drop_last())
    }
}

/// The RPN program of a token sequence; `None` on mismatched parentheses.
pub open spec fn spec_shunting_yard(toks: Seq<Token>) -> Option<Seq<Instruction>> {
    match sy_fold(Some((Seq::empty(), Seq::empty())), toks) {
        None => None,
        Some((out, st)) => drain(out, st),
    }
}

/// Primitive indices of the tokens, in order.
pub open spec fn operand_ids(toks: Seq<Token>) -> Seq<usize>
    decreases toks.len(),
{
    if toks.len() == 0 {
        Seq::empty()
    } else {
        match toks.last() {
            Token::Primitive(i) => operand_ids(toks.drop_last()).push(i),
            _ => operand_ids(toks.drop_last()),
        }
    }
}

/// Primitive indices pushed by a program, in order.
pub open spec fn pushed_ids(ins: Seq<Instruction>) -> Seq<usize>
    decreases ins.len(),
{
    if ins.len() == 0 {
        Seq::empty()
    } else {
        match ins.last() {
            Instruction::PushPrimitive(i) => pushed_ids(ins.drop_last()).push(i),
            _ => pushed_ids(ins.drop_last()),
        }
    }
}

/// Number of tokens that are not parentheses.
pub open spec fn non_paren_count(toks: Seq<Token>) -> int
    decreases toks.len(),
{
    if toks.len() == 0 {
        0
    } else if toks.last() == Token::LParen || toks.last() == Token::RParen {
        non_paren_count(toks.drop_last())
    } else {
        non_paren_count(toks.drop_last()) + 1
    }
}

/// Number of operators (not parentheses) waiting on the operator stack.
pub open spec fn pending_ops(st: Seq<Token>) -> int
    decreases st.len(),
{
    if st.len() == 0 {
        0
    } else if st.last() == Token::LParen {
        pending_ops(st.drop_last())
    } else {
        pending_ops(st.drop_last()) + 1
    }
}

proof fn lemma_ops_only_drop_last(st: Seq<Token>)
    requires
        ops_only(st),
        st.len() > 0,
    ensures
        ops_only(st.drop_last()),
        !(st.last() is Primitive) && !(st.last() is RParen),
{
    assert(st[st.len() - 1] == st.last());
    assert forall|k: int| 0 <= k < st.drop_last().len() implies !(#[trigger] st.drop_last()[k] is Primitive)
        && !(st.drop_last()[k] is RParen) by {
        assert(st.drop_last()[k] == st[k]);
    }
}

proof fn lemma_ops_only_push(st: Seq<Token>, t: Token)
    requires
        ops_only(st),
        !(t is Primitive) && !(t is RParen),
    ensures
        ops_only(st.push(t)),
{
    assert forall|k: int| 0 <= k < st.push(t).len() implies !(#[trigger] st.push(t)[k] is Primitive)
        && !(st.push(t)[k] is RParen) by {
        if k < st.len() {
            assert(st.push(t)[k] == st[k]);
        }
    }
}

proof fn lemma_pushed_ids_op(out: Seq<Instruction>, t: Token)
    ensures
        pushed_ids(out.push(op_instruction(t))) == pushed_ids(out),
{
    assert(out.push(op_instruction(t)).drop_last() =~= out);
}

proof fn lemma_pop_higher_accounting(out: Seq<Instruction>, st: Seq<Token>, prec: u8, assoc: Assoc)
    requires
        ops_only(st),
    ensures
        ({
            let (o2, s2) = pop_higher(out, st, prec, assoc);
            &&& ops_only(s2)
            &&& o2.len() + pending_ops(s2) == out.len() + pending_ops(st)
            &&& pushed_ids(o2) == pushed_ids(out)
        }),
    decreases st.len(),
{
    if st.len() > 0 && st.last() != Token::LParen {
        lemma_ops_only_drop_last(st);
        lemma_pushed_ids_op(out, st.last());
        lemma_pop_higher_accounting(out.push(op_instruction(st.last())), st.drop_last(), prec, assoc);
    }
}

proof fn lemma_pop_to_lparen_accounting(out: Seq<Instruction>, st: Seq<Token>)
    requires
        ops_only(st),
    ensures
        pop_to_lparen(out, st) matches Some((o2, s2)) ==> {
            &&& ops_only(s2)
            &&& o2.len() + pending_ops(s2) == out.len() + pending_ops(st)
            &&& pushed_ids(o2) == pushed_ids(out)
        },
    decreases st.len(),
{
    if st.len() > 0 {
        lemma_ops_only_drop_last(st);
        if st.last() != Token::LParen {
            lemma_pushed_ids_op(out, st.last());
            lemma_pop_to_lparen_accounting(out.push(op_instruction(st.last())), st.drop_last());
        }
    }
}

proof fn lemma_drain_accounting(out: Seq<Instruction>, st: Seq<Token>)
    requires
        ops_only(st),
    ensures
        drain(out, st) matches Some(o2) ==> {
            &&& o2.len() == out.len() + pending_ops(st)
            &&& pushed_ids(o2) == pushed_ids(out)
        },
    decreases st.len(),
{
    if st.len() > 0 && st.last() != Token::LParen {
        lemma_ops_only_drop_last(st);
        lemma_pushed_ids_op(out, st.last());
        lemma_drain_accounting(out.push(op_instruction(st.last())), st.drop_last());
    }
}

proof fn lemma_sy_fold_accounting(toks: Seq<Token>)
    ensures
        sy_fold(Some((Seq::empty(), Seq::empty())), toks) matches Some((out, st)) ==> {
            &&& ops_only(st)
            &&& out.len() + pending_ops(st) == non_paren_count(toks)
            &&& pushed_ids(out) == operand_ids(toks)
        },
    decreases toks.len(),
{
    if toks.len() > 0 {
        let prev = toks.drop_last();
        let t = toks.last();
        lemma_sy_fold_accounting(prev);
        if let Some((out, st)) = sy_fold(Some((Seq::empty(), Seq::empty())), prev) {
            match t {
                Token::Primitive(i) => {
                    assert(out.push(Instruction::PushPrimitive(i)).drop_last() =~= out);
                },
                Token::Complement => {
                    lemma_ops_only_push(st, t);
                    assert(st.push(t).drop_last() =~= st);
                },
                Token::LParen => {
                    lemma_ops_only_push(st, t);
                    assert(st.push(t).drop_last() =~= st);
                },
                Token::RParen => {
                    lemma_pop_to_lparen_accounting(out, st);
                },
                _ => {
                    let (prec, assoc) = spec_precedence(t).unwrap();
                    lemma_pop_higher_accounting(out, st, prec, assoc);
                    let (o2, s2) = pop_higher(out, st, prec, assoc);
                    lemma_ops_only_push(s2, t);
                    assert(s2.push(t).drop_last() =~= s2);
                },
            }
        }
    }
}

/// Whatever the token sequence, a successful shunting-yard translation emits
/// one instruction per token that is not a parenthesis, and pushes the
/// primitives in the order in which they appear in the expression.
pub proof fn lemma_shunting_yard_accounting(toks: Seq<Token>)
    ensures
        spec_shunting_yard(toks) matches Some(ins) ==> {
            &&& ins.len() == non_paren_count(toks)
            &&& pushed_ids(ins) == operand_ids(toks)
        },
{
    lemma_sy_fold_accounting(toks);
    if let Some((out, st)) = sy_fold(Some((Seq::empty(), Seq::empty())), toks) {
        lemma_drain_accounting(out, st);
    }
}

/// The text of the error for mismatched parentheses.
pub open spec fn mismatched_parentheses_message() -> Seq<char> {
    "Mismatched parentheses"@
}

/// The decimal digit `d` (0 to 9).
pub open spec fn digit_char(d: nat) -> char {
    if d == 0 {
        '0'
    } else if d == 1 {
        '1'
    } else if d == 2 {
        '2'
    } else if d == 3 {
        '3'
    } else if d == 4 {
        '4'
    } else if d == 5 {
        '5'
    } else if d == 6 {
        '6'
    } else if d == 7 {
        '7'
    } else if d == 8 {
        '8'
    } else {
        '9'
    }
}

/// The decimal rendering of `n`, without leading zeros.
pub open spec fn decimal(n: nat) -> Seq<char>
    decreases n,
{
    if n < 10 {
        seq![digit_char(n)]
    } else {
        decimal(n / 10).push(digit_char(n % 10))
    }
}

/// Appends the decimal rendering of `n` to `out`.
fn push_decimal(n: usize, out: &mut String)
    ensures
        final(out)@ == old(out)@ + decimal(n as nat),
    decreases n,
{
    if n >= 10 {
        push_decimal(n / 10, out);
    }
    let d = n % 10;
    let c = match d {
        0 => '0',
        1 => '1',
        2 => '2',
        3 => '3',
        4 => '4',
        5 => '5',
        6 => '6',
        7 => '7',
        8 => '8',
        _ => '9',
    };
    let ghost before = out@;
    out.push(c);
    proof {
        assert(c == digit_char(d as nat));
        if n < 10 {
            assert(before == old(out)@);
            assert(old(out)@.push(c) =~= old(out)@ + seq![c]);
        } else {
            assert(before == old(out)@ + decimal((n / 10) as nat));
            assert(before.push(c) =~= old(out)@ + decimal((n / 10) as nat).push(c));
        }
    }
}

/// The text of the error for a token that cannot be an operator.
pub open spec fn operator_position_message(token: Token) -> Seq<char> {
    "Unexpected token in operator position: "@ + match token {
        Token::Primitive(i) => "Primitive("@ + decimal(i as nat) + ")"@,
        Token::LParen => "LParen"@,
        Token::RParen => "RParen"@,
        Token::Union => "Union"@,
        Token::Intersection => "Intersection"@,
        Token::Difference => "Difference"@,
        Token::Complement => "Complement"@,
    }
}

fn token_to_instruction(token: Token) -> (r: Result<Instruction, CSGParseError>)
    ensures
        match token {
            Token::Union => r == Ok::<Instruction, CSGParseError>(Instruction::Union),
            Token::Intersection => r == Ok::<Instruction, CSGParseError>(
                Instruction::Intersection,
            ),
            Token::Difference => r == Ok::<Instruction, CSGParseError>(Instruction::Difference),
            Token::Complement => r == Ok::<Instruction, CSGParseError>(Instruction::Complement),
            _ => r matches Err(CSGParseError::ShuntingYardError(m)) && m@
                == operator_position_message(token),
        },
{
    match token {
        Token::Union => Ok(Instruction::Union),
        Token::Intersection => Ok(Instruction::Intersection),
        Token::Difference => Ok(Instruction::Difference),
        Token::Complement => Ok(Instruction::Complement),
        Token::LParen => {
            proof {
                reveal_strlit("Unexpected token in operator position: LParen");
                reveal_strlit("Unexpected token in operator position: ");
                reveal_strlit("LParen");
                assert("Unexpected token in operator position: LParen"@ =~= "Unexpected token in operator position: "@
                    + "LParen"@);
            }
            Err(
                CSGParseError::ShuntingYardError(
                    String::from_str("Unexpected token in operator position: LParen"),
                ),
            )
        },
        Token::RParen => {
            proof {
                reveal_strlit("Unexpected token in operator position: RParen");
                reveal_strlit("Unexpected token in operator position: ");
                reveal_strlit("RParen");
                assert("Unexpected token in operator position: RParen"@ =~= "Unexpected token in operator position: "@
                    + "RParen"@);
            }
            Err(
                CSGParseError::ShuntingYardError(
                    String::from_str("Unexpected token in operator position: RParen"),
                ),
            )
        },
        Token::Primitive(i) => {
            let mut msg = String::from_str("Unexpected token in operator position: Primitive(");
            push_decimal(i, &mut msg);
            msg.append(")");
            proof {
                reveal_strlit("Unexpected token in operator position: Primitive(");
                reveal_strlit("Unexpected token in operator position: ");
                reveal_strlit("Primitive(");
                assert("Unexpected token in operator position: Primitive("@ =~= "Unexpected token in operator position: "@
                    + "Primitive("@);
            }
            Err(CSGParseError::ShuntingYardError(msg))
        },
    }
}

fn mismatched_parentheses() -> (e: CSGParseError)
    ensures
        e matches CSGParseError::ShuntingYardError(m) && m@ == mismatched_parentheses_message(),
{
    CSGParseError::ShuntingYardError(String::from_str("Mismatched parentheses"))
}

/// Pops the top operator of a non-empty stack into the output.
fn pop_operator(output: &mut Vec<Instruction>, op_stack: &mut Vec<Token>)
    requires
        old(op_stack)@.len() > 0,
        ops_only(old(op_stack)@),
        old(op_stack)@.last() != Token::LParen,
    ensures
        final(output)@ == old(output)@.push(op_instruction(old(op_stack)@.last())),
        final(op_stack)@ == old(op_stack)@.drop_last(),
        ops_only(final(op_stack)@),
{
    let top = op_stack.pop().unwrap();
    assert(!(top is Primitive) && !(top is RParen)) by {
        assert(old(op_stack)@[old(op_stack)@.len() - 1] == top);
    }
    match token_to_instruction(top) {
        Ok(ins) => {
            output.push(ins);
        },
        Err(_) => {},
    }
}

proof fn lemma_sy_none(toks: Seq<Token>, k: int, n: int)
    requires
        0 <= k <= n <= toks.len(),
        sy_fold(Some((Seq::empty(), Seq::empty())), toks.take(k)) is None,
    ensures
        sy_fold(Some((Seq::empty(), Seq::empty())), toks.take(n)) is None,
    decreases n - k,
{
    if k < n {
        assert(toks.take(k + 1).drop_last() =~= toks.take(k));
        lemma_sy_none(toks, k + 1, n);
    }
}

fn shunting_yard(tokens: Vec<Token>) -> (r: Result<Vec<Instruction>, CSGParseError>)
    ensures
        match spec_shunting_yard(tokens@) {
            Some(ins) => r matches Ok(v) && v@ == ins,
            None => r matches Err(CSGParseError::ShuntingYardError(m)) && m@
                == mismatched_parentheses_message(),
        },
{
    let ghost toks = tokens@;
    let mut output: Vec<Instruction> = Vec::new();
    let mut op_stack: Vec<Token> = Vec::new();
    let mut t: usize = 0;
    assert(toks.take(0) =~= Seq::<Token>::empty());
    while t < tokens.len()
        invariant
            toks == tokens@,
            0 <= t <= toks.len(),
            sy_fold(Some((Seq::empty(), Seq::empty())), toks.take(t as int)) == Some(
                (output@, op_stack@),
            ),
            ops_only(op_stack@),
        decreases toks.len() - t,
    {
        let token = tokens[t];
        let ghost out0 = output@;
        let ghost st0 = op_stack@;
        proof {
            assert(toks.take(t + 1).drop_last() =~= toks.take(t as int));
            assert(toks.take(t + 1).last() == token);
        }
        match token {
            Token::Primitive(idx) => {
                output.push(Instruction::PushPrimitive(idx));
            },
            Token::Complement => {
                op_stack.push(token);
            },
            Token::LParen => {
                op_stack.push(token);
            },
            Token::RParen => {
                loop
                    invariant
                        toks == tokens@,
                        0 <= t < toks.len(),
                        token == toks[t as int],
                        token == Token::RParen,
                        sy_fold(Some((Seq::empty(), Seq::empty())), toks.take(t as int)) == Some(
                            (out0, st0),
                        ),
                        ops_only(op_stack@),
                        pop_to_lparen(out0, st0) == pop_to_lparen(output@, op_stack@),
                    ensures
                        ops_only(op_stack@),
                        op_stack@.len() > 0,
                        op_stack@.last() == Token::LParen,
                        pop_to_lparen(out0, st0) == pop_to_lparen(output@, op_stack@),
                    decreases op_stack@.len(),
                {
                    if op_stack.len() == 0 {
                        proof {
                            assert(toks.take(t + 1).drop_last() =~= toks.take(t as int));
                            assert(toks.take(t + 1).last() == token);
                            lemma_sy_none(toks, t + 1, toks.len() as int);
                            assert(toks.take(toks.len() as int) =~= toks);
                        }
                        return Err(mismatched_parentheses());
                    }
                    if op_stack[op_stack.len() - 1] == Token::LParen {
                        break ;
                    }
                    pop_operator(&mut output, &mut op_stack);
                }
                op_stack.pop();
            },
            _ => {
                let (prec, assoc) = precedence(&token).unwrap();
                loop
                    invariant
                        ops_only(op_stack@),
                        pop_higher(out0, st0, prec, assoc) == pop_higher(
                            output@,
                            op_stack@,
                            prec,
                            assoc,
                        ),
                    ensures
                        ops_only(op_stack@),
                        pop_higher(out0, st0, prec, assoc) == (output@, op_stack@),
                    decreases op_stack@.len(),
                {
                    if op_stack.len() == 0 {
                        break ;
                    }
                    let top = op_stack[op_stack.len() - 1];
                    if top == Token::LParen {
                        break ;
                    }
                    let top_prec = match precedence(&top) {
                        Some((p, _)) => p,
                        None => 0,
                    };
                    let should_pop = match assoc {
                        Assoc::Left => top_prec >= prec,
                        Assoc::Right => top_prec > prec,
                    };
                    if !should_pop {
                        break ;
                    }
                    pop_operator(&mut output, &mut op_stack);
                }
                op_stack.push(token);
            },
        }
        t = t + 1;
    }
    assert(toks.take(toks.len() as int) =~= toks);
    loop
        invariant
            toks == tokens@,
            ops_only(op_stack@),
            spec_shunting_yard(toks) == drain(output@, op_stack@),
        ensures
            spec_shunting_yard(toks) == Some(output@),
        decreases op_stack@.len(),
    {
        if op_stack.len() == 0 {
            break ;
        }
        if op_stack[op_stack.len() - 1] == Token::LParen {
            return Err(mismatched_parentheses());
        }
        pop_operator(&mut output, &mut op_stack);
    }
    Ok(output)
}

/// Parses an infix CSG expression over the primitive names of `prim_map`
/// into an RPN program.
pub fn parse_csg(input: &str, prim_map: &NameMap) -> (r: Result<FlatCSG, CSGParseError>)
    requires
        prim_map.wf(),
    ensures
        match lex_from(input@, 0, prim_map@) {
            None => r matches Err(CSGParseError::LexError(m)) && m@ == lex_error(
                input@,
                0,
                prim_map@,
            ),
            Some(toks) => match spec_shunting_yard(toks) {
                Some(ins) => r matches Ok(f) && f.instructions@ == ins,
                None => r matches Err(CSGParseError::ShuntingYardError(m)) && m@
                    == mismatched_parentheses_message(),
            },
        },
{
    let tokens = match tokenize(input, prim_map) {
        Ok(t) => t,
        Err(e) => {
            return Err(e);
        },
    };
    let instructions = match shunting_yard(tokens) {
        Ok(i) => i,
        Err(e) => {
            return Err(e);
        },
    };
    Ok(FlatCSG { instructions })
}

} // verus!
