//! The tree builder: from tokens to a program.

use vstd::prelude::*;
use vstd::slice::slice_subrange;
use vstd::string::StringExecFns;
use crate::ast::{prog_text, BinOp, Expr, Prog, SpecExpr, SpecProg, UnaryOp};
use crate::lexer::{token_text, Keyword, Operator, SpecToken, Token};
use crate::reorder::{reorder, shunting_yard};

verus! {

/// Why a token sequence is not a program. Its view is its message.
#[derive(Debug)]
pub struct ParseError {
    msg: String,
}

impl View for ParseError {
    type V = Seq<char>;

    closed spec fn view(&self) -> Seq<char> {
        self.msg@
    }
}

impl ParseError {
    /// An error with the message `msg`.
    pub fn new(msg: &str) -> (e: ParseError)
        ensures
            e@ == msg@,
    {
        ParseError { msg: msg.to_owned() }
    }

    /// An error with the message `msg`.
    pub fn from_string(msg: String) -> (e: ParseError)
        ensures
            e@ == msg@,
    {
        ParseError { msg }
    }

    /// The message.
    pub fn to_string(&self) -> (s: String)
        ensures
            s@ == self@,
    {
        self.msg.clone()
    }
}

/// The message for tokens that end where one is looked at.
pub open spec fn msg_peek_nothing() -> Seq<char> {
    "Expected token while peeking but found nothing."@
}

/// The message for tokens that end where one is taken.
pub open spec fn msg_next_nothing() -> Seq<char> {
    "Expected token but found nothing."@
}

/// The message for a bracket among the prefix tokens.
pub open spec fn msg_bracket_in_prefix() -> Seq<char> {
    "Found a bracket while parsing, but brackets should have been eliminated by the reordering."@
}

/// The message for an equals sign among the prefix tokens.
pub open spec fn msg_equals_in_prefix() -> Seq<char> {
    "Illegal sign '=' found while parsing expression."@
}

/// The message for a keyword among the prefix tokens.
pub open spec fn msg_keyword_in_prefix() -> Seq<char> {
    "Keyword 'Let' found while parsing expression"@
}

/// The message for the token `found` where a name is due.
pub open spec fn msg_wanted_identifier(found: SpecToken) -> Seq<char> {
    "Wanted identifier but found "@ + token_text(found)
}

/// The message for an assignment without its equals sign.
pub open spec fn msg_expected_equals() -> Seq<char> {
    "Expected '=' while parsing assignment."@
}

/// The message for the token `extra` left over behind the program `p`.
pub open spec fn msg_extra_token(extra: SpecToken, p: SpecProg) -> Seq<char> {
    "Extra token "@ + token_text(extra) + " found after program "@ + prog_text(p)
}

/// The message for another operator where the unary one is due.
pub open spec fn msg_not_unary() -> Seq<char> {
    "Non-unary operator found while parsing unary operation."@
}

/// The message for a token that is no operator where the unary one is due.
pub open spec fn msg_unary_not_operator() -> Seq<char> {
    "Non-operator found while parsing unary operation."@
}

/// The message for the unary operator where a binary one is due.
pub open spec fn msg_not_binary() -> Seq<char> {
    "Non-binary operator found while parsing binary operator."@
}

/// The message for a token that is no operator where a binary one is due.
pub open spec fn msg_binary_not_operator() -> Seq<char> {
    "Non-operator found while parsing binary operation."@
}

/// The binary operation that `op` stands for, if it is binary.
pub open spec fn binary_of(op: Operator) -> Option<BinOp> {
    match op {
        Operator::Plus => Some(BinOp::Plus),
        Operator::Minus => Some(BinOp::Minus),
        Operator::Times => Some(BinOp::Times),
        Operator::Divide => Some(BinOp::Divide),
        Operator::BitShLeft => Some(BinOp::BitShLeft),
        Operator::BitShRight => Some(BinOp::BitShRight),
        Operator::BitAnd => Some(BinOp::BitAnd),
        Operator::BitOr => Some(BinOp::BitOr),
        Operator::BitXor => Some(BinOp::BitXor),
        Operator::BitNeg => None,
    }
}

/// What building an expression gives: the expression and the index behind
/// its last token, or a message and the index at which building stopped.
pub type Built = Result<(SpecExpr, int), (Seq<char>, int)>;

/// The expression that starts at `ts[i]` in a prefix-ordered sequence, and
/// the index after its last token: an identifier or a number is a leaf, the
/// unary operator takes the one expression that follows it, any other
/// operator the two that follow it, the left one first. A token that starts
/// no expression is looked at and left where it is.
pub open spec fn build_expr(ts: Seq<SpecToken>, i: int) -> Built
    decreases ts.len() - i, 1int,
{
    if !(0 <= i < ts.len()) {
        Err((msg_peek_nothing(), i))
    } else {
        match ts[i] {
            SpecToken::Ident(name) => Ok((SpecExpr::Var(name), i + 1)),
            SpecToken::Num(n) => Ok((SpecExpr::Const(n), i + 1)),
            SpecToken::Oper(op) => if op == Operator::BitNeg {
                build_unary(ts, i)
            } else {
                build_binary(ts, i)
            },
            SpecToken::LeftParen | SpecToken::RightParen => Err((msg_bracket_in_prefix(), i)),
            SpecToken::Equals => Err((msg_equals_in_prefix(), i)),
            SpecToken::Keyw(_) => Err((msg_keyword_in_prefix(), i)),
        }
    }
}

/// The unary operation that starts at `ts[i]`, and the index after it. The
/// token at `ts[i]` is taken whatever it is.
pub open spec fn build_unary(ts: Seq<SpecToken>, i: int) -> Built
    decreases ts.len() - i, 0int,
{
    if !(0 <= i < ts.len()) {
        Err((msg_next_nothing(), i))
    } else {
        match ts[i] {
            SpecToken::Oper(op) => if op == Operator::BitNeg {
                match build_expr(ts, i + 1) {
                    Ok((e, j)) => Ok((SpecExpr::UnaryOper(UnaryOp::BitNeg, Box::new(e)), j)),
                    Err(stop) => Err(stop),
                }
            } else {
                Err((msg_not_unary(), i + 1))
            },
            _ => Err((msg_unary_not_operator(), i + 1)),
        }
    }
}

/// The binary operation that starts at `ts[i]`, and the index after it. The
/// token at `ts[i]` is taken whatever it is, and both operands are built
/// before the operator is looked at.
pub open spec fn build_binary(ts: Seq<SpecToken>, i: int) -> Built
    decreases ts.len() - i, 0int,
{
    if !(0 <= i < ts.len()) {
        Err((msg_next_nothing(), i))
    } else {
        match ts[i] {
            SpecToken::Oper(op) => match build_expr(ts, i + 1) {
                Err(stop) => Err(stop),
                Ok((e1, j)) => if !(i < j <= ts.len()) {
                    Err((msg_peek_nothing(), j))
                } else {
                    match build_expr(ts, j) {
                        Err(stop) => Err(stop),
                        Ok((e2, k)) => match binary_of(op) {
                            Some(b) => Ok((SpecExpr::BinaryOper(b, Box::new(e1), Box::new(e2)), k)),
                            None => Err((msg_not_binary(), k)),
                        },
                    }
                },
            },
            _ => Err((msg_binary_not_operator(), i + 1)),
        }
    }
}

/// The identifier at `ts[i]`.
pub open spec fn ident_at(ts: Seq<SpecToken>, i: int) -> Result<Seq<char>, Seq<char>> {
    if !(0 <= i < ts.len()) {
        Err(msg_next_nothing())
    } else {
        match ts[i] {
            SpecToken::Ident(name) => Ok(name),
            _ => Err(msg_wanted_identifier(ts[i])),
        }
    }
}

/// The expression that the infix tokens from `ts[i]` on denote, and the
/// first token that it leaves over, if it leaves any.
pub open spec fn expression_from(ts: Seq<SpecToken>, i: int) -> Result<
    (SpecExpr, Option<SpecToken>),
    Seq<char>,
> {
    match reorder(ts.skip(i)) {
        Err(m) => Err(m),
        Ok(prefix) => match build_expr(prefix, 0) {
            Err((m, _)) => Err(m),
            Ok((e, j)) => Ok(
                (
                    e,
                    if 0 <= j < prefix.len() {
                        Some(prefix[j])
                    } else {
                        None
                    },
                ),
            ),
        },
    }
}

/// The program `p`, unless a token is left over.
pub open spec fn whole_program(p: SpecProg, extra: Option<SpecToken>) -> Result<
    SpecProg,
    Seq<char>,
> {
    match extra {
        Some(t) => Err(msg_extra_token(t, p)),
        None => Ok(p),
    }
}

/// The program that the tokens from `ts[i]` on denote: `let`, a name, `=`
/// and an infix expression, or an infix expression alone.
pub open spec fn program_at(ts: Seq<SpecToken>, i: int) -> Result<SpecProg, Seq<char>> {
    if !(0 <= i < ts.len()) {
        Err(msg_peek_nothing())
    } else if ts[i] == SpecToken::Keyw(Keyword::Let) {
        match ident_at(ts, i + 1) {
            Err(m) => Err(m),
            Ok(name) => if i + 2 >= ts.len() {
                Err(msg_peek_nothing())
            } else if ts[i + 2] != SpecToken::Equals {
                Err(msg_expected_equals())
            } else {
                match expression_from(ts, i + 3) {
                    Err(m) => Err(m),
                    Ok((e, extra)) => whole_program(SpecProg::Assign(name, e), extra),
                }
            },
        }
    } else {
        match expression_from(ts, i) {
            Err(m) => Err(m),
            Ok((e, extra)) => whole_program(SpecProg::Expression(e), extra),
        }
    }
}

/// The program that the tokens `ts` denote.
pub open spec fn parse_spec(ts: Seq<SpecToken>) -> Result<SpecProg, Seq<char>> {
    program_at(ts, 0)
}

/// The result `r` of building on a sequence, as the result of building on
/// that sequence behind `n` other tokens.
pub open spec fn shifted(r: Built, n: int) -> Built {
    match r {
        Ok((e, j)) => Ok((e, j + n)),
        Err((m, j)) => Err((m, j + n)),
    }
}

/// An expression that is built ends after it starts and inside the sequence.
pub proof fn lemma_build_expr_advances(ts: Seq<SpecToken>, i: int)
    ensures
        build_expr(ts, i) is Ok ==> i < build_expr(ts, i)->Ok_0.1 <= ts.len(),
        build_unary(ts, i) is Ok ==> i < build_unary(ts, i)->Ok_0.1 <= ts.len(),
        build_binary(ts, i) is Ok ==> i < build_binary(ts, i)->Ok_0.1 <= ts.len(),
    decreases ts.len() - i,
{
    if 0 <= i < ts.len() {
        lemma_build_expr_advances(ts, i + 1);
        match build_expr(ts, i + 1) {
            Ok((e1, j)) => {
                if i < j <= ts.len() {
                    lemma_build_expr_advances(ts, j);
                }
            },
            Err(_) => {},
        }
    }
}

/// Where building fails, it stops at or after its start and inside the
/// sequence or at its end.
pub proof fn lemma_build_stops_inside(ts: Seq<SpecToken>, i: int)
    requires
        0 <= i <= ts.len(),
    ensures
        build_expr(ts, i) is Err ==> i <= build_expr(ts, i)->Err_0.1 <= ts.len(),
        build_unary(ts, i) is Err ==> i <= build_unary(ts, i)->Err_0.1 <= ts.len(),
        build_binary(ts, i) is Err ==> i <= build_binary(ts, i)->Err_0.1 <= ts.len(),
    decreases ts.len() - i,
{
    if i < ts.len() {
        lemma_build_stops_inside(ts, i + 1);
        match build_expr(ts, i + 1) {
            Ok((e1, j)) => {
                lemma_build_expr_advances(ts, i + 1);
                lemma_build_stops_inside(ts, j);
                lemma_build_expr_advances(ts, j);
            },
            Err(_) => {},
        }
    }
}

/// What is built does not depend on the tokens before the start.
pub proof fn lemma_build_expr_shift(a: Seq<SpecToken>, b: Seq<SpecToken>, i: int)
    requires
        0 <= i,
    ensures
        build_expr(a + b, a.len() + i) == shifted(build_expr(b, i), a.len() as int),
        build_unary(a + b, a.len() + i) == shifted(build_unary(b, i), a.len() as int),
        build_binary(a + b, a.len() + i) == shifted(build_binary(b, i), a.len() as int),
    decreases b.len() - i,
{
    if i < b.len() {
        assert((a + b)[a.len() + i] == b[i]);
        lemma_build_expr_shift(a, b, i + 1);
        match build_expr(b, i + 1) {
            Ok((e1, j)) => {
                if i < j <= b.len() {
                    lemma_build_expr_shift(a, b, j);
                }
            },
            Err(_) => {},
        }
    }
}

/// How a binary operation is written as an operator.
pub open spec fn operator_of(op: BinOp) -> Operator {
    match op {
        BinOp::Plus => Operator::Plus,
        BinOp::Minus => Operator::Minus,
        BinOp::Times => Operator::Times,
        BinOp::Divide => Operator::Divide,
        BinOp::BitShLeft => Operator::BitShLeft,
        BinOp::BitShRight => Operator::BitShRight,
        BinOp::BitAnd => Operator::BitAnd,
        BinOp::BitOr => Operator::BitOr,
        BinOp::BitXor => Operator::BitXor,
    }
}

/// The tokens of `e` in prefix order: each operator, then its operands.
pub open spec fn prefix_tokens(e: SpecExpr) -> Seq<SpecToken>
    decreases e,
{
    match e {
        SpecExpr::Const(n) => seq![SpecToken::Num(n)],
        SpecExpr::Var(name) => seq![SpecToken::Ident(name)],
        SpecExpr::BinaryOper(op, e1, e2) => seq![SpecToken::Oper(operator_of(op))] + prefix_tokens(
            *e1,
        ) + prefix_tokens(*e2),
        SpecExpr::UnaryOper(op, e1) => seq![SpecToken::Oper(Operator::BitNeg)] + prefix_tokens(
            *e1,
        ),
    }
}

/// Where the prefix form of `e` stands at `ts[i]`, the expression built
/// there is `e`, and it ends where that form ends.
pub proof fn lemma_build_reads_prefix(ts: Seq<SpecToken>, i: int, e: SpecExpr)
    requires
        0 <= i,
        i + prefix_tokens(e).len() <= ts.len(),
        ts.subrange(i, i + prefix_tokens(e).len()) == prefix_tokens(e),
    ensures
        build_expr(ts, i) == Ok::<(SpecExpr, int), (Seq<char>, int)>(
            (e, i + prefix_tokens(e).len()),
        ),
    decreases e,
{
    let w = prefix_tokens(e);
    let j = i + w.len();
    assert forall|k: int| 0 <= k < w.len() implies ts[i + k] == #[trigger] w[k] by {
        assert(ts.subrange(i, j)[k] == ts[i + k]);
    }
    match e {
        SpecExpr::Const(n) => {
            assert(ts[i] == w[0]);
        },
        SpecExpr::Var(name) => {
            assert(ts[i] == w[0]);
        },
        SpecExpr::BinaryOper(op, e1, e2) => {
            let w1 = prefix_tokens(*e1);
            let w2 = prefix_tokens(*e2);
            let m = i + 1 + w1.len();
            assert(ts[i] == w[0]);
            assert(ts.subrange(i + 1, m) =~= w1) by {
                assert forall|k: int| 0 <= k < w1.len() implies ts[i + 1 + k] == w1[k] by {
                    assert(w[1 + k] == w1[k]);
                }
            }
            assert(ts.subrange(m, j) =~= w2) by {
                assert forall|k: int| 0 <= k < w2.len() implies ts[m + k] == w2[k] by {
                    assert(w[1 + w1.len() + k] == w2[k]);
                }
            }
            lemma_build_reads_prefix(ts, i + 1, *e1);
            lemma_build_reads_prefix(ts, m, *e2);
        },
        SpecExpr::UnaryOper(op, e1) => {
            let w1 = prefix_tokens(*e1);
            assert(ts[i] == w[0]);
            assert(ts.subrange(i + 1, j) =~= w1) by {
                assert forall|k: int| 0 <= k < w1.len() implies ts[i + 1 + k] == w1[k] by {
                    assert(w[1 + k] == w1[k]);
                }
            }
            lemma_build_reads_prefix(ts, i + 1, *e1);
        },
    }
}

/// The tokens that an expression was built from are its prefix form.
pub proof fn lemma_built_from_prefix(ts: Seq<SpecToken>, i: int)
    requires
        build_expr(ts, i) is Ok,
    ensures
        i < build_expr(ts, i)->Ok_0.1 <= ts.len(),
        ts.subrange(i, build_expr(ts, i)->Ok_0.1) == prefix_tokens(build_expr(ts, i)->Ok_0.0),
    decreases ts.len() - i,
{
    lemma_build_expr_advances(ts, i);
    let (e, j) = build_expr(ts, i)->Ok_0;
    match ts[i] {
        SpecToken::Oper(op) => {
            lemma_build_expr_advances(ts, i + 1);
            lemma_built_from_prefix(ts, i + 1);
            let (e1, m) = build_expr(ts, i + 1)->Ok_0;
            if op == Operator::BitNeg {
                assert(ts.subrange(i, j) =~= seq![ts[i]] + ts.subrange(i + 1, j));
            } else {
                lemma_built_from_prefix(ts, m);
                assert(ts.subrange(i, j) =~= seq![ts[i]] + ts.subrange(i + 1, m) + ts.subrange(
                    m,
                    j,
                ));
            }
        },
        _ => {
            assert(ts.subrange(i, j) =~= seq![ts[i]]);
        },
    }
}

/// The binary operation that `op` stands for, if it is binary.
fn to_binary(op: Operator) -> (r: Option<BinOp>)
    ensures
        r == binary_of(op),
{
    match op {
        Operator::Plus => Some(BinOp::Plus),
        Operator::Minus => Some(BinOp::Minus),
        Operator::Times => Some(BinOp::Times),
        Operator::Divide => Some(BinOp::Divide),
        Operator::BitShLeft => Some(BinOp::BitShLeft),
        Operator::BitShRight => Some(BinOp::BitShRight),
        Operator::BitAnd => Some(BinOp::BitAnd),
        Operator::BitOr => Some(BinOp::BitOr),
        Operator::BitXor => Some(BinOp::BitXor),
        Operator::BitNeg => None,
    }
}

/// A read cursor over a token list.
struct Parser {
    tokens: Vec<Token>,
    index: usize,
}

impl Parser {
    /// The tokens as a sequence of models.
    spec fn ts(&self) -> Seq<SpecToken> {
        self.tokens.deep_view()
    }

    /// A parser at the start of a copy of `tokens`.
    fn new(tokens: &Vec<Token>) -> (p: Parser)
        ensures
            p.tokens@ == tokens@,
            p.index == 0,
    {
        let copy = tokens.clone();
        assert(copy@ =~= tokens@);
        Parser { tokens: copy, index: 0 }
    }

    /// The next token, which stays where it is.
    fn peek(&self) -> (r: Result<Token, ParseError>)
        ensures
            match r {
                Ok(t) => self.index < self.tokens.len() && t == self.tokens[self.index as int],
                Err(e) => self.index >= self.tokens.len() && e@ == msg_peek_nothing(),
            },
    {
        if self.done() {
            Err(ParseError::new("Expected token while peeking but found nothing."))
        } else {
            Ok(self.tokens[self.index].clone())
        }
    }

    /// Whether every token has been read.
    fn done(&self) -> (b: bool)
        ensures
            b == (self.index >= self.tokens.len()),
    {
        self.index >= self.tokens.len()
    }

    /// The next token; the cursor moves behind it.
    fn next(&mut self) -> (r: Result<Token, ParseError>)
        ensures
            final(self).tokens == old(self).tokens,
            match r {
                Ok(t) => old(self).index < old(self).tokens.len() && t == old(self).tokens[old(
                    self,
                ).index as int] && final(self).index == old(self).index + 1,
                Err(e) => old(self).index >= old(self).tokens.len() && final(self).index == old(
                    self,
                ).index && e@ == msg_next_nothing(),
            },
    {
        if self.done() {
            Err(ParseError::new("Expected token but found nothing."))
        } else {
            self.index += 1;
            Ok(self.tokens[self.index - 1].clone())
        }
    }

    /// Puts the tokens from the cursor on into prefix order, in place. The
    /// list gets shorter by the brackets that this takes out.
    fn shunting_yard(&mut self) -> (r: Result<(), ParseError>)
        requires
            old(self).index <= old(self).tokens.len(),
        ensures
            final(self).index == old(self).index,
            match reorder(old(self).ts().skip(old(self).index as int)) {
                Ok(prefix) => r is Ok && final(self).ts() == old(self).ts().take(
                    old(self).index as int,
                ) + prefix,
                Err(m) => r is Err && r->Err_0@ == m && final(self).tokens == old(self).tokens,
            },
    {
        let ghost before = self.ts();
        let rest = slice_subrange(self.tokens.as_slice(), self.index, self.tokens.len());
        assert(rest.deep_view() =~= before.skip(self.index as int));
        let mut reordering = match shunting_yard(rest) {
            Ok(reordering) => reordering,
            Err(e) => {
                return Err(e);
            },
        };
        let ghost prefix = reordering.deep_view();
        self.tokens.truncate(self.index);
        self.tokens.append(&mut reordering);
        assert(self.ts() =~= before.take(self.index as int) + prefix);
        Ok(())
    }

    /// Reads a program, which is either a single assignment or an expression,
    /// and must end where the tokens end.
    fn parse(&mut self) -> (r: Result<Prog, ParseError>)
        requires
            old(self).index <= old(self).tokens.len(),
        ensures
            match program_at(old(self).ts(), old(self).index as int) {
                Ok(p) => r is Ok && r->Ok_0@ == p && final(self).index == final(self).tokens.len(),
                Err(m) => r is Err && r->Err_0@ == m,
            },
            final(self).index <= final(self).tokens.len(),
            old(self).index == old(self).tokens.len() ==> final(self).tokens == old(self).tokens
                && final(self).index == old(self).index,
            final(self).ts().take(old(self).index as int) == old(self).ts().take(
                old(self).index as int,
            ),
    {
        let ghost ts0 = self.ts();
        let ghost i0 = self.index as int;
        let ghost mut start: int = i0;
        let token = self.peek()?;
        let prog = match token {
            Token::Keyw(Keyword::Let) => {
                self.next()?;
                let name = self.parse_ident()?;
                match self.peek()? {
                    Token::Equals => {},
                    _ => {
                        return Err(ParseError::new("Expected '=' while parsing assignment."));
                    },
                }
                self.next()?;
                self.shunting_yard()?;
                proof {
                    start = i0 + 3;
                    lemma_build_expr_shift(
                        ts0.take(i0 + 3),
                        reorder(ts0.skip(i0 + 3))->Ok_0,
                        0,
                    );
                }
                proof {
                    lemma_build_stops_inside(self.ts(), self.index as int);
                }
                let expr = self.parse_expr()?;
                Prog::Assign(name, expr)
            },
            _ => {
                self.shunting_yard()?;
                proof {
                    lemma_build_expr_shift(ts0.take(i0), reorder(ts0.skip(i0))->Ok_0, 0);
                }
                proof {
                    lemma_build_stops_inside(self.ts(), self.index as int);
                }
                Prog::Expression(self.parse_expr()?)
            },
        };
        proof {
            let prefix = reorder(ts0.skip(start))->Ok_0;
            assert(self.ts() == ts0.take(start) + prefix);
            if self.index < self.tokens.len() {
                assert(self.ts()[self.index as int] == prefix[self.index - start]);
            }
        }
        if !self.done() {
            let mut msg = "Extra token ".to_owned();
            msg.append(self.tokens[self.index].to_text().as_str());
            msg.append(" found after program ");
            msg.append(prog.to_text().as_str());
            return Err(ParseError::from_string(msg));
        }
        Ok(prog)
    }

    /// Reads an expression, which could be a constant, a variable, a unary
    /// operation or a binary operation.
    fn parse_expr(&mut self) -> (r: Result<Expr, ParseError>)
        ensures
            final(self).tokens == old(self).tokens,
            match build_expr(old(self).ts(), old(self).index as int) {
                Ok((e, j)) => r is Ok && r->Ok_0@ == e && final(self).index == j && old(
                    self,
                ).index < j <= old(self).tokens.len(),
                Err((m, j)) => r is Err && r->Err_0@ == m && final(self).index == j,
            },
        decreases old(self).tokens.len() - old(self).index, 1int,
    {
        let tok = self.peek()?;
        match tok {
            Token::Ident(name) => {
                self.next()?;
                Ok(Expr::Var(name))
            },
            Token::Num(num) => {
                self.next()?;
                Ok(Expr::Const(num))
            },
            Token::Oper(op) => {
                match op {
                    Operator::BitNeg => self.parse_uop(),
                    _ => self.parse_bop(),
                }
            },
            Token::LeftParen | Token::RightParen => Err(
                ParseError::new(
                    "Found a bracket while parsing, but brackets should have been eliminated by the reordering.",
                ),
            ),
            Token::Equals => Err(
                ParseError::new("Illegal sign '=' found while parsing expression."),
            ),
            Token::Keyw(_) => Err(ParseError::new("Keyword 'Let' found while parsing expression")),
        }
    }

    /// Reads the next token as an identifier. The token is taken whatever it
    /// is.
    fn parse_ident(&mut self) -> (r: Result<String, ParseError>)
        ensures
            final(self).tokens == old(self).tokens,
            match ident_at(old(self).ts(), old(self).index as int) {
                Ok(name) => r is Ok && r->Ok_0@ == name,
                Err(m) => r is Err && r->Err_0@ == m,
            },
            final(self).index == if old(self).index < old(self).tokens.len() {
                old(self).index + 1
            } else {
                old(self).index as int
            },
    {
        let tok = self.next()?;
        match tok {
            Token::Ident(name) => Ok(name),
            _ => {
                let mut msg = "Wanted identifier but found ".to_owned();
                msg.append(tok.to_text().as_str());
                Err(ParseError::from_string(msg))
            },
        }
    }

    /// Reads the unary operator and its operand.
    fn parse_uop(&mut self) -> (r: Result<Expr, ParseError>)
        ensures
            final(self).tokens == old(self).tokens,
            match build_unary(old(self).ts(), old(self).index as int) {
                Ok((e, j)) => r is Ok && r->Ok_0@ == e && final(self).index == j && old(
                    self,
                ).index < j <= old(self).tokens.len(),
                Err((m, j)) => r is Err && r->Err_0@ == m && final(self).index == j,
            },
        decreases old(self).tokens.len() - old(self).index, 0int,
    {
        let tok = self.next()?;
        match tok {
            Token::Oper(op) => match op {
                Operator::BitNeg => {
                    let e = self.parse_expr()?;
                    Ok(Expr::UnaryOper(UnaryOp::BitNeg, Box::new(e)))
                },
                _ => Err(
                    ParseError::new("Non-unary operator found while parsing unary operation."),
                ),
            },
            _ => Err(ParseError::new("Non-operator found while parsing unary operation.")),
        }
    }

    /// Reads a binary operator and its two operands.
    fn parse_bop(&mut self) -> (r: Result<Expr, ParseError>)
        ensures
            final(self).tokens == old(self).tokens,
            match build_binary(old(self).ts(), old(self).index as int) {
                Ok((e, j)) => r is Ok && r->Ok_0@ == e && final(self).index == j && old(
                    self,
                ).index < j <= old(self).tokens.len(),
                Err((m, j)) => r is Err && r->Err_0@ == m && final(self).index == j,
            },
        decreases old(self).tokens.len() - old(self).index, 0int,
    {
        let tok = self.next()?;
        match tok {
            Token::Oper(op) => {
                let e1 = Box::new(self.parse_expr()?);
                let e2 = Box::new(self.parse_expr()?);
                match to_binary(op) {
                    Some(b) => Ok(Expr::BinaryOper(b, e1, e2)),
                    None => Err(
                        ParseError::new("Non-binary operator found while parsing binary operator."),
                    ),
                }
            },
            _ => Err(ParseError::new("Non-operator found while parsing binary operation.")),
        }
    }
}

/// Reads `tokens` as a program: `let`, a name, `=` and an infix expression,
/// or an infix expression alone. The tokens stay as they are.
pub fn parse(tokens: &mut Vec<Token>) -> (r: Result<Prog, ParseError>)
    ensures
        *final(tokens) == *old(tokens),
        match r {
            Ok(p) => parse_spec(old(tokens).deep_view()) == Ok::<SpecProg, Seq<char>>(p@),
            Err(e) => parse_spec(old(tokens).deep_view()) == Err::<SpecProg, Seq<char>>(e@),
        },
{
    let mut parser = Parser::new(tokens);
    parser.parse()
}

} // verus!
