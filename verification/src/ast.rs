//! Expression trees and programs.

use vstd::prelude::*;
use vstd::string::StringExecFns;
use crate::chars::string_push;
use crate::decimal::{decimal_text, u16_to_text};

verus! {

/// The unary operator.
#[derive(Clone, Copy, Debug, PartialEq, Eq, Structural)]
pub enum UnaryOp {
    BitNeg,
}

/// The binary operators.
#[derive(Clone, Copy, Debug, PartialEq, Eq, Structural)]
pub enum BinOp {
    BitAnd,
    BitOr,
    BitXor,
    BitShLeft,
    BitShRight,
    Plus,
    Minus,
    Times,
    Divide,
}

/// A program: an expression, or the assignment of an expression's value to
/// a variable.
#[derive(Debug, PartialEq, Eq)]
pub enum Prog {
    Expression(Expr),
    Assign(String, Expr),
}

/// An expression tree. Each node owns its subtrees.
#[derive(Debug, PartialEq, Eq)]
pub enum Expr {
    Const(u16),
    Var(String),
    BinaryOper(BinOp, Box<Expr>, Box<Expr>),
    UnaryOper(UnaryOp, Box<Expr>),
}

/// The mathematical model of an expression tree: a variable is the sequence
/// of the characters of its name.
pub enum SpecExpr {
    Const(u16),
    Var(Seq<char>),
    BinaryOper(BinOp, Box<SpecExpr>, Box<SpecExpr>),
    UnaryOper(UnaryOp, Box<SpecExpr>),
}

/// The mathematical model of a program.
pub enum SpecProg {
    Expression(SpecExpr),
    Assign(Seq<char>, SpecExpr),
}

/// The model of the tree `e`.
pub open spec fn expr_view(e: Expr) -> SpecExpr
    decreases e,
{
    match e {
        Expr::Const(val) => SpecExpr::Const(val),
        Expr::Var(name) => SpecExpr::Var(name@),
        Expr::BinaryOper(op, e1, e2) => SpecExpr::BinaryOper(
            op,
            Box::new(expr_view(*e1)),
            Box::new(expr_view(*e2)),
        ),
        Expr::UnaryOper(op, e1) => SpecExpr::UnaryOper(op, Box::new(expr_view(*e1))),
    }
}

impl View for Expr {
    type V = SpecExpr;

    open spec fn view(&self) -> SpecExpr {
        expr_view(*self)
    }
}

impl View for Prog {
    type V = SpecProg;

    open spec fn view(&self) -> SpecProg {
        match self {
            Prog::Expression(e) => SpecProg::Expression(e@),
            Prog::Assign(name, e) => SpecProg::Assign(name@, e@),
        }
    }
}

/// How the unary operator is written.
pub open spec fn unary_op_text(op: UnaryOp) -> Seq<char> {
    seq!['!']
}

/// How a binary operator is written.
pub open spec fn bin_op_text(op: BinOp) -> Seq<char> {
    match op {
        BinOp::BitAnd => seq!['&'],
        BinOp::BitOr => seq!['|'],
        BinOp::BitXor => seq!['^'],
        BinOp::BitShLeft => seq!['<', '<'],
        BinOp::BitShRight => seq!['>', '>'],
        BinOp::Plus => seq!['+'],
        BinOp::Minus => seq!['-'],
        BinOp::Times => seq!['*'],
        BinOp::Divide => seq!['/'],
    }
}

/// An expression in prefix notation with every operation in brackets:
/// `(+ 1 (* x 2))`.
pub open spec fn expr_text(e: SpecExpr) -> Seq<char>
    decreases e,
{
    match e {
        SpecExpr::Const(val) => decimal_text(val as nat),
        SpecExpr::Var(name) => name,
        SpecExpr::BinaryOper(op, e1, e2) => seq!['('] + bin_op_text(op) + seq![' '] + expr_text(
            *e1,
        ) + seq![' '] + expr_text(*e2) + seq![')'],
        SpecExpr::UnaryOper(op, e1) => seq!['('] + unary_op_text(op) + seq![' '] + expr_text(*e1)
            + seq![')'],
    }
}

/// A program as text: `Expression((+ 1 2))` or `Assign("x", (+ 1 2))`.
pub open spec fn prog_text(p: SpecProg) -> Seq<char> {
    match p {
        SpecProg::Expression(e) => "Expression("@ + expr_text(e) + seq![')'],
        SpecProg::Assign(name, e) => "Assign(\""@ + name + "\", "@ + expr_text(e) + seq![')'],
    }
}

impl UnaryOp {
    /// How the operator is written.
    pub fn to_text(&self) -> (s: String)
        ensures
            s@ == unary_op_text(*self),
    {
        let mut s = String::new();
        string_push(&mut s, '!');
        assert(s@ =~= unary_op_text(*self));
        s
    }
}

impl BinOp {
    /// How the operator is written.
    pub fn to_text(&self) -> (s: String)
        ensures
            s@ == bin_op_text(*self),
    {
        let mut s = String::new();
        match self {
            BinOp::BitAnd => {
                string_push(&mut s, '&');
            },
            BinOp::BitOr => {
                string_push(&mut s, '|');
            },
            BinOp::BitXor => {
                string_push(&mut s, '^');
            },
            BinOp::BitShLeft => {
                string_push(&mut s, '<');
                string_push(&mut s, '<');
            },
            BinOp::BitShRight => {
                string_push(&mut s, '>');
                string_push(&mut s, '>');
            },
            BinOp::Plus => {
                string_push(&mut s, '+');
            },
            BinOp::Minus => {
                string_push(&mut s, '-');
            },
            BinOp::Times => {
                string_push(&mut s, '*');
            },
            BinOp::Divide => {
                string_push(&mut s, '/');
            },
        }
        assert(s@ =~= bin_op_text(*self));
        s
    }
}

impl Expr {
    /// The expression in prefix notation with every operation in brackets.
    pub fn to_text(&self) -> (s: String)
        ensures
            s@ == expr_text(self@),
        decreases self,
    {
        match self {
            Expr::Const(val) => u16_to_text(*val),
            Expr::Var(name) => name.clone(),
            Expr::BinaryOper(op, e1, e2) => {
                let t1 = e1.to_text();
                let t2 = e2.to_text();
                let mut s = String::new();
                string_push(&mut s, '(');
                s.append(op.to_text().as_str());
                string_push(&mut s, ' ');
                s.append(t1.as_str());
                string_push(&mut s, ' ');
                s.append(t2.as_str());
                string_push(&mut s, ')');
                assert(s@ =~= expr_text(self@));
                s
            },
            Expr::UnaryOper(op, e1) => {
                let t1 = e1.to_text();
                let mut s = String::new();
                string_push(&mut s, '(');
                s.append(op.to_text().as_str());
                string_push(&mut s, ' ');
                s.append(t1.as_str());
                string_push(&mut s, ')');
                assert(s@ =~= expr_text(self@));
                s
            },
        }
    }
}

impl Prog {
    /// The program as text.
    pub fn to_text(&self) -> (s: String)
        ensures
            s@ == prog_text(self@),
    {
        match self {
            Prog::Expression(e) => {
                let mut s = "Expression(".to_owned();
                s.append(e.to_text().as_str());
                string_push(&mut s, ')');
                s
            },
            Prog::Assign(name, e) => {
                let mut s = "Assign(\"".to_owned();
                s.append(name.as_str());
                s.append("\", ");
                s.append(e.to_text().as_str());
                string_push(&mut s, ')');
                s
            },
        }
    }
}

} // verus!
