//! The evaluator: the value of a program in a context of variable bindings.

use vstd::prelude::*;
use vstd::hash_map::StringHashMap;
use vstd::string::StringExecFns;
use crate::ast::{BinOp, Expr, Prog, SpecExpr, SpecProg, UnaryOp};

verus! {

/// Why a program has no value. Its view is its message.
#[derive(Debug)]
pub struct EvalError {
    msg: String,
}

impl View for EvalError {
    type V = Seq<char>;

    closed spec fn view(&self) -> Seq<char> {
        self.msg@
    }
}

impl EvalError {
    /// An error with the message `msg`.
    pub fn new(msg: &str) -> (e: EvalError)
        ensures
            e@ == msg@,
    {
        EvalError { msg: msg.to_owned() }
    }

    /// An error with the message `msg`.
    pub fn from_string(msg: String) -> (e: EvalError)
        ensures
            e@ == msg@,
    {
        EvalError { msg }
    }

    /// The message.
    pub fn to_string(&self) -> (s: String)
        ensures
            s@ == self@,
    {
        self.msg.clone()
    }
}

/// The bindings of a session: a map from variable names to 16-bit values.
pub type Bindings = Map<Seq<char>, u16>;

/// A context tracks what value each variable is bound to. Its view is the
/// map from names to values.
pub struct Context {
    vars: StringHashMap<u16>,
}

impl View for Context {
    type V = Bindings;

    closed spec fn view(&self) -> Bindings {
        self.vars@
    }
}

/// The message for the variable `name`, which is bound to nothing.
pub open spec fn msg_unbound(name: Seq<char>) -> Seq<char> {
    "Variable '"@ + name + "' not found."@
}

/// What is wrong when `op` has no result.
pub open spec fn msg_fault(op: BinOp) -> Seq<char> {
    match op {
        BinOp::Plus => "Overflow in addition."@,
        BinOp::Minus => "Underflow in subtraction."@,
        BinOp::Times => "Overflow in multiplication."@,
        BinOp::Divide => "Division by zero."@,
        BinOp::BitShLeft => "Shift to the left by 16 bits or more."@,
        BinOp::BitShRight => "Shift to the right by 16 bits or more."@,
        _ => "Arithmetic fault."@,
    }
}

impl Context {
    /// A context without bindings.
    pub fn new() -> (ctx: Context)
        ensures
            ctx@ == Map::<Seq<char>, u16>::empty(),
    {
        Context { vars: StringHashMap::new() }
    }

    /// Binds `var` to `val`, in place of what it was bound to.
    pub fn insert(&mut self, var: &str, val: u16)
        ensures
            final(self)@ == old(self)@.insert(var@, val),
    {
        self.vars.insert(var.to_owned(), val);
    }

    /// The value that `var` is bound to.
    pub fn lookup(&self, var: &str) -> (r: Result<u16, EvalError>)
        ensures
            match r {
                Ok(val) => self@.contains_key(var@) && val == self@[var@],
                Err(e) => !self@.contains_key(var@) && e@ == msg_unbound(var@),
            },
    {
        match self.vars.get(var) {
            Some(val) => Ok(*val),
            None => {
                let mut msg = "Variable '".to_owned();
                msg.append(var);
                msg.append("' not found.");
                Err(EvalError::from_string(msg))
            },
        }
    }
}

/// The result of a binary operation on 16-bit values, where it has one. The
/// bitwise operations always have one; a shift has one for fewer than 16
/// bits, and the bits shifted out are lost; a sum, a difference and a product
/// have one where it fits 16 bits; a quotient has one unless the divisor is
/// zero.
pub open spec fn apply_binary(op: BinOp, a: u16, b: u16) -> Option<u16> {
    match op {
        BinOp::BitAnd => Some(a & b),
        BinOp::BitOr => Some(a | b),
        BinOp::BitXor => Some(a ^ b),
        BinOp::BitShLeft => if b < 16 {
            Some(a << b)
        } else {
            None
        },
        BinOp::BitShRight => if b < 16 {
            Some(a >> b)
        } else {
            None
        },
        BinOp::Plus => if a + b <= u16::MAX {
            Some((a + b) as u16)
        } else {
            None
        },
        BinOp::Minus => if a >= b {
            Some((a - b) as u16)
        } else {
            None
        },
        BinOp::Times => if a * b <= u16::MAX {
            Some((a * b) as u16)
        } else {
            None
        },
        BinOp::Divide => if b != 0 {
            Some(a / b)
        } else {
            None
        },
    }
}

/// The result of the unary operation: the complement over 16 bits.
pub open spec fn apply_unary(op: UnaryOp, a: u16) -> u16 {
    !a
}

/// The value of `e` where each variable has the value that `ctx` binds it
/// to. The left operand is evaluated before the right one, and the first
/// failure is the failure of the whole.
pub open spec fn eval_expr_spec(ctx: Bindings, e: SpecExpr) -> Result<u16, Seq<char>>
    decreases e,
{
    match e {
        SpecExpr::Const(val) => Ok(val),
        SpecExpr::Var(name) => if ctx.contains_key(name) {
            Ok(ctx[name])
        } else {
            Err(msg_unbound(name))
        },
        SpecExpr::BinaryOper(op, e1, e2) => match eval_expr_spec(ctx, *e1) {
            Err(m) => Err(m),
            Ok(a) => match eval_expr_spec(ctx, *e2) {
                Err(m) => Err(m),
                Ok(b) => match apply_binary(op, a, b) {
                    Some(val) => Ok(val),
                    None => Err(msg_fault(op)),
                },
            },
        },
        SpecExpr::UnaryOper(op, e1) => match eval_expr_spec(ctx, *e1) {
            Err(m) => Err(m),
            Ok(a) => Ok(apply_unary(op, a)),
        },
    }
}

/// The value of `p` in `ctx`, and the bindings afterwards: an assignment
/// binds its variable to the value, an expression leaves the bindings alone.
pub open spec fn eval_spec(ctx: Bindings, p: SpecProg) -> Result<(u16, Bindings), Seq<char>> {
    match p {
        SpecProg::Expression(e) => match eval_expr_spec(ctx, e) {
            Ok(val) => Ok((val, ctx)),
            Err(m) => Err(m),
        },
        SpecProg::Assign(name, e) => match eval_expr_spec(ctx, e) {
            Ok(val) => Ok((val, ctx.insert(name, val))),
            Err(m) => Err(m),
        },
    }
}

/// Applies a binary operation to two values.
pub fn binary_result(op: BinOp, a: u16, b: u16) -> (r: Option<u16>)
    ensures
        r == apply_binary(op, a, b),
{
    match op {
        BinOp::BitAnd => Some(a & b),
        BinOp::BitOr => Some(a | b),
        BinOp::BitXor => Some(a ^ b),
        BinOp::BitShLeft => if b < 16 {
            Some(a << b)
        } else {
            None
        },
        BinOp::BitShRight => if b < 16 {
            Some(a >> b)
        } else {
            None
        },
        BinOp::Plus => a.checked_add(b),
        BinOp::Minus => a.checked_sub(b),
        BinOp::Times => a.checked_mul(b),
        BinOp::Divide => a.checked_div(b),
    }
}

/// The error for a binary operation without a result.
fn fault(op: BinOp) -> (e: EvalError)
    ensures
        e@ == msg_fault(op),
{
    match op {
        BinOp::Plus => EvalError::new("Overflow in addition."),
        BinOp::Minus => EvalError::new("Underflow in subtraction."),
        BinOp::Times => EvalError::new("Overflow in multiplication."),
        BinOp::Divide => EvalError::new("Division by zero."),
        BinOp::BitShLeft => EvalError::new("Shift to the left by 16 bits or more."),
        BinOp::BitShRight => EvalError::new("Shift to the right by 16 bits or more."),
        _ => EvalError::new("Arithmetic fault."),
    }
}

/// Evaluates a program: an assignment binds its variable in `ctx` to the
/// value and returns the value; an expression leaves `ctx` as it is. On an
/// error `ctx` stays as it is.
pub fn eval(ctx: &mut Context, prog: &Prog) -> (r: Result<u16, EvalError>)
    ensures
        match r {
            Ok(val) => eval_spec(old(ctx)@, prog@) == Ok::<(u16, Bindings), Seq<char>>(
                (val, final(ctx)@),
            ),
            Err(e) => eval_spec(old(ctx)@, prog@) == Err::<(u16, Bindings), Seq<char>>(e@)
                && final(ctx)@ == old(ctx)@,
        },
{
    match prog {
        Prog::Expression(expr) => {
            let v = eval_expr(ctx, expr)?;
            Ok(v)
        },
        Prog::Assign(name, expr) => {
            let v = eval_expr(ctx, expr)?;
            ctx.insert(name.as_str(), v);
            Ok(v)
        },
    }
}

/// Evaluates an expression in `ctx`, which stays as it is. An unbound
/// variable is an error, and so is an operation without a result: a sum,
/// difference or product outside 16 bits, a division by zero, a shift by 16
/// bits or more.
pub fn eval_expr(ctx: &mut Context, expr: &Expr) -> (r: Result<u16, EvalError>)
    ensures
        final(ctx)@ == old(ctx)@,
        match r {
            Ok(val) => eval_expr_spec(old(ctx)@, expr@) == Ok::<u16, Seq<char>>(val),
            Err(e) => eval_expr_spec(old(ctx)@, expr@) == Err::<u16, Seq<char>>(e@),
        },
    decreases expr,
{
    match expr {
        Expr::Const(val) => Ok(*val),
        Expr::Var(name) => ctx.lookup(name.as_str()),
        Expr::BinaryOper(op, e1, e2) => {
            let a = eval_expr(ctx, e1)?;
            let b = eval_expr(ctx, e2)?;
            match binary_result(*op, a, b) {
                Some(val) => Ok(val),
                None => Err(fault(*op)),
            }
        },
        Expr::UnaryOper(op, e1) => {
            let a = eval_expr(ctx, e1)?;
            let result = match op {
                UnaryOp::BitNeg => !a,
            };
            Ok(result)
        },
    }
}

} // verus!
