//! What the reorderer and the tree builder make of an expression in infix
//! notation: the tree in which an operator of a higher rank binds tighter,
//! operators of one rank group to the left, and brackets group as they
//! stand.

use vstd::prelude::*;
use crate::ast::{BinOp, SpecExpr, SpecProg, UnaryOp};
use crate::lexer::{Keyword, Operator, SpecToken};
use crate::parser::{
    expression_from, lemma_build_reads_prefix, operator_of, parse_spec, prefix_tokens,
};
use crate::reorder::{
    close_bracket, precedence, reorder, stack_operator, start_yard, unstack_to_bracket, yard_from,
    yard_step, Pending, Yard,
};

verus! {

/// An expression as it is written in infix notation.
pub enum Infix {
    /// A number.
    Const(u16),
    /// A variable.
    Var(Seq<char>),
    /// The unary operator before its operand.
    Negated(Box<Infix>),
    /// A binary operator between its operands.
    Binary(BinOp, Box<Infix>, Box<Infix>),
    /// An expression in brackets.
    Bracketed(Box<Infix>),
}

/// The tokens of `s`, as they are written.
pub open spec fn infix_tokens(s: Infix) -> Seq<SpecToken>
    decreases s,
{
    match s {
        Infix::Const(n) => seq![SpecToken::Num(n)],
        Infix::Var(name) => seq![SpecToken::Ident(name)],
        Infix::Negated(x) => seq![SpecToken::Oper(Operator::BitNeg)] + infix_tokens(*x),
        Infix::Binary(op, l, r) => infix_tokens(*l) + seq![SpecToken::Oper(operator_of(op))]
            + infix_tokens(*r),
        Infix::Bracketed(x) => seq![SpecToken::LeftParen] + infix_tokens(*x) + seq![
            SpecToken::RightParen,
        ],
    }
}

/// The rank of the operator that `s` is an operation of, and a rank above
/// every operator's for an operand and for what stands in brackets.
pub open spec fn rank(s: Infix) -> nat {
    match s {
        Infix::Negated(_) => precedence(Operator::BitNeg),
        Infix::Binary(op, _, _) => precedence(operator_of(op)),
        _ => 100,
    }
}

/// Whether `s` can be read as it is written: the right operand of a binary
/// operator is of a higher rank than the operator, its left operand and the
/// operand of the unary operator are of no lower rank. So `8 - 3 - 2` is
/// the difference of `8 - 3` and `2`.
pub open spec fn well_ranked(s: Infix) -> bool
    decreases s,
{
    match s {
        Infix::Const(_) => true,
        Infix::Var(_) => true,
        Infix::Negated(x) => well_ranked(*x) && rank(*x) >= rank(s),
        Infix::Binary(_, l, r) => well_ranked(*l) && well_ranked(*r) && rank(*l) >= rank(s)
            && rank(*r) > rank(s),
        Infix::Bracketed(x) => well_ranked(*x),
    }
}

/// The tree that `s` is the notation of.
pub open spec fn meaning(s: Infix) -> SpecExpr
    decreases s,
{
    match s {
        Infix::Const(n) => SpecExpr::Const(n),
        Infix::Var(name) => SpecExpr::Var(name),
        Infix::Negated(x) => SpecExpr::UnaryOper(UnaryOp::BitNeg, Box::new(meaning(*x))),
        Infix::Binary(op, l, r) => SpecExpr::BinaryOper(
            op,
            Box::new(meaning(*l)),
            Box::new(meaning(*r)),
        ),
        Infix::Bracketed(x) => meaning(*x),
    }
}

/// The operators of `pending` as tokens, from the top of the stack down.
pub open spec fn unstacked(pending: Seq<Pending>) -> Seq<SpecToken>
    decreases pending.len(),
{
    if pending.len() == 0 {
        Seq::empty()
    } else {
        seq![SpecToken::Oper(pending.last()->Op_0)] + unstacked(pending.drop_last())
    }
}

/// Whether `pending` holds operators only, each of the rank `r` at least.
pub open spec fn all_at_least(pending: Seq<Pending>, r: nat) -> bool {
    forall|k: int|
        0 <= k < pending.len() ==> (#[trigger] pending[k]) is Op && precedence(pending[k]->Op_0)
            >= r
}

/// The operators of `s` that wait on the stack when `s` has been read.
pub open spec fn waiting(s: Infix) -> Seq<Pending>
    decreases s,
{
    match s {
        Infix::Negated(x) => waiting(*x).push(Pending::Op(Operator::BitNeg)),
        Infix::Binary(op, l, _) => seq![Pending::Op(operator_of(op))] + waiting(*l),
        _ => Seq::empty(),
    }
}

/// What has been added to the output when `s` has been read.
pub open spec fn emitted(s: Infix) -> Seq<SpecToken>
    decreases s,
{
    match s {
        Infix::Const(n) => seq![SpecToken::Num(n)],
        Infix::Var(name) => seq![SpecToken::Ident(name)],
        Infix::Negated(x) => emitted(*x),
        Infix::Binary(_, l, r) => emitted(*r) + unstacked(waiting(*r)) + emitted(*l),
        Infix::Bracketed(x) => emitted(*x) + unstacked(waiting(*x)),
    }
}

/// Reading `a + b` is reading `b`, then `a`.
proof fn lemma_yard_from_concat(y: Yard, a: Seq<SpecToken>, b: Seq<SpecToken>)
    ensures
        yard_from(y, a + b) == match yard_from(y, b) {
            Ok(z) => yard_from(z, a),
            Err(e) => Err(e),
        },
    decreases a.len(),
{
    if a.len() == 0 {
        assert(a + b =~= b);
    } else {
        assert((a + b).drop_first() =~= a.drop_first() + b);
        lemma_yard_from_concat(y, a.drop_first(), b);
    }
}

/// Reading one token is one step.
proof fn lemma_yard_from_one(y: Yard, t: SpecToken)
    ensures
        yard_from(y, seq![t]) == yard_step(y, t),
{
    reveal_with_fuel(yard_from, 2);
    let ts = seq![t];
    assert(ts.drop_first() =~= Seq::<SpecToken>::empty());
}

/// The operators that wait out above a bracket are moved out from the top
/// down when the bracket is closed.
proof fn lemma_unstack_over(
    below: Seq<Pending>,
    pending: Seq<Pending>,
    output: Seq<SpecToken>,
    r: nat,
)
    requires
        all_at_least(pending, r),
    ensures
        unstack_to_bracket(Yard { stack: below.push(Pending::Bracket) + pending, output })
            == Ok::<Yard, Seq<char>>(Yard { stack: below, output: output + unstacked(pending) }),
    decreases pending.len(),
{
    let stack = below.push(Pending::Bracket) + pending;
    if pending.len() == 0 {
        assert(stack.drop_last() =~= below);
        assert(output + unstacked(pending) =~= output);
    } else {
        let top = pending.last();
        assert(stack.last() == top);
        assert(stack.drop_last() =~= below.push(Pending::Bracket) + pending.drop_last());
        lemma_unstack_over(
            below,
            pending.drop_last(),
            output.push(SpecToken::Oper(top->Op_0)),
            r,
        );
        assert(output.push(SpecToken::Oper(top->Op_0)) + unstacked(pending.drop_last())
            =~= output + unstacked(pending));
    }
}

/// An operator moves out the operators of a higher rank that wait above a
/// bracket or above an operator of no higher rank, and is put in their place.
proof fn lemma_stack_over(
    below: Seq<Pending>,
    pending: Seq<Pending>,
    output: Seq<SpecToken>,
    op: Operator,
)
    requires
        below.len() > 0,
        below.last() is Op ==> precedence(below.last()->Op_0) <= precedence(op),
        all_at_least(pending, precedence(op) + 1),
    ensures
        stack_operator(Yard { stack: below + pending, output }, op) == (Yard {
            stack: below.push(Pending::Op(op)),
            output: output + unstacked(pending),
        }),
    decreases pending.len(),
{
    let stack = below + pending;
    if pending.len() == 0 {
        assert(stack =~= below);
        assert(output + unstacked(pending) =~= output);
    } else {
        let top = pending.last();
        assert(stack.last() == top);
        assert(stack.drop_last() =~= below + pending.drop_last());
        lemma_stack_over(below, pending.drop_last(), output.push(SpecToken::Oper(top->Op_0)), op);
        assert(output.push(SpecToken::Oper(top->Op_0)) + unstacked(pending.drop_last())
            =~= output + unstacked(pending));
    }
}

/// What waits of a well-ranked expression is of its rank at least.
proof fn lemma_waiting_ranks(s: Infix)
    requires
        well_ranked(s),
    ensures
        all_at_least(waiting(s), rank(s)),
    decreases s,
{
    match s {
        Infix::Negated(x) => {
            lemma_waiting_ranks(*x);
            let w = waiting(s);
            assert forall|k: int| 0 <= k < w.len() implies (#[trigger] w[k]) is Op && precedence(
                w[k]->Op_0,
            ) >= rank(s) by {
                if k < w.len() - 1 {
                    assert(w[k] == waiting(*x)[k]);
                }
            }
        },
        Infix::Binary(op, l, r) => {
            lemma_waiting_ranks(*l);
            let w = waiting(s);
            assert forall|k: int| 0 <= k < w.len() implies (#[trigger] w[k]) is Op && precedence(
                w[k]->Op_0,
            ) >= rank(s) by {
                if k > 0 {
                    assert(w[k] == waiting(*l)[k - 1]);
                }
            }
        },
        _ => {},
    }
}

/// Whether `pending` holds the unary operator only.
pub open spec fn all_negations(pending: Seq<Pending>) -> bool {
    forall|k: int|
        0 <= k < pending.len() ==> (#[trigger] pending[k]) == Pending::Op(Operator::BitNeg)
}

/// Of a well-ranked expression of the rank of the unary operator only unary
/// operators wait.
proof fn lemma_waiting_negations(s: Infix)
    requires
        well_ranked(s),
        rank(s) >= precedence(Operator::BitNeg),
    ensures
        all_negations(waiting(s)),
    decreases s,
{
    match s {
        Infix::Negated(x) => {
            lemma_waiting_negations(*x);
            let w = waiting(s);
            assert forall|k: int| 0 <= k < w.len() implies (#[trigger] w[k]) == Pending::Op(
                Operator::BitNeg,
            ) by {
                if k < w.len() - 1 {
                    assert(w[k] == waiting(*x)[k]);
                }
            }
        },
        _ => {},
    }
}

/// Unary operators that leave the stack are as many unary operators,
/// whether one more is put before them or behind them.
proof fn lemma_negations_commute(pending: Seq<Pending>)
    requires
        all_negations(pending),
    ensures
        seq![SpecToken::Oper(Operator::BitNeg)] + unstacked(pending) == unstacked(pending) + seq![
            SpecToken::Oper(Operator::BitNeg),
        ],
    decreases pending.len(),
{
    let neg = seq![SpecToken::Oper(Operator::BitNeg)];
    if pending.len() == 0 {
        assert(neg + unstacked(pending) =~= unstacked(pending) + neg);
    } else {
        let rest = pending.drop_last();
        assert(pending.last() == Pending::Op(Operator::BitNeg));
        assert forall|k: int| 0 <= k < rest.len() implies (#[trigger] rest[k]) == Pending::Op(
            Operator::BitNeg,
        ) by {
            assert(rest[k] == pending[k]);
        }
        lemma_negations_commute(rest);
        assert(unstacked(pending) == neg + unstacked(rest));
        assert(neg + (neg + unstacked(rest)) =~= neg + (unstacked(rest) + neg));
        assert(neg + (unstacked(rest) + neg) =~= (neg + unstacked(rest)) + neg);
    }
}

/// A sequence of two parts turned round is the second part turned round,
/// then the first.
proof fn lemma_reverse_of_two<A>(a: Seq<A>, b: Seq<A>)
    ensures
        (a + b).reverse() == b.reverse() + a.reverse(),
{
    assert((a + b).reverse() =~= b.reverse() + a.reverse());
}

/// What has been put out for `s` and what still waits of it are together
/// its prefix form read backwards.
proof fn lemma_emitted_and_waiting(s: Infix)
    requires
        well_ranked(s),
    ensures
        emitted(s) + unstacked(waiting(s)) == prefix_tokens(meaning(s)).reverse(),
    decreases s,
{
    let all = emitted(s) + unstacked(waiting(s));
    match s {
        Infix::Const(n) => {
            assert(all =~= prefix_tokens(meaning(s)).reverse());
        },
        Infix::Var(name) => {
            assert(all =~= prefix_tokens(meaning(s)).reverse());
        },
        Infix::Negated(x) => {
            lemma_emitted_and_waiting(*x);
            lemma_waiting_negations(*x);
            lemma_negations_commute(waiting(*x));
            let head = seq![SpecToken::Oper(Operator::BitNeg)];
            let px = prefix_tokens(meaning(*x));
            let wx = unstacked(waiting(*x));
            assert(unstacked(waiting(s)) == head + wx) by {
                assert(waiting(s).drop_last() =~= waiting(*x));
            }
            assert(all =~= emitted(*x) + (wx + head));
            assert(emitted(*x) + (wx + head) =~= (emitted(*x) + wx) + head);
            assert((head + px).reverse() == px.reverse() + head) by {
                lemma_reverse_of_two(head, px);
                assert(head.reverse() =~= head);
            }
        },
        Infix::Binary(op, l, r) => {
            lemma_emitted_and_waiting(*l);
            lemma_emitted_and_waiting(*r);
            let head = seq![SpecToken::Oper(operator_of(op))];
            let pl = prefix_tokens(meaning(*l));
            let pr = prefix_tokens(meaning(*r));
            assert(unstacked(waiting(s)) == unstacked(waiting(*l)) + head) by {
                lemma_unstacked_above(Pending::Op(operator_of(op)), waiting(*l));
            }
            assert(all =~= pr.reverse() + (pl.reverse() + head));
            assert((head + pl + pr).reverse() == pr.reverse() + (pl.reverse() + head)) by {
                lemma_reverse_of_two(head + pl, pr);
                lemma_reverse_of_two(head, pl);
                assert(head.reverse() =~= head);
            }
        },
        Infix::Bracketed(x) => {
            lemma_emitted_and_waiting(*x);
            assert(all =~= emitted(*x) + unstacked(waiting(*x)));
        },
    }
}

/// An operator under others leaves the stack after them.
proof fn lemma_unstacked_above(bottom: Pending, above: Seq<Pending>)
    requires
        bottom is Op,
    ensures
        unstacked(seq![bottom] + above) == unstacked(above) + seq![
            SpecToken::Oper(bottom->Op_0),
        ],
    decreases above.len(),
{
    reveal_with_fuel(unstacked, 2);
    let all = seq![bottom] + above;
    if above.len() == 0 {
        assert(all.drop_last() =~= Seq::<Pending>::empty());
        assert(unstacked(all) =~= unstacked(above) + seq![SpecToken::Oper(bottom->Op_0)]);
    } else {
        assert(all.drop_last() =~= seq![bottom] + above.drop_last());
        assert(all.last() == above.last());
        lemma_unstacked_above(bottom, above.drop_last());
        assert(unstacked(all) =~= unstacked(above) + seq![SpecToken::Oper(bottom->Op_0)]);
    }
}

/// Reading a well-ranked expression above a bracket or above an operator of
/// no higher rank leaves the stack below as it was, puts the operators that
/// wait on it, and adds to the output what is due.
proof fn lemma_read_infix(y: Yard, s: Infix)
    requires
        well_ranked(s),
        y.stack.len() > 0,
        y.stack.last() is Op ==> precedence(y.stack.last()->Op_0) <= rank(s),
    ensures
        yard_from(y, infix_tokens(s)) == Ok::<Yard, Seq<char>>(
            Yard { stack: y.stack + waiting(s), output: y.output + emitted(s) },
        ),
    decreases s,
{
    let done = Yard { stack: y.stack + waiting(s), output: y.output + emitted(s) };
    match s {
        Infix::Const(n) => {
            lemma_yard_from_one(y, SpecToken::Num(n));
            assert(y.stack + waiting(s) =~= y.stack);
            assert(y.output + emitted(s) =~= y.output.push(SpecToken::Num(n)));
        },
        Infix::Var(name) => {
            lemma_yard_from_one(y, SpecToken::Ident(name));
            assert(y.stack + waiting(s) =~= y.stack);
            assert(y.output + emitted(s) =~= y.output.push(SpecToken::Ident(name)));
        },
        Infix::Negated(x) => {
            let neg = SpecToken::Oper(Operator::BitNeg);
            lemma_yard_from_concat(y, seq![neg], infix_tokens(*x));
            lemma_read_infix(y, *x);
            let y1 = Yard { stack: y.stack + waiting(*x), output: y.output + emitted(*x) };
            lemma_yard_from_one(y1, neg);
            let none = Seq::<Pending>::empty();
            assert(y1.stack + none =~= y1.stack);
            lemma_stack_over(y1.stack, none, y1.output, Operator::BitNeg);
            assert(y1.stack.push(Pending::Op(Operator::BitNeg)) =~= y.stack + waiting(s));
            assert(y1.output + unstacked(none) =~= y.output + emitted(s));
        },
        Infix::Binary(op, l, r) => {
            let o = operator_of(op);
            let tok = SpecToken::Oper(o);
            assert(infix_tokens(s) =~= (infix_tokens(*l) + seq![tok]) + infix_tokens(*r));
            lemma_yard_from_concat(y, infix_tokens(*l) + seq![tok], infix_tokens(*r));
            lemma_read_infix(y, *r);
            lemma_waiting_ranks(*r);
            let y1 = Yard { stack: y.stack + waiting(*r), output: y.output + emitted(*r) };
            lemma_yard_from_concat(y1, infix_tokens(*l), seq![tok]);
            lemma_yard_from_one(y1, tok);
            lemma_stack_over(y.stack, waiting(*r), y1.output, o);
            let y2 = Yard {
                stack: y.stack.push(Pending::Op(o)),
                output: y1.output + unstacked(waiting(*r)),
            };
            assert(yard_step(y1, tok) == Ok::<Yard, Seq<char>>(y2));
            lemma_read_infix(y2, *l);
            assert(y2.stack + waiting(*l) =~= y.stack + waiting(s));
            assert(y2.output + emitted(*l) =~= y.output + emitted(s));
        },
        Infix::Bracketed(x) => {
            let open = seq![SpecToken::LeftParen];
            let close = seq![SpecToken::RightParen];
            lemma_yard_from_concat(y, open + infix_tokens(*x), close);
            lemma_yard_from_one(y, SpecToken::RightParen);
            let y1 = Yard { stack: y.stack.push(Pending::Bracket), output: y.output };
            lemma_yard_from_concat(y1, open, infix_tokens(*x));
            lemma_read_infix(y1, *x);
            lemma_waiting_ranks(*x);
            let y2 = Yard { stack: y1.stack + waiting(*x), output: y1.output + emitted(*x) };
            lemma_yard_from_one(y2, SpecToken::LeftParen);
            lemma_unstack_over(y.stack, waiting(*x), y2.output, rank(*x));
            assert(y.stack + waiting(s) =~= y.stack);
            assert(y2.output + unstacked(waiting(*x)) =~= y.output + emitted(s));
            assert(close_bracket(y2) == Ok::<Yard, Seq<char>>(done));
        },
    }
}

/// Precedence: the tokens of a well-ranked infix expression are reordered
/// to the prefix form of the tree that the expression denotes.
pub proof fn lemma_reorder_infix(s: Infix)
    requires
        well_ranked(s),
    ensures
        reorder(infix_tokens(s)) == Ok::<Seq<SpecToken>, Seq<char>>(prefix_tokens(meaning(s))),
{
    let ts = infix_tokens(s);
    let start = start_yard();
    lemma_read_infix(start, s);
    lemma_emitted_and_waiting(s);
    lemma_waiting_ranks(s);
    let y = Yard { stack: start.stack + waiting(s), output: start.output + emitted(s) };
    assert(start.stack =~= Seq::<Pending>::empty().push(Pending::Bracket));
    lemma_unstack_over(Seq::<Pending>::empty(), waiting(s), y.output, rank(s));
    let out = y.output + unstacked(waiting(s));
    assert(out =~= emitted(s) + unstacked(waiting(s)));
    assert(out.reverse() =~= prefix_tokens(meaning(s)));
}

/// The tokens of a well-ranked infix expression are parsed to the tree
/// that the expression denotes, and behind `let`, a name and `=` to the
/// assignment of that tree to the name.
pub proof fn lemma_parse_infix(s: Infix, name: Seq<char>)
    requires
        well_ranked(s),
    ensures
        parse_spec(infix_tokens(s)) == Ok::<SpecProg, Seq<char>>(
            SpecProg::Expression(meaning(s)),
        ),
        parse_spec(
            seq![SpecToken::Keyw(Keyword::Let), SpecToken::Ident(name), SpecToken::Equals]
                + infix_tokens(s),
        ) == Ok::<SpecProg, Seq<char>>(SpecProg::Assign(name, meaning(s))),
{
    let ts = infix_tokens(s);
    let prefix = prefix_tokens(meaning(s));
    lemma_reorder_infix(s);
    assert(prefix.subrange(0, prefix.len() as int) =~= prefix);
    lemma_build_reads_prefix(prefix, 0, meaning(s));
    lemma_infix_tokens_start(s);
    assert(ts.skip(0) =~= ts);
    assert(expression_from(ts, 0) == Ok::<(SpecExpr, Option<SpecToken>), Seq<char>>(
        (meaning(s), None),
    ));
    let head = seq![SpecToken::Keyw(Keyword::Let), SpecToken::Ident(name), SpecToken::Equals];
    let all = head + ts;
    assert(all.skip(3) =~= ts);
    assert(expression_from(all, 3) == Ok::<(SpecExpr, Option<SpecToken>), Seq<char>>(
        (meaning(s), None),
    ));
    assert(all[0] == SpecToken::Keyw(Keyword::Let));
    assert(all[1] == SpecToken::Ident(name));
    assert(all[2] == SpecToken::Equals);
}

/// Associativity: of two binary operators of one rank the left one is
/// applied first. `a`, `b` and `c` are operands, or whatever binds tighter
/// than the two operators.
pub proof fn lemma_equal_ranks_group_left(a: Infix, op1: BinOp, b: Infix, op2: BinOp, c: Infix)
    requires
        precedence(operator_of(op1)) == precedence(operator_of(op2)),
        well_ranked(a) && rank(a) > precedence(operator_of(op1)),
        well_ranked(b) && rank(b) > precedence(operator_of(op1)),
        well_ranked(c) && rank(c) > precedence(operator_of(op1)),
    ensures
        parse_spec(
            infix_tokens(a) + seq![SpecToken::Oper(operator_of(op1))] + infix_tokens(b) + seq![
                SpecToken::Oper(operator_of(op2)),
            ] + infix_tokens(c),
        ) == Ok::<SpecProg, Seq<char>>(
            SpecProg::Expression(
                SpecExpr::BinaryOper(
                    op2,
                    Box::new(
                        SpecExpr::BinaryOper(op1, Box::new(meaning(a)), Box::new(meaning(b))),
                    ),
                    Box::new(meaning(c)),
                ),
            ),
        ),
{
    let left = Infix::Binary(op1, Box::new(a), Box::new(b));
    let all = Infix::Binary(op2, Box::new(left), Box::new(c));
    assert(well_ranked(left));
    assert(well_ranked(all));
    assert(infix_tokens(left) == infix_tokens(a) + seq![SpecToken::Oper(operator_of(op1))]
        + infix_tokens(b));
    assert(infix_tokens(all) == infix_tokens(left) + seq![SpecToken::Oper(operator_of(op2))]
        + infix_tokens(c));
    assert(meaning(left) == SpecExpr::BinaryOper(
        op1,
        Box::new(meaning(a)),
        Box::new(meaning(b)),
    ));
    lemma_parse_infix(all, Seq::empty());
}

/// An infix expression does not start with a keyword.
proof fn lemma_infix_tokens_start(s: Infix)
    ensures
        infix_tokens(s).len() > 0,
        !(infix_tokens(s)[0] is Keyw),
    decreases s,
{
    match s {
        Infix::Binary(_, l, _) => {
            lemma_infix_tokens_start(*l);
        },
        _ => {},
    }
}

} // verus!
