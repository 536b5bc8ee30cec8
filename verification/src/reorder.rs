//! The precedence reorderer: from tokens in infix order to tokens in prefix
//! order.

use vstd::prelude::*;
use crate::lexer::{Operator, SpecToken, Token};
use crate::parser::ParseError;

verus! {

/// How tightly an operator binds: a higher rank binds tighter.
pub open spec fn precedence(op: Operator) -> nat {
    match op {
        Operator::BitOr => 8,
        Operator::BitXor => 10,
        Operator::BitAnd => 12,
        Operator::BitShRight => 15,
        Operator::BitShLeft => 15,
        Operator::Plus => 20,
        Operator::Minus => 20,
        Operator::Times => 30,
        Operator::Divide => 30,
        Operator::BitNeg => 40,
    }
}

/// The rank of `op`.
pub fn priority(op: Operator) -> (p: u8)
    ensures
        p == precedence(op),
{
    match op {
        Operator::BitOr => 8,
        Operator::BitXor => 10,
        Operator::BitAnd => 12,
        Operator::BitShRight => 15,
        Operator::BitShLeft => 15,
        Operator::Plus => 20,
        Operator::Minus => 20,
        Operator::Times => 30,
        Operator::Divide => 30,
        Operator::BitNeg => 40,
    }
}

/// What waits on the reorderer's stack: an operator, or a closing bracket
/// whose opening bracket has not been met yet.
#[derive(Clone, Copy, Debug, PartialEq, Eq, Structural)]
pub enum Pending {
    Bracket,
    Op(Operator),
}

/// The state of the reorderer: the stack, top last, and the output so far,
/// which is the prefix form read backwards.
pub struct Yard {
    pub stack: Seq<Pending>,
    pub output: Seq<SpecToken>,
}

/// The message for a keyword among the infix tokens.
pub open spec fn msg_keyword_in_infix() -> Seq<char> {
    "keyword 'Let' found while parsing expression."@
}

/// The message for an equals sign among the infix tokens.
pub open spec fn msg_equals_in_infix() -> Seq<char> {
    "equality sign '=' found while parsing expression."@
}

/// The message for an opening bracket without a closing one.
pub open spec fn msg_missing_closing() -> Seq<char> {
    "mismatched brackets, expected right paren."@
}

/// The message for a closing bracket without an opening one.
pub open spec fn msg_missing_opening() -> Seq<char> {
    "mismatched brackets, expected left paren."@
}

/// Moves operators from the stack to the output down to the nearest closing
/// bracket, which is dropped. Fails where the stack holds no bracket.
pub open spec fn unstack_to_bracket(y: Yard) -> Result<Yard, Seq<char>>
    decreases y.stack.len(),
{
    if y.stack.len() == 0 {
        Err(msg_missing_closing())
    } else {
        match y.stack.last() {
            Pending::Bracket => Ok(Yard { stack: y.stack.drop_last(), output: y.output }),
            Pending::Op(op) => unstack_to_bracket(
                Yard { stack: y.stack.drop_last(), output: y.output.push(SpecToken::Oper(op)) },
            ),
        }
    }
}

/// Moves from the stack to the output the operators on top of it that bind
/// tighter than `op`, then puts `op` on the stack. An operator of the rank
/// of `op` stays: it stands to the right of `op` and is applied after it.
pub open spec fn stack_operator(y: Yard, op: Operator) -> Yard
    decreases y.stack.len(),
{
    if y.stack.len() > 0 && y.stack.last() is Op && precedence(y.stack.last()->Op_0)
        > precedence(op) {
        stack_operator(
            Yard {
                stack: y.stack.drop_last(),
                output: y.output.push(SpecToken::Oper(y.stack.last()->Op_0)),
            },
            op,
        )
    } else {
        Yard { stack: y.stack.push(Pending::Op(op)), output: y.output }
    }
}

/// The state after an opening bracket has been read: the operators down to
/// the nearest closing bracket are moved out. Fails where that bracket is the
/// one that the stack started with: no closing bracket of the tokens is left
/// for this opening one.
pub open spec fn close_bracket(y: Yard) -> Result<Yard, Seq<char>> {
    match unstack_to_bracket(y) {
        Err(m) => Err(m),
        Ok(z) => if z.stack.len() == 0 {
            Err(msg_missing_closing())
        } else {
            Ok(z)
        },
    }
}

/// The state after one more token has been read.
pub open spec fn yard_step(y: Yard, t: SpecToken) -> Result<Yard, Seq<char>> {
    match t {
        SpecToken::Keyw(_) => Err(msg_keyword_in_infix()),
        SpecToken::Equals => Err(msg_equals_in_infix()),
        SpecToken::Ident(_) | SpecToken::Num(_) => Ok(
            Yard { stack: y.stack, output: y.output.push(t) },
        ),
        SpecToken::RightParen => Ok(
            Yard { stack: y.stack.push(Pending::Bracket), output: y.output },
        ),
        SpecToken::LeftParen => close_bracket(y),
        SpecToken::Oper(op) => Ok(stack_operator(y, op)),
    }
}

/// The state in which reading starts: one closing bracket on the stack,
/// which stands for the end of the tokens, and no output.
pub open spec fn start_yard() -> Yard {
    Yard { stack: seq![Pending::Bracket], output: Seq::empty() }
}

/// The state after the tokens `ts` have been read from the last to the
/// first, starting in the state `y`.
pub open spec fn yard_from(y: Yard, ts: Seq<SpecToken>) -> Result<Yard, Seq<char>>
    decreases ts.len(),
{
    if ts.len() == 0 {
        Ok(y)
    } else {
        match yard_from(y, ts.drop_first()) {
            Err(e) => Err(e),
            Ok(z) => yard_step(z, ts.first()),
        }
    }
}

/// The state after the tokens `ts` have been read from the last to the
/// first.
pub open spec fn yard_after(ts: Seq<SpecToken>) -> Result<Yard, Seq<char>> {
    yard_from(start_yard(), ts)
}

/// The prefix form of the infix tokens `ts`: the tokens are read from the
/// last to the first, what is left on the stack is moved out as if one
/// opening bracket followed, and the output is turned round. Fails on a
/// keyword or an equals sign and on brackets that do not match.
pub open spec fn reorder(ts: Seq<SpecToken>) -> Result<Seq<SpecToken>, Seq<char>> {
    match yard_after(ts) {
        Err(e) => Err(e),
        Ok(y) => match unstack_to_bracket(y) {
            Err(e) => Err(e),
            Ok(z) => if z.stack.len() > 0 {
                Err(msg_missing_opening())
            } else {
                Ok(z.output.reverse())
            },
        },
    }
}

/// Whether `t` is a bracket.
pub open spec fn is_bracket(t: SpecToken) -> bool {
    t is LeftParen || t is RightParen
}

/// Whether `t` may stand in prefix order: an operand or an operator.
pub open spec fn is_plain(t: SpecToken) -> bool {
    t is Ident || t is Num || t is Oper
}

/// Whether every token of `ts` is an operand or an operator.
pub open spec fn all_plain(ts: Seq<SpecToken>) -> bool {
    forall|k: int| 0 <= k < ts.len() ==> is_plain(#[trigger] ts[k])
}

/// Whether `ts` holds neither a keyword nor an equals sign.
pub open spec fn infix_only(ts: Seq<SpecToken>) -> bool {
    forall|k: int| 0 <= k < ts.len() ==> !((#[trigger] ts[k]) is Keyw) && !(ts[k] is Equals)
}

/// What a token adds to the depth: a closing bracket one, an opening
/// bracket minus one.
pub open spec fn depth_of(t: SpecToken) -> int {
    match t {
        SpecToken::RightParen => 1,
        SpecToken::LeftParen => -1,
        _ => 0,
    }
}

/// The number of closing brackets of `ts` less the number of its opening
/// brackets.
pub open spec fn depth(ts: Seq<SpecToken>) -> int
    decreases ts.len(),
{
    if ts.len() == 0 {
        0
    } else {
        depth(ts.drop_first()) + depth_of(ts.first())
    }
}

/// The number of brackets in `ts`.
pub open spec fn bracket_count(ts: Seq<SpecToken>) -> nat
    decreases ts.len(),
{
    if ts.len() == 0 {
        0
    } else {
        bracket_count(ts.drop_first()) + if is_bracket(ts.first()) {
            1nat
        } else {
            0nat
        }
    }
}

/// Whether no end piece of `ts` has more opening than closing brackets.
pub open spec fn never_open(ts: Seq<SpecToken>) -> bool {
    forall|k: int| 0 <= k <= ts.len() ==> depth(#[trigger] ts.skip(k)) >= 0
}

/// Whether the brackets of `ts` match: there are as many opening as closing
/// ones, and behind each opening one its closing one.
pub open spec fn balanced(ts: Seq<SpecToken>) -> bool {
    depth(ts) == 0 && never_open(ts)
}

/// The number of brackets on a stack.
pub open spec fn brackets_in(stack: Seq<Pending>) -> nat
    decreases stack.len(),
{
    if stack.len() == 0 {
        0
    } else {
        brackets_in(stack.drop_last()) + if stack.last() is Bracket {
            1nat
        } else {
            0nat
        }
    }
}

/// Whether the bracket that the stack started with is still at its bottom.
pub open spec fn seeded(y: Yard) -> bool {
    y.stack.len() > 0 && y.stack[0] == Pending::Bracket && all_plain(y.output)
}

/// A stack with a bracket at its bottom holds at least that one.
proof fn lemma_bottom_bracket_counts(stack: Seq<Pending>)
    requires
        stack.len() > 0,
        stack[0] == Pending::Bracket,
    ensures
        brackets_in(stack) >= 1,
    decreases stack.len(),
{
    if stack.len() > 1 {
        lemma_bottom_bracket_counts(stack.drop_last());
    }
}

/// What moving out down to the nearest bracket does to a stack with the
/// first bracket at its bottom: it succeeds, takes one bracket away, moves
/// operators only, and empties the stack exactly where that first bracket is
/// the only one.
proof fn lemma_unstack(y: Yard)
    requires
        seeded(y),
    ensures
        unstack_to_bracket(y) is Ok,
        ({
            let z = unstack_to_bracket(y)->Ok_0;
            &&& brackets_in(z.stack) + 1 == brackets_in(y.stack)
            &&& z.output.len() + z.stack.len() + 1 == y.output.len() + y.stack.len()
            &&& all_plain(z.output)
            &&& z.stack.len() > 0 ==> z.stack[0] == Pending::Bracket
            &&& z.stack.len() == 0 <==> brackets_in(y.stack) == 1
        }),
    decreases y.stack.len(),
{
    let rest = y.stack.drop_last();
    match y.stack.last() {
        Pending::Bracket => {
            if rest.len() > 0 {
                lemma_bottom_bracket_counts(rest);
            }
        },
        Pending::Op(op) => {
            lemma_unstack(Yard { stack: rest, output: y.output.push(SpecToken::Oper(op)) });
        },
    }
}

/// What stacking an operator does to a stack with the first bracket at its
/// bottom: the brackets stay, and stack and output together hold one token
/// more.
proof fn lemma_stack_operator(y: Yard, op: Operator)
    requires
        seeded(y),
    ensures
        ({
            let z = stack_operator(y, op);
            &&& seeded(z)
            &&& brackets_in(z.stack) == brackets_in(y.stack)
            &&& z.output.len() + z.stack.len() == y.output.len() + y.stack.len() + 1
        }),
    decreases y.stack.len(),
{
    if y.stack.len() > 0 && y.stack.last() is Op && precedence(y.stack.last()->Op_0) > precedence(
        op,
    ) {
        lemma_stack_operator(
            Yard {
                stack: y.stack.drop_last(),
                output: y.output.push(SpecToken::Oper(y.stack.last()->Op_0)),
            },
            op,
        );
    } else {
        let z = stack_operator(y, op);
        assert(z.stack.drop_last() =~= y.stack);
    }
}

/// What holds of the state `y` after the tokens `ts` have been read: the
/// first bracket is still at the bottom of the stack, which holds one bracket
/// for it and one for each closing bracket of `ts` that has met no opening
/// one, and stack and output together hold these and the tokens of `ts` that
/// are no brackets.
pub open spec fn holds_after(ts: Seq<SpecToken>, y: Yard) -> bool {
    &&& seeded(y)
    &&& brackets_in(y.stack) == 1 + depth(ts)
    &&& y.output.len() + y.stack.len() + bracket_count(ts) == ts.len() + 1 + depth(ts)
}

/// Reading `ts` succeeds exactly where it holds no keyword and no equals
/// sign and no end piece of it has more opening than closing brackets.
proof fn lemma_yard_after(ts: Seq<SpecToken>)
    ensures
        yard_after(ts) is Ok <==> infix_only(ts) && never_open(ts),
        yard_after(ts) is Ok ==> holds_after(ts, yard_after(ts)->Ok_0),
    decreases ts.len(),
{
    if ts.len() == 0 {
        assert forall|k: int| 0 <= k <= ts.len() implies depth(#[trigger] ts.skip(k)) >= 0 by {
            assert(ts.skip(k) =~= ts);
        }
        let y = yard_after(ts)->Ok_0;
        assert(y.stack.drop_last() =~= Seq::<Pending>::empty());
        assert(brackets_in(y.stack.drop_last()) == 0);
    } else {
        let rest = ts.drop_first();
        let t = ts.first();
        lemma_yard_after(rest);
        assert(ts.skip(0) =~= ts);
        assert forall|k: int| 1 <= k <= ts.len() implies ts.skip(k) == rest.skip(k - 1) by {
            assert(ts.skip(k) =~= rest.skip(k - 1));
        }
        if infix_only(ts) {
            assert forall|k: int| 0 <= k < rest.len() implies !((#[trigger] rest[k]) is Keyw) && !(
            rest[k] is Equals) by {
                assert(rest[k] == ts[k + 1]);
            }
        }
        if never_open(ts) {
            assert forall|k: int| 0 <= k <= rest.len() implies depth(#[trigger] rest.skip(k))
                >= 0 by {
                assert(ts.skip(k + 1) == rest.skip(k));
            }
        }
        if infix_only(rest) && !(t is Keyw) && !(t is Equals) {
            assert forall|k: int| 0 <= k < ts.len() implies !((#[trigger] ts[k]) is Keyw) && !(
            ts[k] is Equals) by {
                if k > 0 {
                    assert(ts[k] == rest[k - 1]);
                }
            }
        }
        if never_open(rest) && depth(ts) >= 0 {
            assert forall|k: int| 0 <= k <= ts.len() implies depth(#[trigger] ts.skip(k))
                >= 0 by {
                if k > 0 {
                    assert(ts.skip(k) == rest.skip(k - 1));
                }
            }
        }
        if !infix_only(rest) {
            assert(!infix_only(ts));
        }
        if !never_open(rest) {
            assert(!never_open(ts));
        }
        if never_open(ts) {
            assert(depth(ts.skip(0)) >= 0);
        }
        match yard_after(rest) {
            Err(_) => {},
            Ok(y) => {
                match t {
                    SpecToken::LeftParen => {
                        lemma_unstack(y);
                        if yard_step(y, t) is Ok {
                            assert(holds_after(ts, yard_step(y, t)->Ok_0));
                        }
                    },
                    SpecToken::RightParen => {
                        let z = yard_step(y, t)->Ok_0;
                        assert(z.stack.drop_last() =~= y.stack);
                        assert(holds_after(ts, z));
                    },
                    SpecToken::Oper(op) => {
                        lemma_stack_operator(y, op);
                        assert(holds_after(ts, stack_operator(y, op)));
                    },
                    SpecToken::Ident(_) | SpecToken::Num(_) => {
                        let z = yard_step(y, t)->Ok_0;
                        assert forall|k: int| 0 <= k < z.output.len() implies is_plain(
                            #[trigger] z.output[k],
                        ) by {
                            if k < y.output.len() {
                                assert(z.output[k] == y.output[k]);
                            }
                        }
                        assert(holds_after(ts, z));
                    },
                    _ => {
                        assert(ts[0] == t);
                    },
                }
            },
        }
    }
}

/// Reordering succeeds exactly on the sequences that hold no keyword and no
/// equals sign and whose brackets match.
pub proof fn lemma_reorder_succeeds(ts: Seq<SpecToken>)
    ensures
        reorder(ts) is Ok <==> infix_only(ts) && balanced(ts),
{
    lemma_yard_after(ts);
    if yard_after(ts) is Ok {
        lemma_unstack(yard_after(ts)->Ok_0);
    }
}

/// What comes out of reordering holds operands and operators only, and is
/// shorter than what went in by the number of its brackets.
pub proof fn lemma_reorder_output(ts: Seq<SpecToken>)
    requires
        reorder(ts) is Ok,
    ensures
        all_plain(reorder(ts)->Ok_0),
        reorder(ts)->Ok_0.len() + bracket_count(ts) == ts.len(),
{
    lemma_yard_after(ts);
    let y = yard_after(ts)->Ok_0;
    lemma_unstack(y);
    let z = unstack_to_bracket(y)->Ok_0;
    let out = z.output.reverse();
    assert forall|k: int| 0 <= k < out.len() implies is_plain(#[trigger] out[k]) by {
        assert(out[k] == z.output[z.output.len() - 1 - k]);
    }
}

/// An error met on a suffix of the tokens is the error of the whole: the
/// tokens are read from the last to the first.
pub proof fn lemma_yard_error_spreads(ts: Seq<SpecToken>, i: int)
    requires
        0 <= i <= ts.len(),
        yard_after(ts.subrange(i, ts.len() as int)) is Err,
    ensures
        yard_after(ts) == yard_after(ts.subrange(i, ts.len() as int)),
    decreases i,
{
    if i == 0 {
        assert(ts.subrange(0, ts.len() as int) =~= ts);
    } else {
        let longer = ts.subrange(i - 1, ts.len() as int);
        assert(longer.drop_first() =~= ts.subrange(i, ts.len() as int));
        lemma_yard_error_spreads(ts, i - 1);
    }
}

/// Moves the tokens of `output` into a new vector, last first.
fn reversed(output: Vec<Token>) -> (r: Vec<Token>)
    ensures
        r.deep_view() == output.deep_view().reverse(),
{
    let mut output = output;
    let mut r: Vec<Token> = Vec::new();
    let ghost all = output.deep_view();
    while output.len() > 0
        invariant
            output.len() + r.len() == all.len(),
            forall|k: int| 0 <= k < output.len() ==> output[k].deep_view() == all[k],
            forall|k: int| 0 <= k < r.len() ==> r[k].deep_view() == all[all.len() - 1 - k],
        decreases output.len(),
    {
        let t = output.pop().unwrap();
        r.push(t);
    }
    assert(r.deep_view() =~= all.reverse());
    r
}

/// Moves operators from the stack to the output down to the nearest closing
/// bracket, which is dropped. Returns whether there was a bracket.
fn unstack(stack: &mut Vec<Pending>, output: &mut Vec<Token>) -> (found: bool)
    ensures
        match unstack_to_bracket(Yard { stack: old(stack)@, output: old(output).deep_view() }) {
            Ok(z) => found && final(stack)@ == z.stack && final(output).deep_view() == z.output,
            Err(m) => !found && m == msg_missing_closing(),
        },
{
    let ghost y = Yard { stack: stack@, output: output.deep_view() };
    loop
        invariant
            y == (Yard { stack: old(stack)@, output: old(output).deep_view() }),
            unstack_to_bracket(Yard { stack: stack@, output: output.deep_view() })
                == unstack_to_bracket(y),
        decreases stack.len(),
    {
        let ghost out_before = output.deep_view();
        match stack.pop() {
            None => {
                return false;
            },
            Some(Pending::Bracket) => {
                return true;
            },
            Some(Pending::Op(op)) => {
                output.push(Token::Oper(op));
                assert(output.deep_view() =~= out_before.push(SpecToken::Oper(op)));
            },
        }
    }
}

/// Moves from the stack to the output the operators on top of it that bind
/// tighter than `op`, then puts `op` on the stack.
fn stack_up(stack: &mut Vec<Pending>, output: &mut Vec<Token>, op: Operator)
    ensures
        stack_operator(Yard { stack: old(stack)@, output: old(output).deep_view() }, op) == (Yard {
            stack: final(stack)@,
            output: final(output).deep_view(),
        }),
{
    let ghost y = Yard { stack: stack@, output: output.deep_view() };
    loop
        invariant
            y == (Yard { stack: old(stack)@, output: old(output).deep_view() }),
            stack_operator(Yard { stack: stack@, output: output.deep_view() }, op)
                == stack_operator(y, op),
        decreases stack.len(),
    {
        let ghost out_before = output.deep_view();
        let ghost stack_before = stack@;
        match stack.pop() {
            Some(Pending::Op(top)) => {
                if priority(top) > priority(op) {
                    output.push(Token::Oper(top));
                    assert(output.deep_view() =~= out_before.push(SpecToken::Oper(top)));
                } else {
                    stack.push(Pending::Op(top));
                    assert(stack@ =~= stack_before);
                    stack.push(Pending::Op(op));
                    return ;
                }
            },
            Some(Pending::Bracket) => {
                stack.push(Pending::Bracket);
                assert(stack@ =~= stack_before);
                stack.push(Pending::Op(op));
                return ;
            },
            None => {
                stack.push(Pending::Op(op));
                return ;
            },
        }
    }
}

/// Rewrites the infix tokens `tokens` in prefix order, without brackets: each
/// operator comes before its operands. An operator of a higher rank binds
/// tighter, operators of one rank group to the left (`8 - 3 - 2` is read as
/// `(8 - 3) - 2`), and brackets group as they stand. Fails on a keyword or an
/// equals sign and on brackets that do not match, and on nothing else.
pub fn shunting_yard(tokens: &[Token]) -> (r: Result<Vec<Token>, ParseError>)
    ensures
        match r {
            Ok(out) => reorder(tokens.deep_view()) == Ok::<Seq<SpecToken>, Seq<char>>(
                out.deep_view(),
            ),
            Err(e) => reorder(tokens.deep_view()) == Err::<Seq<SpecToken>, Seq<char>>(e@),
        },
        r is Ok <==> infix_only(tokens.deep_view()) && balanced(tokens.deep_view()),
        r matches Ok(out) ==> all_plain(out.deep_view()) && out.len() + bracket_count(
            tokens.deep_view(),
        ) == tokens.len(),
{
    let ghost ts = tokens.deep_view();
    let n: usize = tokens.len();
    let mut output: Vec<Token> = Vec::new();
    let mut stack: Vec<Pending> = Vec::new();
    stack.push(Pending::Bracket);
    let mut i: usize = n;
    proof {
        lemma_reorder_succeeds(ts);
        assert(ts.subrange(n as int, n as int) =~= Seq::<SpecToken>::empty());
        assert(stack@ =~= seq![Pending::Bracket]);
        assert(output.deep_view() =~= Seq::<SpecToken>::empty());
    }
    while i > 0
        invariant
            ts == tokens.deep_view(),
            n == tokens.len(),
            i <= n,
            reorder(ts) is Ok <==> infix_only(ts) && balanced(ts),
            yard_after(ts.subrange(i as int, n as int)) == Ok::<Yard, Seq<char>>(
                Yard { stack: stack@, output: output.deep_view() },
            ),
        decreases i,
    {
        i -= 1;
        let ghost y = Yard { stack: stack@, output: output.deep_view() };
        proof {
            let suffix = ts.subrange(i as int, n as int);
            assert(suffix.drop_first() =~= ts.subrange(i + 1, n as int));
            assert(suffix.first() == tokens[i as int].deep_view());
            if yard_after(suffix) is Err {
                lemma_yard_error_spreads(ts, i as int);
            }
        }
        match &tokens[i] {
            Token::Keyw(_) => {
                return Err(ParseError::new("keyword 'Let' found while parsing expression."));
            },
            Token::Equals => {
                return Err(
                    ParseError::new("equality sign '=' found while parsing expression."),
                );
            },
            Token::Ident(_) | Token::Num(_) => {
                let t = tokens[i].clone();
                output.push(t);
                assert(output.deep_view() =~= y.output.push(t.deep_view()));
            },
            Token::RightParen => {
                stack.push(Pending::Bracket);
            },
            Token::LeftParen => {
                if !unstack(&mut stack, &mut output) || stack.len() == 0 {
                    return Err(ParseError::new("mismatched brackets, expected right paren."));
                }
            },
            Token::Oper(op) => {
                stack_up(&mut stack, &mut output, *op);
            },
        }
    }
    assert(ts.subrange(0, n as int) =~= ts);
    if !unstack(&mut stack, &mut output) {
        return Err(ParseError::new("mismatched brackets, expected right paren."));
    }
    if stack.len() > 0 {
        return Err(ParseError::new("mismatched brackets, expected left paren."));
    }
    proof {
        lemma_reorder_output(ts);
    }
    Ok(reversed(output))
}

} // verus!
