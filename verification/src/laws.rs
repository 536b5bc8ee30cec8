//! What holds of the stages together: tokens that are written out are read
//! back, a number alone is a program whose value it is, and an assignment is
//! seen by what is evaluated after it.

use vstd::prelude::*;
use crate::ast::{SpecExpr, SpecProg};
use crate::chars::{is_alphabetic, is_numeric, is_whitespace};
use crate::decimal::{
    all_ascii_digits, decimal_text, lemma_decimal_text_value, u16_of_digits,
};
use crate::eval::{eval_spec, Bindings};
use crate::lexer::{
    keyword_of, lemma_run_bounds, lemma_scan_token_advances, lex_from, lex_spec, msg_not_u16,
    numeric_run_end, scan_token, skip_whitespace, token_text, word_run_end, Operator, SpecToken,
};
use crate::parser::parse_spec;
use crate::precedence::{lemma_parse_infix, Infix};

verus! {

/// Whether `name` can be written as an identifier: it starts with an
/// alphabetic character that is neither numeric nor white space, goes on with
/// alphabetic and numeric characters, and is no keyword.
pub open spec fn is_identifier(name: Seq<char>) -> bool {
    &&& name.len() > 0
    &&& is_alphabetic(name[0])
    &&& !is_numeric(name[0])
    &&& !is_whitespace(name[0])
    &&& forall|k: int|
        0 < k < name.len() ==> is_alphabetic(#[trigger] name[k]) || is_numeric(name[k])
    &&& keyword_of(name) is None
}

/// Whether a token can be written out and read back: its name, if it has
/// one, is an identifier.
pub open spec fn well_formed(t: SpecToken) -> bool {
    match t {
        SpecToken::Ident(name) => is_identifier(name),
        _ => true,
    }
}

/// Whether every token of `ts` is well formed.
pub open spec fn all_well_formed(ts: Seq<SpecToken>) -> bool {
    forall|k: int| 0 <= k < ts.len() ==> well_formed(#[trigger] ts[k])
}

/// The tokens written out, with one space between neighbours.
pub open spec fn source_text(ts: Seq<SpecToken>) -> Seq<char>
    decreases ts.len(),
{
    if ts.len() == 0 {
        Seq::empty()
    } else if ts.len() == 1 {
        token_text(ts[0])
    } else {
        token_text(ts[0]) + seq![' '] + source_text(ts.drop_first())
    }
}

/// A run of numeric characters ends where the first other character stands.
proof fn lemma_numeric_run(s: Seq<char>, i: int, j: int)
    requires
        0 <= i <= j <= s.len(),
        forall|k: int| i <= k < j ==> is_numeric(#[trigger] s[k]),
        j == s.len() || !is_numeric(s[j]),
    ensures
        numeric_run_end(s, i) == j,
    decreases j - i,
{
    if i < j {
        lemma_numeric_run(s, i + 1, j);
    }
}

/// A run of alphabetic and numeric characters ends where the first other
/// character stands.
proof fn lemma_word_run(s: Seq<char>, i: int, j: int)
    requires
        0 <= i <= j <= s.len(),
        forall|k: int| i <= k < j ==> is_alphabetic(#[trigger] s[k]) || is_numeric(s[k]),
        j == s.len() || !(is_alphabetic(s[j]) || is_numeric(s[j])),
    ensures
        word_run_end(s, i) == j,
    decreases j - i,
{
    if i < j {
        lemma_word_run(s, i + 1, j);
    }
}

/// Every character of a run of alphabetic and numeric characters is one.
proof fn lemma_word_run_chars(s: Seq<char>, i: int)
    requires
        0 <= i <= s.len(),
    ensures
        forall|k: int|
            i <= k < word_run_end(s, i) ==> is_alphabetic(#[trigger] s[k]) || is_numeric(s[k]),
    decreases s.len() - i,
{
    if i < s.len() && (is_alphabetic(s[i]) || is_numeric(s[i])) {
        lemma_word_run_chars(s, i + 1);
    }
}

/// Where skipping white space stops, no white space stands.
proof fn lemma_skip_stops(s: Seq<char>, i: int)
    requires
        0 <= i <= s.len(),
    ensures
        skip_whitespace(s, i) == s.len() || !is_whitespace(s[skip_whitespace(s, i)]),
    decreases s.len() - i,
{
    if i < s.len() && is_whitespace(s[i]) {
        lemma_skip_stops(s, i + 1);
    }
}

/// A well-formed token is written with at least one character, and the
/// first is no white space.
pub proof fn lemma_token_text_start(t: SpecToken)
    requires
        well_formed(t),
    ensures
        token_text(t).len() > 0,
        !is_whitespace(token_text(t)[0]),
{
    match t {
        SpecToken::Num(n) => {
            lemma_decimal_text_value(n as nat);
        },
        _ => {},
    }
}

/// Well-formed tokens are written with at least one character, unless there
/// are none, and the first is that of the first token.
proof fn lemma_source_text_start(ts: Seq<SpecToken>)
    requires
        ts.len() > 0,
        all_well_formed(ts),
    ensures
        source_text(ts).len() > 0,
        source_text(ts)[0] == token_text(ts[0])[0],
{
    lemma_token_text_start(ts[0]);
}

/// A written token that stands at `text[p]` and is followed by a space or by
/// nothing is scanned as that token.
proof fn lemma_scan_written_token(text: Seq<char>, p: int, t: SpecToken)
    requires
        well_formed(t),
        0 <= p,
        p + token_text(t).len() <= text.len(),
        text.subrange(p, p + token_text(t).len()) == token_text(t),
        p + token_text(t).len() == text.len() || text[p + token_text(t).len()] == ' ',
    ensures
        scan_token(text, p) == Ok::<(SpecToken, int), (Seq<char>, int)>(
            (t, p + token_text(t).len()),
        ),
{
    let w = token_text(t);
    let q = p + w.len();
    lemma_token_text_start(t);
    assert forall|k: int| 0 <= k < w.len() implies text[p + k] == #[trigger] w[k] by {
        assert(text.subrange(p, q)[k] == text[p + k]);
    }
    assert(text[p] == w[0]);
    match t {
        SpecToken::Ident(name) => {
            assert forall|k: int| p + 1 <= k < q implies is_alphabetic(#[trigger] text[k])
                || is_numeric(text[k]) by {
                assert(text[k] == name[k - p]);
            }
            lemma_word_run(text, p + 1, q);
        },
        SpecToken::Num(n) => {
            lemma_decimal_text_value(n as nat);
            assert forall|k: int| p <= k < q implies is_numeric(#[trigger] text[k]) by {
                assert(text[k] == w[k - p]);
            }
            lemma_numeric_run(text, p + 1, q);
        },
        SpecToken::Oper(op) => {
            if op == Operator::BitShLeft || op == Operator::BitShRight {
                assert(text[p + 1] == w[1]);
            }
        },
        SpecToken::Keyw(k) => {
            assert(text[p + 1] == w[1]);
            assert(text[p + 2] == w[2]);
            lemma_word_run(text, p + 1, q);
            assert(text.subrange(p, q) =~= seq!['l', 'e', 't']);
        },
        _ => {},
    }
}

/// Well-formed tokens that are written out from `text[p]` to the end of the
/// text are the tokens of the text from there on.
proof fn lemma_lex_written(text: Seq<char>, p: int, ts: Seq<SpecToken>)
    requires
        ts.len() > 0,
        all_well_formed(ts),
        0 <= p <= text.len(),
        text.skip(p) == source_text(ts),
    ensures
        lex_from(text, p) == Ok::<Seq<SpecToken>, Seq<char>>(ts),
    decreases ts.len(),
{
    let t = ts[0];
    let w = token_text(t);
    let q = p + w.len();
    lemma_token_text_start(t);
    lemma_source_text_start(ts);
    assert(text.skip(p)[0] == text[p]);
    assert(skip_whitespace(text, p) == p);
    if ts.len() == 1 {
        assert(text.subrange(p, q) =~= text.skip(p));
        lemma_scan_written_token(text, p, t);
        assert(seq![t] + Seq::<SpecToken>::empty() =~= ts);
    } else {
        let rest = ts.drop_first();
        assert(all_well_formed(rest)) by {
            assert forall|k: int| 0 <= k < rest.len() implies well_formed(#[trigger] rest[k]) by {
                assert(rest[k] == ts[k + 1]);
            }
        }
        lemma_source_text_start(rest);
        lemma_token_text_start(rest[0]);
        let tail = source_text(rest);
        assert(text.skip(p) == w + seq![' '] + tail);
        assert(text.subrange(p, q) =~= w) by {
            assert forall|k: int| 0 <= k < w.len() implies text.subrange(p, q)[k] == w[k] by {
                assert(text.skip(p)[k] == text[p + k]);
            }
        }
        assert(text[q] == ' ') by {
            assert(text.skip(p)[q - p] == text[q]);
        }
        lemma_scan_written_token(text, p, t);
        assert(text[q + 1] == tail[0]) by {
            assert(text.skip(p)[q + 1 - p] == text[q + 1]);
        }
        assert(text.skip(q + 1) =~= tail) by {
            assert forall|k: int| 0 <= k < tail.len() implies text.skip(q + 1)[k] == tail[k] by {
                assert(text.skip(p)[q + 1 - p + k] == text[q + 1 + k]);
            }
        }
        assert(skip_whitespace(text, q + 1) == q + 1);
        assert(skip_whitespace(text, q) == q + 1);
        lemma_lex_written(text, q + 1, rest);
        assert(lex_from(text, q) == lex_from(text, q + 1));
        assert(seq![t] + rest =~= ts);
    }
}

/// A token that is scanned where no white space stands is well formed.
proof fn lemma_scanned_token_well_formed(s: Seq<char>, j: int)
    requires
        0 <= j < s.len(),
        !is_whitespace(s[j]),
    ensures
        scan_token(s, j) is Ok ==> well_formed(scan_token(s, j)->Ok_0.0),
{
    if scan_token(s, j) is Ok {
        match scan_token(s, j)->Ok_0.0 {
            SpecToken::Ident(name) => {
                let e = word_run_end(s, j + 1);
                lemma_run_bounds(s, j + 1);
                lemma_word_run_chars(s, j + 1);
                assert(name == s.subrange(j, e));
                assert forall|k: int| 0 < k < name.len() implies is_alphabetic(
                    #[trigger] name[k],
                ) || is_numeric(name[k]) by {
                    assert(name[k] == s[j + k]);
                }
            },
            _ => {},
        }
    }
}

/// Every token of a text is well formed.
pub proof fn lemma_lexed_tokens_well_formed(s: Seq<char>, i: int)
    requires
        0 <= i <= s.len(),
    ensures
        lex_from(s, i) is Ok ==> all_well_formed(lex_from(s, i)->Ok_0),
    decreases s.len() - i,
{
    if i < s.len() && lex_from(s, i) is Ok {
        let j = skip_whitespace(s, i);
        lemma_run_bounds(s, i);
        lemma_skip_stops(s, i);
        lemma_scan_token_advances(s, j);
        let t = scan_token(s, j)->Ok_0.0;
        let k = scan_token(s, j)->Ok_0.1;
        lemma_scanned_token_well_formed(s, j);
        lemma_lexed_tokens_well_formed(s, k);
        let rest = lex_from(s, k)->Ok_0;
        let ts = lex_from(s, i)->Ok_0;
        assert(ts == seq![t] + rest);
        assert forall|m: int| 0 <= m < ts.len() implies well_formed(#[trigger] ts[m]) by {
            if m > 0 {
                assert(ts[m] == rest[m - 1]);
            }
        }
    }
}

/// Well-formed tokens that are written out with one space between
/// neighbours are tokenized to themselves.
pub proof fn lemma_written_tokens_are_read_back(ts: Seq<SpecToken>)
    requires
        all_well_formed(ts),
    ensures
        lex_spec(source_text(ts)) == Ok::<Seq<SpecToken>, Seq<char>>(ts),
{
    let text = source_text(ts);
    if ts.len() == 0 {
        assert(ts =~= Seq::<SpecToken>::empty());
    } else {
        assert(text.skip(0) =~= text);
        lemma_lex_written(text, 0, ts);
    }
}

/// Round trip: where a text has tokens, writing them out with one space
/// between neighbours gives a text with the same tokens.
pub proof fn lemma_lex_round_trip(s: Seq<char>)
    requires
        lex_spec(s) is Ok,
    ensures
        lex_spec(source_text(lex_spec(s)->Ok_0)) == lex_spec(s),
{
    lemma_lexed_tokens_well_formed(s, 0);
    lemma_written_tokens_are_read_back(lex_spec(s)->Ok_0);
}

/// A non-empty text of ASCII digits is one number token, where the digits
/// denote a 16-bit number, and an error where they do not.
pub proof fn lemma_lex_digits(s: Seq<char>)
    requires
        s.len() > 0,
        all_ascii_digits(s),
    ensures
        lex_spec(s) == match u16_of_digits(s) {
            Some(n) => Ok::<Seq<SpecToken>, Seq<char>>(seq![SpecToken::Num(n)]),
            None => Err::<Seq<SpecToken>, Seq<char>>(msg_not_u16(s)),
        },
{
    assert(is_numeric(s[0]));
    assert(skip_whitespace(s, 0) == 0);
    lemma_numeric_run(s, 1, s.len() as int);
    assert(s.subrange(0, s.len() as int) =~= s);
    match u16_of_digits(s) {
        Some(n) => {
            assert(lex_from(s, s.len() as int) == Ok::<Seq<SpecToken>, Seq<char>>(Seq::empty()));
            assert(seq![SpecToken::Num(n)] + Seq::<SpecToken>::empty() =~= seq![
                SpecToken::Num(n),
            ]);
        },
        None => {},
    }
}

/// A number token alone is the program that is that constant.
pub proof fn lemma_parse_number(n: u16)
    ensures
        parse_spec(seq![SpecToken::Num(n)]) == Ok::<SpecProg, Seq<char>>(
            SpecProg::Expression(SpecExpr::Const(n)),
        ),
{
    lemma_parse_infix(Infix::Const(n), Seq::empty());
}

/// A 16-bit number in decimal notation is tokenized, parsed and evaluated
/// to itself, in any context, and the context stays as it is.
pub proof fn lemma_literal_evaluates_to_itself(n: u16, ctx: Bindings)
    ensures
        lex_spec(decimal_text(n as nat)) == Ok::<Seq<SpecToken>, Seq<char>>(
            seq![SpecToken::Num(n)],
        ),
        parse_spec(seq![SpecToken::Num(n)]) == Ok::<SpecProg, Seq<char>>(
            SpecProg::Expression(SpecExpr::Const(n)),
        ),
        eval_spec(ctx, SpecProg::Expression(SpecExpr::Const(n))) == Ok::<
            (u16, Bindings),
            Seq<char>,
        >((n, ctx)),
{
    lemma_decimal_text_value(n as nat);
    lemma_lex_digits(decimal_text(n as nat));
    lemma_parse_number(n);
}

/// After an assignment, the variable has the value that the assignment
/// returned.
pub proof fn lemma_assignment_persists(ctx: Bindings, name: Seq<char>, e: SpecExpr)
    requires
        eval_spec(ctx, SpecProg::Assign(name, e)) is Ok,
    ensures
        ({
            let (val, after) = eval_spec(ctx, SpecProg::Assign(name, e))->Ok_0;
            eval_spec(after, SpecProg::Expression(SpecExpr::Var(name))) == Ok::<
                (u16, Bindings),
                Seq<char>,
            >((val, after))
        }),
{
}

} // verus!
