//! The tokenizer: from text to a flat sequence of tokens.

use vstd::prelude::*;
use vstd::string::{StrSliceExecFns, StringExecFns};
use crate::chars::{
    char_is_alphabetic, char_is_numeric, char_is_whitespace, chars_of, is_alphabetic, is_numeric,
    is_whitespace, string_of, string_push,
};
use crate::decimal::{decimal_text, parse_u16, u16_of_digits, u16_to_text};

verus! {

/// A reserved word.
#[derive(Clone, Copy, Debug, PartialEq, Eq, Hash, Structural)]
pub enum Keyword {
    Let,
}

/// An operator as it is written: one unary operator and nine binary ones.
#[derive(Clone, Copy, Debug, PartialEq, Eq, Hash, Structural)]
pub enum Operator {
    Plus,
    Minus,
    Times,
    Divide,
    BitNeg,
    BitAnd,
    BitOr,
    BitXor,
    BitShLeft,
    BitShRight,
}

/// A lexical token.
#[derive(Debug, PartialEq, Eq, Hash)]
pub enum Token {
    Ident(String),
    Num(u16),
    Oper(Operator),
    LeftParen,
    RightParen,
    Keyw(Keyword),
    Equals,
}

/// The mathematical model of a token: an identifier is the sequence of its
/// characters.
pub enum SpecToken {
    Ident(Seq<char>),
    Num(u16),
    Oper(Operator),
    LeftParen,
    RightParen,
    Keyw(Keyword),
    Equals,
}

impl DeepView for Token {
    type V = SpecToken;

    open spec fn deep_view(&self) -> SpecToken {
        match self {
            Token::Ident(name) => SpecToken::Ident(name@),
            Token::Num(n) => SpecToken::Num(*n),
            Token::Oper(op) => SpecToken::Oper(*op),
            Token::LeftParen => SpecToken::LeftParen,
            Token::RightParen => SpecToken::RightParen,
            Token::Keyw(k) => SpecToken::Keyw(*k),
            Token::Equals => SpecToken::Equals,
        }
    }
}

impl View for Token {
    type V = SpecToken;

    open spec fn view(&self) -> SpecToken {
        self.deep_view()
    }
}

impl Clone for Token {
    fn clone(&self) -> (t: Token)
        ensures
            t == *self,
    {
        match self {
            Token::Ident(name) => Token::Ident(name.clone()),
            Token::Num(n) => Token::Num(*n),
            Token::Oper(op) => Token::Oper(*op),
            Token::LeftParen => Token::LeftParen,
            Token::RightParen => Token::RightParen,
            Token::Keyw(k) => Token::Keyw(*k),
            Token::Equals => Token::Equals,
        }
    }
}

/// How an operator is written.
pub open spec fn operator_text(op: Operator) -> Seq<char> {
    match op {
        Operator::Plus => seq!['+'],
        Operator::Minus => seq!['-'],
        Operator::Times => seq!['*'],
        Operator::Divide => seq!['/'],
        Operator::BitNeg => seq!['!'],
        Operator::BitAnd => seq!['&'],
        Operator::BitOr => seq!['|'],
        Operator::BitXor => seq!['^'],
        Operator::BitShLeft => seq!['<', '<'],
        Operator::BitShRight => seq!['>', '>'],
    }
}

/// How a keyword is written.
pub open spec fn keyword_text(k: Keyword) -> Seq<char> {
    seq!['l', 'e', 't']
}

/// How a token is written: a number in its shortest decimal notation.
pub open spec fn token_text(t: SpecToken) -> Seq<char> {
    match t {
        SpecToken::Ident(name) => name,
        SpecToken::Num(n) => decimal_text(n as nat),
        SpecToken::Oper(op) => operator_text(op),
        SpecToken::LeftParen => seq!['('],
        SpecToken::RightParen => seq![')'],
        SpecToken::Keyw(k) => keyword_text(k),
        SpecToken::Equals => seq!['='],
    }
}

impl Operator {
    /// How the operator is written.
    pub fn to_text(&self) -> (s: String)
        ensures
            s@ == operator_text(*self),
    {
        let mut s = String::new();
        match self {
            Operator::Plus => {
                string_push(&mut s, '+');
            },
            Operator::Minus => {
                string_push(&mut s, '-');
            },
            Operator::Times => {
                string_push(&mut s, '*');
            },
            Operator::Divide => {
                string_push(&mut s, '/');
            },
            Operator::BitNeg => {
                string_push(&mut s, '!');
            },
            Operator::BitAnd => {
                string_push(&mut s, '&');
            },
            Operator::BitOr => {
                string_push(&mut s, '|');
            },
            Operator::BitXor => {
                string_push(&mut s, '^');
            },
            Operator::BitShLeft => {
                string_push(&mut s, '<');
                string_push(&mut s, '<');
            },
            Operator::BitShRight => {
                string_push(&mut s, '>');
                string_push(&mut s, '>');
            },
        }
        assert(s@ =~= operator_text(*self));
        s
    }
}

impl Token {
    /// How the token is written.
    pub fn to_text(&self) -> (s: String)
        ensures
            s@ == token_text(self@),
    {
        let mut s = String::new();
        match self {
            Token::Ident(name) => {
                return name.clone();
            },
            Token::Num(n) => {
                return u16_to_text(*n);
            },
            Token::Oper(op) => {
                return op.to_text();
            },
            Token::LeftParen => {
                string_push(&mut s, '(');
            },
            Token::RightParen => {
                string_push(&mut s, ')');
            },
            Token::Keyw(_) => {
                string_push(&mut s, 'l');
                string_push(&mut s, 'e');
                string_push(&mut s, 't');
            },
            Token::Equals => {
                string_push(&mut s, '=');
            },
        }
        assert(s@ =~= token_text(self@));
        s
    }
}

/// Why a text could not be tokenized. Its view is its message.
#[derive(Debug)]
pub struct LexError {
    msg: String,
}

impl View for LexError {
    type V = Seq<char>;

    closed spec fn view(&self) -> Seq<char> {
        self.msg@
    }
}

impl LexError {
    /// An error with the message `msg`.
    pub fn new(msg: &str) -> (e: LexError)
        ensures
            e@ == msg@,
    {
        LexError { msg: msg.to_owned() }
    }

    /// An error with the message `msg`.
    pub fn from_string(msg: String) -> (e: LexError)
        ensures
            e@ == msg@,
    {
        LexError { msg }
    }

    /// The message.
    pub fn to_string(&self) -> (s: String)
        ensures
            s@ == self@,
    {
        self.msg.clone()
    }
}

/// The message for a text that ends where a character is due.
pub open spec fn msg_no_character() -> Seq<char> {
    "Expected character but there wasn't one."@
}

/// The message for a text that ends where a token is due.
pub open spec fn msg_no_token() -> Seq<char> {
    "No characters left while lexing token."@
}

/// The message for a number that starts with no numeric character.
pub open spec fn msg_non_digit() -> Seq<char> {
    "Non-digit found while lexing number."@
}

/// The message for the alphabetic character `c` behind a run of digits.
pub open spec fn msg_letter_in_number(c: char) -> Seq<char> {
    "Expected digit while parsing number but found '"@.push(c).push('\'')
}

/// The message for a run of numeric characters that denotes no 16-bit number.
pub open spec fn msg_not_u16(digits: Seq<char>) -> Seq<char> {
    "Failed to parse "@ + digits + " as u16"@
}

/// The message for an identifier that starts with no alphabetic character.
pub open spec fn msg_identifier_start() -> Seq<char> {
    "An identifier must start with an alphabetic character."@
}

/// The message for a `<` that no second `<` follows.
pub open spec fn msg_lone_less() -> Seq<char> {
    "Error while lexing '<' (did you mean '<<'?)"@
}

/// The message for a `>` that no second `>` follows.
pub open spec fn msg_lone_greater() -> Seq<char> {
    "Error while lexing '>' (did you mean '>>'?)"@
}

/// The message for a character that starts no operator.
pub open spec fn msg_not_operator() -> Seq<char> {
    "Error while lexing operator"@
}

/// The message for the character `c`, which starts no token.
pub open spec fn msg_unexpected(c: char) -> Seq<char> {
    "Couldn't lex token. Failed on character "@.push(c)
}

/// Whether an operator starts with `c`.
pub open spec fn is_symbol_char(c: char) -> bool {
    c == '+' || c == '*' || c == '/' || c == '-' || c == '&' || c == '|' || c == '^' || c == '!'
        || c == '<' || c == '>'
}

/// The keyword that is written `name`, if there is one.
pub open spec fn keyword_of(name: Seq<char>) -> Option<Keyword> {
    if name == seq!['l', 'e', 't'] {
        Some(Keyword::Let)
    } else {
        None
    }
}

/// The first index from `i` on at which no white space stands.
pub open spec fn skip_whitespace(s: Seq<char>, i: int) -> int
    decreases s.len() - i,
{
    if 0 <= i < s.len() && is_whitespace(s[i]) {
        skip_whitespace(s, i + 1)
    } else {
        i
    }
}

/// The first index from `i` on at which no numeric character stands.
pub open spec fn numeric_run_end(s: Seq<char>, i: int) -> int
    decreases s.len() - i,
{
    if 0 <= i < s.len() && is_numeric(s[i]) {
        numeric_run_end(s, i + 1)
    } else {
        i
    }
}

/// The first index from `i` on at which neither an alphabetic nor a numeric
/// character stands.
pub open spec fn word_run_end(s: Seq<char>, i: int) -> int
    decreases s.len() - i,
{
    if 0 <= i < s.len() && (is_alphabetic(s[i]) || is_numeric(s[i])) {
        word_run_end(s, i + 1)
    } else {
        i
    }
}

/// What scanning a token gives: the token and the index behind it, or a
/// message and the index at which scanning stopped.
pub type Scanned = Result<(SpecToken, int), (Seq<char>, int)>;

/// The number that starts at `s[i]` and the index after it: the longest run
/// of numeric characters, which no alphabetic character may follow and which
/// must denote a 16-bit number in ASCII decimal digits.
pub open spec fn scan_number(s: Seq<char>, i: int) -> Scanned {
    if !(0 <= i < s.len()) {
        Err((msg_no_character(), i))
    } else if !is_numeric(s[i]) {
        Err((msg_non_digit(), i + 1))
    } else {
        let j = numeric_run_end(s, i + 1);
        if j < s.len() && is_alphabetic(s[j]) {
            Err((msg_letter_in_number(s[j]), j))
        } else {
            match u16_of_digits(s.subrange(i, j)) {
                Some(n) => Ok((SpecToken::Num(n), j)),
                None => Err((msg_not_u16(s.subrange(i, j)), j)),
            }
        }
    }
}

/// The identifier or keyword that starts at `s[i]` and the index after it:
/// an alphabetic character and the longest run of alphabetic and numeric
/// characters behind it.
pub open spec fn scan_word(s: Seq<char>, i: int) -> Scanned {
    if !(0 <= i < s.len()) {
        Err((msg_no_character(), i))
    } else if !is_alphabetic(s[i]) {
        Err((msg_identifier_start(), i + 1))
    } else {
        let j = word_run_end(s, i + 1);
        let name = s.subrange(i, j);
        match keyword_of(name) {
            Some(k) => Ok((SpecToken::Keyw(k), j)),
            None => Ok((SpecToken::Ident(name), j)),
        }
    }
}

/// The operator that starts at `s[i]` and the index after it. `<` and `>`
/// must be doubled.
pub open spec fn scan_operator(s: Seq<char>, i: int) -> Scanned {
    if !(0 <= i < s.len()) {
        Err((msg_no_character(), i))
    } else {
        let c = s[i];
        if c == '+' {
            Ok((SpecToken::Oper(Operator::Plus), i + 1))
        } else if c == '-' {
            Ok((SpecToken::Oper(Operator::Minus), i + 1))
        } else if c == '*' {
            Ok((SpecToken::Oper(Operator::Times), i + 1))
        } else if c == '/' {
            Ok((SpecToken::Oper(Operator::Divide), i + 1))
        } else if c == '&' {
            Ok((SpecToken::Oper(Operator::BitAnd), i + 1))
        } else if c == '|' {
            Ok((SpecToken::Oper(Operator::BitOr), i + 1))
        } else if c == '^' {
            Ok((SpecToken::Oper(Operator::BitXor), i + 1))
        } else if c == '!' {
            Ok((SpecToken::Oper(Operator::BitNeg), i + 1))
        } else if c == '<' {
            if i + 1 < s.len() && s[i + 1] == '<' {
                Ok((SpecToken::Oper(Operator::BitShLeft), i + 2))
            } else {
                Err((msg_lone_less(), i + 1))
            }
        } else if c == '>' {
            if i + 1 < s.len() && s[i + 1] == '>' {
                Ok((SpecToken::Oper(Operator::BitShRight), i + 2))
            } else {
                Err((msg_lone_greater(), i + 1))
            }
        } else {
            Err((msg_not_operator(), i + 1))
        }
    }
}

/// The token that starts at `s[i]` and the index after it. A numeric
/// character starts a number, an alphabetic one a word, a symbol an
/// operator; brackets and the equals sign stand for themselves.
pub open spec fn scan_token(s: Seq<char>, i: int) -> Scanned {
    if !(0 <= i < s.len()) {
        Err((msg_no_token(), i))
    } else {
        let c = s[i];
        if is_numeric(c) {
            scan_number(s, i)
        } else if is_alphabetic(c) {
            scan_word(s, i)
        } else if is_symbol_char(c) {
            scan_operator(s, i)
        } else if c == '(' {
            Ok((SpecToken::LeftParen, i + 1))
        } else if c == ')' {
            Ok((SpecToken::RightParen, i + 1))
        } else if c == '=' {
            Ok((SpecToken::Equals, i + 1))
        } else {
            Err((msg_unexpected(c), i))
        }
    }
}

/// No run ends before it starts or outside the text.
pub proof fn lemma_run_bounds(s: Seq<char>, i: int)
    requires
        0 <= i <= s.len(),
    ensures
        i <= skip_whitespace(s, i) <= s.len(),
        i <= numeric_run_end(s, i) <= s.len(),
        i <= word_run_end(s, i) <= s.len(),
    decreases s.len() - i,
{
    if i < s.len() {
        lemma_run_bounds(s, i + 1);
    }
}

/// A token that is scanned ends after it starts and inside the text.
pub proof fn lemma_scan_token_advances(s: Seq<char>, i: int)
    ensures
        scan_token(s, i) is Ok ==> i < scan_token(s, i)->Ok_0.1 <= s.len(),
{
    if 0 <= i < s.len() {
        lemma_run_bounds(s, i + 1);
    }
}

/// The tokens of `s` from `s[i]` on. Before each token white space is
/// skipped; the text must not end in white space.
pub open spec fn lex_from(s: Seq<char>, i: int) -> Result<Seq<SpecToken>, Seq<char>>
    decreases s.len() - i,
    via lex_from_decreases
{
    if !(0 <= i < s.len()) {
        Ok(Seq::empty())
    } else {
        match scan_token(s, skip_whitespace(s, i)) {
            Err((m, _)) => Err(m),
            Ok((t, k)) => match lex_from(s, k) {
                Err(m) => Err(m),
                Ok(ts) => Ok(seq![t] + ts),
            },
        }
    }
}

#[via_fn]
proof fn lex_from_decreases(s: Seq<char>, i: int) {
    if 0 <= i < s.len() {
        lemma_run_bounds(s, i);
        lemma_scan_token_advances(s, skip_whitespace(s, i));
    }
}

/// The tokens of the text `s`.
pub open spec fn lex_spec(s: Seq<char>) -> Result<Seq<SpecToken>, Seq<char>> {
    lex_from(s, 0)
}

/// The tokens `ts` and then what `r` holds, unless `r` is an error.
pub open spec fn prepend(ts: Seq<SpecToken>, r: Result<Seq<SpecToken>, Seq<char>>) -> Result<
    Seq<SpecToken>,
    Seq<char>,
> {
    match r {
        Ok(rest) => Ok(ts + rest),
        Err(m) => Err(m),
    }
}

/// Whether an operator starts with `c`.
pub fn is_symbol(c: char) -> (b: bool)
    ensures
        b == is_symbol_char(c),
{
    c == '+' || c == '*' || c == '/' || c == '-' || c == '&' || c == '|' || c == '^' || c == '!'
        || c == '<' || c == '>'
}

/// The keyword that is written `s`, if there is one.
pub fn as_keyword(s: &str) -> (k: Option<Keyword>)
    ensures
        k == keyword_of(s@),
{
    if s.unicode_len() == 3 && s.get_char(0) == 'l' && s.get_char(1) == 'e' && s.get_char(2)
        == 't' {
        assert(s@ =~= seq!['l', 'e', 't']);
        Some(Keyword::Let)
    } else {
        assert(seq!['l', 'e', 't'].len() == 3);
        None
    }
}

/// A read cursor over the characters of a text, and the tokens read so far.
struct Lexer {
    input: Vec<char>,
    pos: usize,
    tokens: Vec<Token>,
}

impl Lexer {
    /// The cursor stands inside the text or at its end.
    spec fn wf(&self) -> bool {
        self.pos <= self.input.len()
    }

    /// The tokens read so far, as a sequence of models.
    spec fn ts(&self) -> Seq<SpecToken> {
        self.tokens.deep_view()
    }

    /// What the call of a scanner at the cursor of `before` must have left:
    /// on success the cursor behind the token and the token added; on
    /// failure the message, the cursor where scanning stopped, and the tokens
    /// as they were.
    spec fn scanned(before: Lexer, after: Lexer, r: Result<(), LexError>, expected: Scanned) -> bool {
        &&& after.input == before.input
        &&& after.wf()
        &&& match expected {
            Ok((t, j)) => r is Ok && after.pos == j && after.ts() == before.ts().push(t),
            Err((m, j)) => r is Err && r->Err_0@ == m && after.pos == j && after.ts()
                == before.ts(),
        }
    }

    /// The next character, which stays where it is.
    fn peek(&self) -> (r: Option<char>)
        requires
            self.wf(),
        ensures
            r == if self.pos < self.input.len() {
                Some(self.input[self.pos as int])
            } else {
                None
            },
    {
        if self.pos < self.input.len() {
            Some(self.input[self.pos])
        } else {
            None
        }
    }

    /// The next character; the cursor moves behind it.
    fn next(&mut self) -> (r: Result<char, LexError>)
        requires
            old(self).wf(),
        ensures
            final(self).wf(),
            final(self).input == old(self).input,
            final(self).tokens == old(self).tokens,
            match r {
                Ok(c) => old(self).pos < old(self).input.len() && c == old(self).input[old(
                    self,
                ).pos as int] && final(self).pos == old(self).pos + 1,
                Err(e) => old(self).pos == old(self).input.len() && final(self).pos == old(
                    self,
                ).pos && e@ == msg_no_character(),
            },
    {
        if self.pos < self.input.len() {
            self.pos += 1;
            Ok(self.input[self.pos - 1])
        } else {
            Err(LexError::new("Expected character but there wasn't one."))
        }
    }

    /// Moves the cursor over a run of white space.
    fn skip_whitespace(&mut self) -> (r: Result<(), LexError>)
        requires
            old(self).wf(),
        ensures
            r is Ok,
            final(self).wf(),
            final(self).input == old(self).input,
            final(self).tokens == old(self).tokens,
            final(self).pos == skip_whitespace(old(self).input@, old(self).pos as int),
    {
        loop
            invariant_except_break
                self.wf(),
                self.input == old(self).input,
                self.tokens == old(self).tokens,
                skip_whitespace(self.input@, self.pos as int) == skip_whitespace(
                    old(self).input@,
                    old(self).pos as int,
                ),
            ensures
                self.wf(),
                self.input == old(self).input,
                self.tokens == old(self).tokens,
                self.pos == skip_whitespace(old(self).input@, old(self).pos as int),
            decreases self.input.len() - self.pos,
        {
            match self.peek() {
                Some(ch) => {
                    if char_is_whitespace(ch) {
                        self.pos += 1;
                    } else {
                        break ;
                    }
                },
                None => {
                    break ;
                },
            }
        }
        Ok(())
    }

    /// Whether the cursor stands at the end of the text.
    fn done(&self) -> (b: bool)
        requires
            self.wf(),
        ensures
            b == (self.pos == self.input.len()),
    {
        self.peek().is_none()
    }

    /// Reads one token at the cursor.
    fn lex_token(&mut self) -> (r: Result<(), LexError>)
        requires
            old(self).wf(),
        ensures
            Self::scanned(
                *old(self),
                *final(self),
                r,
                scan_token(old(self).input@, old(self).pos as int),
            ),
    {
        let ghost before = self.ts();
        let ch = match self.peek() {
            Some(ch) => ch,
            None => {
                return Err(LexError::new("No characters left while lexing token."));
            },
        };
        if char_is_numeric(ch) {
            self.lex_num()
        } else if char_is_alphabetic(ch) {
            self.lex_ident()
        } else if is_symbol(ch) {
            self.lex_operator()
        } else if ch == '(' {
            self.tokens.push(Token::LeftParen);
            self.pos += 1;
            assert(self.ts() =~= before.push(SpecToken::LeftParen));
            Ok(())
        } else if ch == ')' {
            self.tokens.push(Token::RightParen);
            self.pos += 1;
            assert(self.ts() =~= before.push(SpecToken::RightParen));
            Ok(())
        } else if ch == '=' {
            self.tokens.push(Token::Equals);
            self.pos += 1;
            assert(self.ts() =~= before.push(SpecToken::Equals));
            Ok(())
        } else {
            let mut msg = "Couldn't lex token. Failed on character ".to_owned();
            string_push(&mut msg, ch);
            Err(LexError::from_string(msg))
        }
    }

    /// Reads a number at the cursor.
    fn lex_num(&mut self) -> (r: Result<(), LexError>)
        requires
            old(self).wf(),
        ensures
            Self::scanned(
                *old(self),
                *final(self),
                r,
                scan_number(old(self).input@, old(self).pos as int),
            ),
    {
        let ghost before = self.ts();
        let ghost start = self.pos as int;
        let ghost s = self.input@;
        let ch = self.next()?;
        if !char_is_numeric(ch) {
            return Err(LexError::new("Non-digit found while lexing number."));
        }
        let mut num: Vec<char> = Vec::new();
        num.push(ch);
        assert(num@ =~= s.subrange(start, start + 1));
        loop
            invariant_except_break
                numeric_run_end(s, self.pos as int) == numeric_run_end(s, start + 1),
            invariant
                self.wf(),
                self.input@ == s,
                self.input == old(self).input,
                self.tokens == old(self).tokens,
                start < self.pos,
                start == old(self).pos,
                0 <= start < s.len(),
                is_numeric(s[start]),
                num@ == s.subrange(start, self.pos as int),
            ensures
                self.pos == numeric_run_end(s, start + 1),
                !(self.pos < s.len() && is_alphabetic(s[self.pos as int])),
            decreases self.input.len() - self.pos,
        {
            match self.peek() {
                Some(ch) => {
                    if char_is_numeric(ch) {
                        num.push(ch);
                        self.pos += 1;
                        assert(num@ =~= s.subrange(start, self.pos as int));
                    } else if char_is_alphabetic(ch) {
                        let mut msg = "Expected digit while parsing number but found '".to_owned();
                        string_push(&mut msg, ch);
                        string_push(&mut msg, '\'');
                        return Err(LexError::from_string(msg));
                    } else {
                        break ;
                    }
                },
                None => {
                    break ;
                },
            }
        }
        match parse_u16(&num) {
            Some(val) => {
                self.tokens.push(Token::Num(val));
                assert(self.ts() =~= before.push(SpecToken::Num(val)));
                Ok(())
            },
            None => {
                let mut msg = "Failed to parse ".to_owned();
                msg.append(string_of(&num).as_str());
                msg.append(" as u16");
                Err(LexError::from_string(msg))
            },
        }
    }

    /// Reads an identifier or a keyword at the cursor.
    fn lex_ident(&mut self) -> (r: Result<(), LexError>)
        requires
            old(self).wf(),
        ensures
            Self::scanned(
                *old(self),
                *final(self),
                r,
                scan_word(old(self).input@, old(self).pos as int),
            ),
    {
        let ghost before = self.ts();
        let ghost start = self.pos as int;
        let ghost s = self.input@;
        let ch = self.next()?;
        if !char_is_alphabetic(ch) {
            return Err(LexError::new("An identifier must start with an alphabetic character."));
        }
        let mut iden = String::new();
        string_push(&mut iden, ch);
        assert(iden@ =~= s.subrange(start, start + 1));
        loop
            invariant_except_break
                word_run_end(s, self.pos as int) == word_run_end(s, start + 1),
            invariant
                self.wf(),
                self.input@ == s,
                self.input == old(self).input,
                self.tokens == old(self).tokens,
                start < self.pos,
                start == old(self).pos,
                iden@ == s.subrange(start, self.pos as int),
            ensures
                self.pos == word_run_end(s, start + 1),
            decreases self.input.len() - self.pos,
        {
            match self.peek() {
                Some(ch) => {
                    if char_is_alphabetic(ch) || char_is_numeric(ch) {
                        string_push(&mut iden, ch);
                        self.pos += 1;
                        assert(iden@ =~= s.subrange(start, self.pos as int));
                    } else {
                        break ;
                    }
                },
                None => {
                    break ;
                },
            }
        }
        let token = match as_keyword(iden.as_str()) {
            Some(kw) => Token::Keyw(kw),
            None => Token::Ident(iden),
        };
        self.tokens.push(token);
        assert(self.ts() =~= before.push(token.deep_view()));
        Ok(())
    }

    /// Reads an operator at the cursor.
    fn lex_operator(&mut self) -> (r: Result<(), LexError>)
        requires
            old(self).wf(),
        ensures
            Self::scanned(
                *old(self),
                *final(self),
                r,
                scan_operator(old(self).input@, old(self).pos as int),
            ),
    {
        let ghost before = self.ts();
        let ch = self.next()?;
        let op = if ch == '+' {
            Operator::Plus
        } else if ch == '-' {
            Operator::Minus
        } else if ch == '*' {
            Operator::Times
        } else if ch == '/' {
            Operator::Divide
        } else if ch == '&' {
            Operator::BitAnd
        } else if ch == '|' {
            Operator::BitOr
        } else if ch == '^' {
            Operator::BitXor
        } else if ch == '!' {
            Operator::BitNeg
        } else if ch == '<' {
            match self.peek() {
                Some('<') => {
                    self.pos += 1;
                    Operator::BitShLeft
                },
                _ => {
                    return Err(LexError::new("Error while lexing '<' (did you mean '<<'?)"));
                },
            }
        } else if ch == '>' {
            match self.peek() {
                Some('>') => {
                    self.pos += 1;
                    Operator::BitShRight
                },
                _ => {
                    return Err(LexError::new("Error while lexing '>' (did you mean '>>'?)"));
                },
            }
        } else {
            return Err(LexError::new("Error while lexing operator"));
        };
        self.tokens.push(Token::Oper(op));
        assert(self.ts() =~= before.push(SpecToken::Oper(op)));
        Ok(())
    }
}

/// Splits `input` into tokens. White space between tokens is skipped; white
/// space after the last token is an error, as is any character that starts
/// no token.
pub fn lex(input: &str) -> (r: Result<Vec<Token>, LexError>)
    ensures
        match r {
            Ok(tokens) => lex_spec(input@) == Ok::<Seq<SpecToken>, Seq<char>>(tokens.deep_view()),
            Err(e) => lex_spec(input@) == Err::<Seq<SpecToken>, Seq<char>>(e@),
        },
{
    let mut lexer = Lexer { input: chars_of(input), pos: 0, tokens: Vec::new() };
    let ghost s = input@;
    assert(lexer.ts() =~= Seq::<SpecToken>::empty());
    assert(prepend(Seq::<SpecToken>::empty(), lex_from(s, 0)) == lex_from(s, 0)) by {
        if lex_from(s, 0) is Ok {
            assert(Seq::<SpecToken>::empty() + lex_from(s, 0)->Ok_0 =~= lex_from(s, 0)->Ok_0);
        }
    }
    while !lexer.done()
        invariant
            lexer.wf(),
            lexer.input@ == s,
            s == input@,
            lex_spec(s) == prepend(lexer.ts(), lex_from(s, lexer.pos as int)),
        decreases lexer.input.len() - lexer.pos,
    {
        let ghost before = lexer.ts();
        let ghost i = lexer.pos as int;
        proof {
            lemma_run_bounds(s, i);
            lemma_scan_token_advances(s, skip_whitespace(s, i));
        }
        match lexer.skip_whitespace() {
            Ok(_) => {},
            Err(e) => {
                return Err(e);
            },
        }
        match lexer.lex_token() {
            Ok(_) => {},
            Err(e) => {
                return Err(e);
            },
        }
        proof {
            let t = scan_token(s, skip_whitespace(s, i))->Ok_0.0;
            let rest = lex_from(s, lexer.pos as int);
            if rest is Ok {
                assert(before + (seq![t] + rest->Ok_0) =~= before.push(t) + rest->Ok_0);
            }
        }
    }
    proof {
        assert(lexer.ts() + Seq::<SpecToken>::empty() =~= lexer.ts());
    }
    Ok(lexer.tokens)
}

} // verus!
