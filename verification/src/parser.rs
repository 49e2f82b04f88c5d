use vstd::prelude::*;
use vstd::string::StrSliceExecFns;

use crate::ast::{Expr, ExprModel};
use crate::error::{Error, ParseErrorKind};
use crate::lexer::{is_digit_char, wf_token, wf_tokens};
use crate::token::{models_of, Token, TokenModel, TokenType};

verus! {

/// Numeric value of a digit run, folded over base ten.
pub open spec fn digits_val(s: Seq<char>) -> nat
    decreases s.len(),
{
    if s.len() == 0 {
        0
    } else {
        (10 * digits_val(s.drop_last()) + (s.last() as u32 - 48)) as nat
    }
}

/// On a digit run, a prefix never denotes more than the whole.
proof fn lemma_digits_val_take_le(s: Seq<char>, k: int)
    requires
        0 <= k <= s.len(),
        forall|i: int| 0 <= i < s.len() ==> is_digit_char(#[trigger] s[i]),
    ensures
        digits_val(s.take(k)) <= digits_val(s),
    decreases s.len(),
{
    if k < s.len() {
        assert(s.drop_last().take(k) =~= s.take(k));
        lemma_digits_val_take_le(s.drop_last(), k);
        assert(is_digit_char(s.last()));
    } else {
        assert(s.take(k) =~= s);
    }
}

/// Parses a digit run into an `i32`; `None` when the value exceeds `i32::MAX`.
fn number_value(text: &str) -> (r: Option<i32>)
    requires
        forall|i: int| 0 <= i < text@.len() ==> is_digit_char(#[trigger] text@[i]),
    ensures
        match r {
            Some(v) => 0 <= v && digits_val(text@) == v as nat,
            None => digits_val(text@) > i32::MAX as nat,
        },
{
    let len: usize = text.unicode_len();
    let mut acc: u64 = 0;
    let mut i: usize = 0;
    proof {
        assert(text@.take(0) =~= Seq::<char>::empty());
    }
    while i < len
        invariant
            len == text@.len(),
            i <= len,
            forall|k: int| 0 <= k < text@.len() ==> is_digit_char(#[trigger] text@[k]),
            acc as nat == digits_val(text@.take(i as int)),
            acc <= i32::MAX as u64,
        decreases len - i,
    {
        let c = text.get_char(i);
        assert(is_digit_char(c));
        let d: u32 = c as u32 - 48;
        let next: u64 = acc * 10 + d as u64;
        proof {
            assert(text@.take(i + 1).drop_last() =~= text@.take(i as int));
            assert(text@.take(i + 1).last() == text@[i as int]);
        }
        if next > i32::MAX as u64 {
            proof {
                lemma_digits_val_take_le(text@, i + 1);
            }
            return None;
        }
        acc = next;
        i = i + 1;
    }
    proof {
        assert(text@.take(len as int) =~= text@);
    }
    Some(acc as i32)
}

/// Spec-level outcome of one grammar production at a cursor position: the
/// expression built and the cursor after it, or the failure.  `OutOfFuel` is
/// an artifact of the bounded recursion in `term_step` and `expr_step`; the
/// fuel lemmas below show it never arises once the fuel exceeds the number
/// of remaining tokens.
pub enum ParseOutcome {
    Parsed(ExprModel, int),
    Failed(ParseErrorKind),
    OutOfFuel,
}

/// The `term` production at cursor `i`: a number, a variable name, or a
/// parenthesized expression.
pub open spec fn term_step(t: Seq<TokenModel>, i: int, fuel: nat) -> ParseOutcome
    decreases fuel, 0int,
{
    if fuel == 0 {
        ParseOutcome::OutOfFuel
    } else if i < t.len() && t[i].token_type == TokenType::Num {
        if digits_val(t[i].text) <= i32::MAX as nat {
            ParseOutcome::Parsed(ExprModel::Number(digits_val(t[i].text) as int), i + 1)
        } else {
            ParseOutcome::Failed(ParseErrorKind::NumberTooLarge)
        }
    } else if i < t.len() && t[i].token_type == TokenType::Name {
        ParseOutcome::Parsed(ExprModel::Variable(t[i].text), i + 1)
    } else if i < t.len() && t[i].token_type == TokenType::Lparen {
        match expr_step(t, i + 1, (fuel - 1) as nat) {
            ParseOutcome::Parsed(e, j) => {
                if j < t.len() && t[j].token_type == TokenType::Rparen {
                    ParseOutcome::Parsed(e, j + 1)
                } else {
                    ParseOutcome::Failed(ParseErrorKind::UnclosedParen)
                }
            },
            other => other,
        }
    } else {
        ParseOutcome::Failed(ParseErrorKind::UnexpectedToken)
    }
}

/// The `expression` production at cursor `i`: one term, optionally followed
/// by a single `+`, `-` or `*` and one more term, or by `=` and a full
/// expression.  No chaining of binary operators: the grammar stops after one.
pub open spec fn expr_step(t: Seq<TokenModel>, i: int, fuel: nat) -> ParseOutcome
    decreases fuel, 1int,
{
    if fuel == 0 {
        ParseOutcome::OutOfFuel
    } else {
        match term_step(t, i, fuel) {
            ParseOutcome::Parsed(left, j) => {
                if j < t.len() && t[j].token_type == TokenType::Plus {
                    match term_step(t, j + 1, fuel) {
                        ParseOutcome::Parsed(right, k) => ParseOutcome::Parsed(
                            ExprModel::Add(Box::new(left), Box::new(right)),
                            k,
                        ),
                        other => other,
                    }
                } else if j < t.len() && t[j].token_type == TokenType::Minus {
                    match term_step(t, j + 1, fuel) {
                        ParseOutcome::Parsed(right, k) => ParseOutcome::Parsed(
                            ExprModel::Minus(Box::new(left), Box::new(right)),
                            k,
                        ),
                        other => other,
                    }
                } else if j < t.len() && t[j].token_type == TokenType::Times {
                    match term_step(t, j + 1, fuel) {
                        ParseOutcome::Parsed(right, k) => ParseOutcome::Parsed(
                            ExprModel::Mul(Box::new(left), Box::new(right)),
                            k,
                        ),
                        other => other,
                    }
                } else if j < t.len() && t[j].token_type == TokenType::Assign {
                    match expr_step(t, j + 1, (fuel - 1) as nat) {
                        ParseOutcome::Parsed(value, k) => ParseOutcome::Parsed(
                            ExprModel::Assign(Box::new(left), Box::new(value)),
                            k,
                        ),
                        other => other,
                    }
                } else {
                    ParseOutcome::Parsed(left, j)
                }
            },
            other => other,
        }
    }
}

/// A parsed production always advances the cursor, and never past the end.
pub proof fn lemma_term_pos(t: Seq<TokenModel>, i: int, fuel: nat)
    ensures
        term_step(t, i, fuel) matches ParseOutcome::Parsed(_, j) ==> i + 1 <= j <= t.len(),
    decreases fuel, 0int,
{
    if fuel > 0 {
        lemma_expr_pos(t, i + 1, (fuel - 1) as nat);
    }
}

pub proof fn lemma_expr_pos(t: Seq<TokenModel>, i: int, fuel: nat)
    ensures
        expr_step(t, i, fuel) matches ParseOutcome::Parsed(_, j) ==> i + 1 <= j <= t.len(),
    decreases fuel, 1int,
{
    if fuel > 0 {
        lemma_term_pos(t, i, fuel);
        match term_step(t, i, fuel) {
            ParseOutcome::Parsed(_, j) => {
                lemma_term_pos(t, j + 1, fuel);
                lemma_expr_pos(t, j + 1, (fuel - 1) as nat);
            },
            _ => {},
        }
    }
}

/// Any fuel past the number of remaining tokens gives the same outcome, and
/// never `OutOfFuel`.
pub proof fn lemma_term_fuel(t: Seq<TokenModel>, i: int, f1: nat, f2: nat)
    requires
        0 <= i <= t.len(),
        f1 >= t.len() - i + 1,
        f2 >= t.len() - i + 1,
    ensures
        term_step(t, i, f1) == term_step(t, i, f2),
        !(term_step(t, i, f1) matches ParseOutcome::OutOfFuel),
    decreases f1 + f2, 0int,
{
    if i < t.len() && t[i].token_type == TokenType::Lparen {
        lemma_expr_fuel(t, i + 1, (f1 - 1) as nat, (f2 - 1) as nat);
    }
}

pub proof fn lemma_expr_fuel(t: Seq<TokenModel>, i: int, f1: nat, f2: nat)
    requires
        0 <= i <= t.len(),
        f1 >= t.len() - i + 1,
        f2 >= t.len() - i + 1,
    ensures
        expr_step(t, i, f1) == expr_step(t, i, f2),
        !(expr_step(t, i, f1) matches ParseOutcome::OutOfFuel),
    decreases f1 + f2, 1int,
{
    lemma_term_fuel(t, i, f1, f2);
    lemma_term_pos(t, i, f1);
    match term_step(t, i, f1) {
        ParseOutcome::Parsed(_, j) => {
            if j < t.len() && (t[j].token_type == TokenType::Plus || t[j].token_type
                == TokenType::Minus || t[j].token_type == TokenType::Times) {
                lemma_term_fuel(t, j + 1, f1, f2);
            } else if j < t.len() && t[j].token_type == TokenType::Assign {
                lemma_expr_fuel(t, j + 1, (f1 - 1) as nat, (f2 - 1) as nat);
            }
        },
        _ => {},
    }
}

/// The `term` production with fuel enough for the whole token sequence.
pub open spec fn term_at(t: Seq<TokenModel>, i: int) -> ParseOutcome {
    term_step(t, i, (t.len() + 1) as nat)
}

/// The `expression` production with fuel enough for the whole token sequence.
pub open spec fn expr_at(t: Seq<TokenModel>, i: int) -> ParseOutcome {
    expr_step(t, i, (t.len() + 1) as nat)
}

/// What parsing a whole token sequence yields: one expression covering every
/// token, or the first failure.  (The `OutOfFuel` arm never applies; see the
/// fuel lemmas.)
pub open spec fn spec_parse(t: Seq<TokenModel>) -> Result<ExprModel, ParseErrorKind> {
    match expr_at(t, 0) {
        ParseOutcome::Parsed(e, j) => if j == t.len() {
            Ok(e)
        } else {
            Err(ParseErrorKind::TrailingTokens)
        },
        ParseOutcome::Failed(k) => Err(k),
        ParseOutcome::OutOfFuel => Err(ParseErrorKind::UnexpectedToken),
    }
}

/// Cursor over a token sequence, with one-token lookahead through `accept`.
#[derive(Debug)]
pub struct Parser {
    pub tokens: Vec<Token>,
    pub n: usize,
}

impl Parser {
    /// The cursor never runs past the token sequence.
    pub open spec fn wf(&self) -> bool {
        self.n <= self.tokens@.len()
    }

    /// Spec-level models of the tokens.
    pub open spec fn models(&self) -> Seq<TokenModel> {
        models_of(self.tokens@)
    }

    /// Advances over the next token exactly when it has the wanted kind.
    pub fn accept(&mut self, token_type: TokenType) -> (r: bool)
        ensures
            final(self).tokens@ == old(self).tokens@,
            r == (old(self).n < old(self).tokens@.len() && old(self).tokens@[old(
                self,
            ).n as int]@.token_type == token_type),
            r ==> final(self).n == old(self).n + 1,
            !r ==> final(self).n == old(self).n,
    {
        if self.n < self.tokens.len() && self.tokens[self.n].token_type == token_type {
            self.n = self.n + 1;
            true
        } else {
            false
        }
    }

    /// The most recently consumed token; fails when none has been, or the
    /// cursor stands outside the sequence.
    pub fn last(&self) -> (r: Result<Token, Error>)
        ensures
            match r {
                Ok(t) => 1 <= self.n <= self.tokens@.len() && t@ == self.tokens@[self.n - 1]@,
                Err(e) => (self.n == 0 || self.n > self.tokens@.len()) && e == Error::ParseError(
                    ParseErrorKind::UnexpectedToken,
                ),
            },
    {
        if self.n == 0 || self.n > self.tokens.len() {
            Err(Error::ParseError(ParseErrorKind::UnexpectedToken))
        } else {
            Ok(self.tokens[self.n - 1].clone())
        }
    }

    /// Whether every token has been consumed.
    pub fn at_end(&self) -> (r: bool)
        ensures
            r == (self.n >= self.tokens@.len()),
    {
        self.n >= self.tokens.len()
    }
}

/// Parses one term at the cursor: a `Num` token becomes a number literal, a
/// `Name` token a variable reference, and `(` a nested expression that must
/// be closed by `)`.
pub fn parse_term(p: &mut Parser) -> (r: Result<Expr, Error>)
    requires
        old(p).wf(),
        wf_tokens(old(p).models()),
    ensures
        final(p).tokens@ == old(p).tokens@,
        final(p).wf(),
        match r {
            Ok(e) => term_at(old(p).models(), old(p).n as int) == ParseOutcome::Parsed(
                e@,
                final(p).n as int,
            ),
            Err(err) => term_at(old(p).models(), old(p).n as int) matches ParseOutcome::Failed(k)
                && err == Error::ParseError(k),
        },
    decreases p.tokens@.len() - p.n, 0int,
{
    let ghost t = old(p).models();
    let ghost i = old(p).n as int;
    let ghost fuel = (t.len() + 1) as nat;
    if p.accept(TokenType::Num) {
        let tok = match p.last() {
            Ok(tok) => tok,
            Err(_) => unreached(),
        };
        assert(wf_token(t[i]));
        match number_value(tok.val.as_str()) {
            Some(v) => Ok(Expr::Number { n: v }),
            None => Err(Error::ParseError(ParseErrorKind::NumberTooLarge)),
        }
    } else if p.accept(TokenType::Name) {
        let tok = match p.last() {
            Ok(tok) => tok,
            Err(_) => unreached(),
        };
        Ok(Expr::Variable { name: tok.val })
    } else if p.accept(TokenType::Lparen) {
        match parse_expression(p) {
            Ok(e) => {
                proof {
                    lemma_expr_fuel(t, i + 1, (fuel - 1) as nat, fuel);
                }
                if p.accept(TokenType::Rparen) {
                    Ok(e)
                } else {
                    Err(Error::ParseError(ParseErrorKind::UnclosedParen))
                }
            },
            Err(err) => {
                proof {
                    lemma_expr_fuel(t, i + 1, (fuel - 1) as nat, fuel);
                }
                Err(err)
            },
        }
    } else {
        Err(Error::ParseError(ParseErrorKind::UnexpectedToken))
    }
}

/// Parses one expression at the cursor: a term, then at most one binary
/// operator and its right term, or `=` and a recursively parsed expression
/// (assignment associates to the right).
pub fn parse_expression(p: &mut Parser) -> (r: Result<Expr, Error>)
    requires
        old(p).wf(),
        wf_tokens(old(p).models()),
    ensures
        final(p).tokens@ == old(p).tokens@,
        final(p).wf(),
        match r {
            Ok(e) => expr_at(old(p).models(), old(p).n as int) == ParseOutcome::Parsed(
                e@,
                final(p).n as int,
            ),
            Err(err) => expr_at(old(p).models(), old(p).n as int) matches ParseOutcome::Failed(k)
                && err == Error::ParseError(k),
        },
    decreases p.tokens@.len() - p.n, 1int,
{
    let ghost t = old(p).models();
    let ghost i = old(p).n as int;
    let ghost fuel = (t.len() + 1) as nat;
    let left = match parse_term(p) {
        Ok(e) => e,
        Err(err) => {
            return Err(err);
        },
    };
    proof {
        lemma_term_pos(t, i, fuel);
    }
    let ghost j = p.n as int;
    if p.accept(TokenType::Plus) {
        match parse_term(p) {
            Ok(right) => Ok(Expr::Add { left: Box::new(left), right: Box::new(right) }),
            Err(err) => Err(err),
        }
    } else if p.accept(TokenType::Minus) {
        match parse_term(p) {
            Ok(right) => Ok(Expr::Minus { left: Box::new(left), right: Box::new(right) }),
            Err(err) => Err(err),
        }
    } else if p.accept(TokenType::Times) {
        match parse_term(p) {
            Ok(right) => Ok(Expr::Mul { left: Box::new(left), right: Box::new(right) }),
            Err(err) => Err(err),
        }
    } else if p.accept(TokenType::Assign) {
        match parse_expression(p) {
            Ok(value) => {
                proof {
                    lemma_expr_fuel(t, j + 1, (fuel - 1) as nat, fuel);
                }
                Ok(Expr::Assign { location: Box::new(left), value: Box::new(value) })
            },
            Err(err) => {
                proof {
                    lemma_expr_fuel(t, j + 1, (fuel - 1) as nat, fuel);
                }
                Err(err)
            },
        }
    } else {
        Ok(left)
    }
}

/// Parses the whole token sequence into one expression tree; fails when
/// tokens remain after the first full expression.
pub fn parse(p: &mut Parser) -> (r: Result<Expr, Error>)
    requires
        old(p).wf(),
        old(p).n == 0,
        wf_tokens(old(p).models()),
    ensures
        final(p).tokens@ == old(p).tokens@,
        final(p).wf(),
        match r {
            Ok(e) => spec_parse(old(p).models()) == Ok::<ExprModel, ParseErrorKind>(e@),
            Err(err) => spec_parse(old(p).models()) matches Err(k) && err == Error::ParseError(k),
        },
{
    match parse_expression(p) {
        Ok(e) => {
            if !p.at_end() {
                Err(Error::ParseError(ParseErrorKind::TrailingTokens))
            } else {
                Ok(e)
            }
        },
        Err(err) => Err(err),
    }
}

} // verus!
