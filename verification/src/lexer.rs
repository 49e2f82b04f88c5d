use vstd::prelude::*;
use vstd::string::StrSliceExecFns;

use crate::error::Error;
use crate::token::{models_of, Token, TokenModel, TokenType};

verus! {

/// A white-space character (the Unicode `White_Space` set): skipped by the lexer.
pub open spec fn is_space_char(c: char) -> bool {
    let u = c as u32;
    (9 <= u && u <= 13) || u == 32 || u == 0x85 || u == 0xA0 || u == 0x1680 || (0x2000 <= u
        && u <= 0x200A) || u == 0x2028 || u == 0x2029 || u == 0x202F || u == 0x205F || u == 0x3000
}

/// An ASCII decimal digit.
pub open spec fn is_digit_char(c: char) -> bool {
    48 <= c as u32 && c as u32 <= 57
}

/// An ASCII alphabetic character.
pub open spec fn is_alpha_char(c: char) -> bool {
    let u = c as u32;
    (65 <= u && u <= 90) || (97 <= u && u <= 122)
}

/// The token that a single symbol character yields, if it is one of the six.
pub open spec fn symbol_token_type(c: char) -> Option<TokenType> {
    if c == '+' {
        Some(TokenType::Plus)
    } else if c == '-' {
        Some(TokenType::Minus)
    } else if c == '*' {
        Some(TokenType::Times)
    } else if c == '(' {
        Some(TokenType::Lparen)
    } else if c == ')' {
        Some(TokenType::Rparen)
    } else if c == '=' {
        Some(TokenType::Assign)
    } else {
        None
    }
}

/// A character the lexer accepts in some role.
pub open spec fn lexable_char(c: char) -> bool {
    is_space_char(c) || is_digit_char(c) || is_alpha_char(c) || symbol_token_type(c) is Some
}

fn space_char(c: char) -> (b: bool)
    ensures
        b == is_space_char(c),
{
    let u: u32 = c as u32;
    (9 <= u && u <= 13) || u == 32 || u == 0x85 || u == 0xA0 || u == 0x1680 || (0x2000 <= u
        && u <= 0x200A) || u == 0x2028 || u == 0x2029 || u == 0x202F || u == 0x205F || u == 0x3000
}

fn digit_char(c: char) -> (b: bool)
    ensures
        b == is_digit_char(c),
{
    let u: u32 = c as u32;
    48 <= u && u <= 57
}

fn alpha_char(c: char) -> (b: bool)
    ensures
        b == is_alpha_char(c),
{
    let u: u32 = c as u32;
    (65 <= u && u <= 90) || (97 <= u && u <= 122)
}

/// Length of the maximal run of ASCII digits at the front of `s`.
pub open spec fn digit_run(s: Seq<char>) -> nat
    decreases s.len(),
{
    if s.len() > 0 && is_digit_char(s[0]) {
        (digit_run(s.skip(1)) + 1) as nat
    } else {
        0
    }
}

/// Length of the maximal run of ASCII alphabetic characters at the front of `s`.
pub open spec fn alpha_run(s: Seq<char>) -> nat
    decreases s.len(),
{
    if s.len() > 0 && is_alpha_char(s[0]) {
        (alpha_run(s.skip(1)) + 1) as nat
    } else {
        0
    }
}

pub proof fn lemma_digit_run_le(s: Seq<char>)
    ensures
        digit_run(s) <= s.len(),
    decreases s.len(),
{
    if s.len() > 0 && is_digit_char(s[0]) {
        lemma_digit_run_le(s.skip(1));
    }
}

pub proof fn lemma_alpha_run_le(s: Seq<char>)
    ensures
        alpha_run(s) <= s.len(),
    decreases s.len(),
{
    if s.len() > 0 && is_alpha_char(s[0]) {
        lemma_alpha_run_le(s.skip(1));
    }
}

/// The maximal digit run is exactly `k` when the first `k` characters are
/// digits and the next one, if any, is not.
pub proof fn lemma_digit_run_is(s: Seq<char>, k: int)
    requires
        0 <= k <= s.len(),
        forall|j: int| 0 <= j < k ==> is_digit_char(#[trigger] s[j]),
        k == s.len() || !is_digit_char(s[k]),
    ensures
        digit_run(s) == k,
    decreases s.len(),
{
    if k > 0 {
        assert(is_digit_char(s[0]));
        assert(forall|j: int| 0 <= j < k - 1 ==> #[trigger] s.skip(1)[j] == s[j + 1]);
        lemma_digit_run_is(s.skip(1), k - 1);
    }
}

/// The maximal alphabetic run is exactly `k` when the first `k` characters
/// are alphabetic and the next one, if any, is not.
pub proof fn lemma_alpha_run_is(s: Seq<char>, k: int)
    requires
        0 <= k <= s.len(),
        forall|j: int| 0 <= j < k ==> is_alpha_char(#[trigger] s[j]),
        k == s.len() || !is_alpha_char(s[k]),
    ensures
        alpha_run(s) == k,
    decreases s.len(),
{
    if k > 0 {
        assert(is_alpha_char(s[0]));
        assert(forall|j: int| 0 <= j < k - 1 ==> #[trigger] s.skip(1)[j] == s[j + 1]);
        lemma_alpha_run_is(s.skip(1), k - 1);
    }
}

/// The token sequence that a line of characters denotes, or the first
/// character the lexer cannot place.  White space is skipped, a maximal digit
/// run is one `Num` token, a maximal alphabetic run is one `Name` token, and
/// each of the six symbols is one token of its own.
pub open spec fn spec_lex(s: Seq<char>) -> Result<Seq<TokenModel>, char>
    decreases s.len(),
    via spec_lex_dec
{
    if s.len() == 0 {
        Ok(Seq::empty())
    } else if is_space_char(s[0]) {
        spec_lex(s.skip(1))
    } else if is_digit_char(s[0]) {
        let k = digit_run(s) as int;
        match spec_lex(s.skip(k)) {
            Ok(rest) => Ok(
                seq![TokenModel { token_type: TokenType::Num, text: s.take(k) }] + rest,
            ),
            Err(c) => Err(c),
        }
    } else if is_alpha_char(s[0]) {
        let k = alpha_run(s) as int;
        match spec_lex(s.skip(k)) {
            Ok(rest) => Ok(
                seq![TokenModel { token_type: TokenType::Name, text: s.take(k) }] + rest,
            ),
            Err(c) => Err(c),
        }
    } else {
        match symbol_token_type(s[0]) {
            Some(tt) => match spec_lex(s.skip(1)) {
                Ok(rest) => Ok(seq![TokenModel { token_type: tt, text: s.take(1) }] + rest),
                Err(c) => Err(c),
            },
            None => Err(s[0]),
        }
    }
}

#[via_fn]
proof fn spec_lex_dec(s: Seq<char>) {
    if s.len() > 0 {
        if is_digit_char(s[0]) {
            lemma_digit_run_le(s);
        }
        if is_alpha_char(s[0]) {
            lemma_alpha_run_le(s);
        }
    }
}

/// A token the lexer can produce: a `Num` is a nonempty digit run, a `Name`
/// a nonempty alphabetic run.
pub open spec fn wf_token(t: TokenModel) -> bool {
    match t.token_type {
        TokenType::Num => t.text.len() > 0 && (forall|i: int|
            0 <= i < t.text.len() ==> is_digit_char(#[trigger] t.text[i])),
        TokenType::Name => t.text.len() > 0 && (forall|i: int|
            0 <= i < t.text.len() ==> is_alpha_char(#[trigger] t.text[i])),
        _ => true,
    }
}

pub open spec fn wf_tokens(ts: Seq<TokenModel>) -> bool {
    forall|i: int| 0 <= i < ts.len() ==> wf_token(#[trigger] ts[i])
}

/// Tokens already emitted, prepended to what the rest of the line denotes.
pub open spec fn lex_prepend(ts: Seq<TokenModel>, r: Result<Seq<TokenModel>, char>) -> Result<
    Seq<TokenModel>,
    char,
> {
    match r {
        Ok(rest) => Ok(ts + rest),
        Err(c) => Err(c),
    }
}

/// Converts one line of text into its token sequence, scanning left to right;
/// fails on the first character that fits no token, and then returns no
/// tokens at all.
pub fn tokenize(source: &str) -> (r: Result<Vec<Token>, Error>)
    ensures
        match spec_lex(source@) {
            Ok(models) => r matches Ok(v) && models_of(v@) == models && wf_tokens(models),
            Err(c) => r matches Err(e) && e == Error::LexError(c),
        },
{
    let ghost s = source@;
    let len: usize = source.unicode_len();
    let mut tokens: Vec<Token> = Vec::new();
    let mut n: usize = 0;
    proof {
        assert(s.skip(0) =~= s);
        assert(models_of(tokens@) =~= Seq::<TokenModel>::empty());
        match spec_lex(s) {
            Ok(rest) => {
                assert(Seq::<TokenModel>::empty() + rest =~= rest);
            },
            Err(_) => {},
        }
    }
    while n < len
        invariant
            s == source@,
            len == s.len(),
            n <= len,
            wf_tokens(models_of(tokens@)),
            lex_prepend(models_of(tokens@), spec_lex(s.skip(n as int))) == spec_lex(s),
        decreases len - n,
    {
        let c = source.get_char(n);
        if space_char(c) {
            proof {
                assert(s.skip(n as int)[0] == s[n as int]);
                assert(s.skip(n as int).skip(1) =~= s.skip(n + 1));
            }
            n = n + 1;
        } else if digit_char(c) {
            let start = n;
            n = n + 1;
            while n < len && digit_char(source.get_char(n))
                invariant
                    s == source@,
                    len == s.len(),
                    start < n <= len,
                    forall|j: int| start <= j < n ==> is_digit_char(#[trigger] s[j]),
                decreases len - n,
            {
                n = n + 1;
            }
            let text = source.substring_char(start, n).to_owned();
            let t = Token { token_type: TokenType::Num, val: text };
            let ghost prev = tokens@;
            tokens.push(t);
            proof {
                let suf = s.skip(start as int);
                assert(forall|j: int| 0 <= j < n - start ==> #[trigger] suf[j] == s[j + start]);
                assert(n - start == suf.len() || !is_digit_char(suf[n - start])) by {
                    if n < len {
                        assert(suf[n - start] == s[n as int]);
                    }
                }
                lemma_digit_run_is(suf, n - start);
                assert(suf.skip(n - start) =~= s.skip(n as int));
                assert(suf.take(n - start) =~= s.subrange(start as int, n as int));
                crate::token::lemma_models_of_push(prev, t);
                assert(models_of(tokens@) == models_of(prev).push(t@));
                assert(wf_token(t@));
                assert(wf_tokens(models_of(tokens@)));
                match spec_lex(s.skip(n as int)) {
                    Ok(rest) => {
                        assert(models_of(prev).push(t@) + rest =~= models_of(prev) + (seq![t@]
                            + rest));
                    },
                    Err(_) => {},
                }
            }
        } else if alpha_char(c) {
            let start = n;
            n = n + 1;
            while n < len && alpha_char(source.get_char(n))
                invariant
                    s == source@,
                    len == s.len(),
                    start < n <= len,
                    forall|j: int| start <= j < n ==> is_alpha_char(#[trigger] s[j]),
                decreases len - n,
            {
                n = n + 1;
            }
            let text = source.substring_char(start, n).to_owned();
            let t = Token { token_type: TokenType::Name, val: text };
            let ghost prev = tokens@;
            tokens.push(t);
            proof {
                let suf = s.skip(start as int);
                assert(forall|j: int| 0 <= j < n - start ==> #[trigger] suf[j] == s[j + start]);
                assert(n - start == suf.len() || !is_alpha_char(suf[n - start])) by {
                    if n < len {
                        assert(suf[n - start] == s[n as int]);
                    }
                }
                lemma_alpha_run_is(suf, n - start);
                assert(suf.skip(n - start) =~= s.skip(n as int));
                assert(suf.take(n - start) =~= s.subrange(start as int, n as int));
                assert(!is_digit_char(suf[0]));
                crate::token::lemma_models_of_push(prev, t);
                assert(models_of(tokens@) == models_of(prev).push(t@));
                assert(wf_token(t@));
                assert(wf_tokens(models_of(tokens@)));
                match spec_lex(s.skip(n as int)) {
                    Ok(rest) => {
                        assert(models_of(prev).push(t@) + rest =~= models_of(prev) + (seq![t@]
                            + rest));
                    },
                    Err(_) => {},
                }
            }
        } else {
            let tt_found: Option<TokenType> = if c == '+' {
                Some(TokenType::Plus)
            } else if c == '-' {
                Some(TokenType::Minus)
            } else if c == '*' {
                Some(TokenType::Times)
            } else if c == '(' {
                Some(TokenType::Lparen)
            } else if c == ')' {
                Some(TokenType::Rparen)
            } else if c == '=' {
                Some(TokenType::Assign)
            } else {
                None
            };
            match tt_found {
                Some(tt) => {
                    let text = source.substring_char(n, n + 1).to_owned();
                    let t = Token { token_type: tt, val: text };
                    let ghost prev = tokens@;
                    tokens.push(t);
                    proof {
                        let suf = s.skip(n as int);
                        assert(suf[0] == s[n as int]);
                        assert(suf.skip(1) =~= s.skip(n + 1));
                        assert(suf.take(1) =~= s.subrange(n as int, n + 1));
                        crate::token::lemma_models_of_push(prev, t);
                        assert(models_of(tokens@) == models_of(prev).push(t@));
                        assert(wf_tokens(models_of(tokens@)));
                        match spec_lex(s.skip(n + 1)) {
                            Ok(rest) => {
                                assert(models_of(prev).push(t@) + rest =~= models_of(prev) + (seq![
                                    t@,
                                ] + rest));
                            },
                            Err(_) => {},
                        }
                    }
                    n = n + 1;
                },
                None => {
                    proof {
                        assert(s.skip(n as int)[0] == s[n as int]);
                    }
                    return Err(Error::LexError(c));
                },
            }
        }
    }
    proof {
        assert(s.skip(len as int) =~= Seq::<char>::empty());
        assert(models_of(tokens@) + Seq::<TokenModel>::empty() =~= models_of(tokens@));
    }
    Ok(tokens)
}

/// Law: lexing fails exactly when the line holds a character that is neither
/// white space, a digit, a letter, nor one of the six symbols.
pub proof fn lemma_lex_fails_iff_bad_char(s: Seq<char>)
    ensures
        (spec_lex(s) is Err) <==> (exists|i: int| 0 <= i < s.len() && !lexable_char(#[trigger] s[i])),
    decreases s.len(),
{
    if s.len() == 0 {
    } else if is_space_char(s[0]) {
        lemma_lex_fails_iff_bad_char(s.skip(1));
        lemma_bad_char_shift(s, 1);
    } else if is_digit_char(s[0]) {
        lemma_digit_run_le(s);
        lemma_digit_run_chars(s);
        let k = digit_run(s) as int;
        lemma_lex_fails_iff_bad_char(s.skip(k));
        lemma_bad_char_shift(s, k);
    } else if is_alpha_char(s[0]) {
        lemma_alpha_run_le(s);
        lemma_alpha_run_chars(s);
        let k = alpha_run(s) as int;
        lemma_lex_fails_iff_bad_char(s.skip(k));
        lemma_bad_char_shift(s, k);
    } else {
        match symbol_token_type(s[0]) {
            Some(_) => {
                lemma_lex_fails_iff_bad_char(s.skip(1));
                lemma_bad_char_shift(s, 1);
            },
            None => {
                assert(!lexable_char(s[0]));
            },
        }
    }
}

/// Every character inside the maximal digit run is a digit.
proof fn lemma_digit_run_chars(s: Seq<char>)
    ensures
        forall|j: int| 0 <= j < digit_run(s) ==> is_digit_char(#[trigger] s[j]),
    decreases s.len(),
{
    if s.len() > 0 && is_digit_char(s[0]) {
        lemma_digit_run_le(s);
        lemma_digit_run_chars(s.skip(1));
        assert forall|j: int| 0 <= j < digit_run(s) implies is_digit_char(#[trigger] s[j]) by {
            if j >= 1 {
                assert(s.skip(1)[j - 1] == s[j]);
                assert(is_digit_char(s.skip(1)[j - 1]));
            }
        }
    }
}

/// Every character inside the maximal alphabetic run is alphabetic.
proof fn lemma_alpha_run_chars(s: Seq<char>)
    ensures
        forall|j: int| 0 <= j < alpha_run(s) ==> is_alpha_char(#[trigger] s[j]),
    decreases s.len(),
{
    if s.len() > 0 && is_alpha_char(s[0]) {
        lemma_alpha_run_le(s);
        lemma_alpha_run_chars(s.skip(1));
        assert forall|j: int| 0 <= j < alpha_run(s) implies is_alpha_char(#[trigger] s[j]) by {
            if j >= 1 {
                assert(s.skip(1)[j - 1] == s[j]);
                assert(is_alpha_char(s.skip(1)[j - 1]));
            }
        }
    }
}

/// When the first `k` characters are all lexable, the line holds a bad
/// character exactly when the rest of it does.
proof fn lemma_bad_char_shift(s: Seq<char>, k: int)
    requires
        0 <= k <= s.len(),
        forall|j: int| 0 <= j < k ==> lexable_char(#[trigger] s[j]),
    ensures
        (exists|i: int| 0 <= i < s.skip(k).len() && !lexable_char(#[trigger] s.skip(k)[i]))
            <==> (exists|i: int| 0 <= i < s.len() && !lexable_char(#[trigger] s[i])),
{
    if exists|i: int| 0 <= i < s.skip(k).len() && !lexable_char(#[trigger] s.skip(k)[i]) {
        let i = choose|i: int| 0 <= i < s.skip(k).len() && !lexable_char(#[trigger] s.skip(k)[i]);
        assert(s.skip(k)[i] == s[i + k]);
        assert(!lexable_char(s[i + k]));
    }
    if exists|i: int| 0 <= i < s.len() && !lexable_char(#[trigger] s[i]) {
        let i = choose|i: int| 0 <= i < s.len() && !lexable_char(#[trigger] s[i]);
        assert(i >= k);
        assert(s.skip(k)[i - k] == s[i]);
        assert(!lexable_char(s.skip(k)[i - k]));
    }
}

} // verus!
