use vstd::prelude::*;

verus! {

/// The classification of one lexical unit.
#[derive(Debug, Clone, Copy, PartialEq, Eq, Structural)]
pub enum TokenType {
    Num,
    Name,
    Plus,
    Minus,
    Times,
    Lparen,
    Rparen,
    Assign,
}

/// One lexical unit: its classification and the exact substring matched.
#[derive(Debug)]
pub struct Token {
    pub token_type: TokenType,
    pub val: String,
}

/// Spec-level model of a token: the classification together with the matched
/// characters.
pub struct TokenModel {
    pub token_type: TokenType,
    pub text: Seq<char>,
}

impl View for Token {
    type V = TokenModel;

    open spec fn view(&self) -> TokenModel {
        TokenModel { token_type: self.token_type, text: self.val@ }
    }
}

impl Clone for Token {
    fn clone(&self) -> (r: Self)
        ensures
            r@ == self@,
    {
        Token { token_type: self.token_type, val: self.val.clone() }
    }
}

/// The models of a sequence of tokens, in order.
pub open spec fn models_of(ts: Seq<Token>) -> Seq<TokenModel> {
    ts.map_values(|t: Token| t@)
}

pub proof fn lemma_models_of_push(ts: Seq<Token>, t: Token)
    ensures
        models_of(ts.push(t)) == models_of(ts).push(t@),
{
    assert(models_of(ts.push(t)) =~= models_of(ts).push(t@));
}

} // verus!
