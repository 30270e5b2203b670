use vstd::prelude::*;
use vstd::string::StringExecFns;

verus! {

/// One input token. Delimiters (`{`, `(`, `<`, ...) are punctuation tokens of
/// their own; a lifetime is the punctuation `'` followed by an identifier.
#[derive(Debug, PartialEq, Eq)]
pub enum Token {
    Ident(String),
    Punct(char),
    Literal(String),
}

pub enum TokenModel {
    Ident(Seq<char>),
    Punct(char),
    Literal(Seq<char>),
}

impl View for Token {
    type V = TokenModel;

    open spec fn view(&self) -> TokenModel {
        match self {
            Token::Ident(s) => TokenModel::Ident(s@),
            Token::Punct(c) => TokenModel::Punct(*c),
            Token::Literal(s) => TokenModel::Literal(s@),
        }
    }
}

/// The tokens as models.
pub open spec fn toks_model(toks: Seq<Token>) -> Seq<TokenModel> {
    toks.map_values(|t: Token| t@)
}

/// Whether the token at `pos` is the punctuation `c`.
pub fn punct_at(toks: &Vec<Token>, pos: usize, c: char) -> (r: bool)
    ensures
        r == (pos < toks.len() && toks@[pos as int]@ == TokenModel::Punct(c)),
{
    if pos >= toks.len() {
        return false;
    }
    match &toks[pos] {
        Token::Punct(p) => *p == c,
        _ => false,
    }
}

/// The identifier at `pos`, if the token there is one.
pub fn ident_at(toks: &Vec<Token>, pos: usize) -> (r: Option<&String>)
    ensures
        r is Some <==> (pos < toks.len() && toks@[pos as int]@ is Ident),
        r matches Some(s) ==> toks@[pos as int]@ == TokenModel::Ident(s@),
{
    if pos >= toks.len() {
        return None;
    }
    match &toks[pos] {
        Token::Ident(s) => Some(s),
        _ => None,
    }
}

/// Whether the token at `pos` is the identifier `word`.
pub fn keyword_at(toks: &Vec<Token>, pos: usize, word: &str) -> (r: bool)
    ensures
        r == (pos < toks.len() && toks@[pos as int]@ == TokenModel::Ident(word@)),
{
    match ident_at(toks, pos) {
        Some(s) => {
            let w = String::from_str(word);
            *s == w
        },
        None => false,
    }
}

} // verus!
