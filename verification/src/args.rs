//! The arguments of the macros that are written token by token.
//!
//! Such a macro takes a key, or a key, a comma and a value. The key and
//! the value are literals, and each is taken as it was written. Arguments
//! that are left out are taken as empty.

use vstd::prelude::*;

verus! {

/// One token of a macro's arguments, as far as the macros look at it.
pub enum ArgToken {
    /// A literal, with its text as it was written.
    Literal(String),
    /// A punctuation character.
    Punct(char),
    /// Any other token.
    Other,
}

/// Whether `token` may stand at `position` where a key alone is expected:
/// the first token, if it is a literal.
pub open spec fn fits_key(position: int, token: ArgToken) -> bool {
    position == 0 && token is Literal
}

/// Whether `token` may stand at `position` where a key, a comma and a
/// value are expected.
pub open spec fn fits_key_value(position: int, token: ArgToken) -> bool {
    ||| position == 0 && token is Literal
    ||| position == 1 && token == ArgToken::Punct(',')
    ||| position == 2 && token is Literal
}

/// The text of the literal at `position`, and the empty text where the
/// tokens end before it.
pub open spec fn literal_at(tokens: Seq<ArgToken>, position: int) -> Seq<char> {
    if 0 <= position < tokens.len() && tokens[position] is Literal {
        tokens[position]->Literal_0@
    } else {
        Seq::empty()
    }
}

/// The text of a literal token.
fn literal_text(token: &ArgToken) -> (text: String)
    requires
        token is Literal,
    ensures
        text@ == token->Literal_0@,
{
    match token {
        ArgToken::Literal(text) => text.clone(),
        _ => String::new(),
    }
}

/// Whether `token` is a literal.
fn is_literal(token: &ArgToken) -> (literal: bool)
    ensures
        literal == (token is Literal),
{
    match token {
        ArgToken::Literal(_) => true,
        _ => false,
    }
}

/// Whether `token` is a comma.
fn is_comma(token: &ArgToken) -> (comma: bool)
    ensures
        comma == (*token == ArgToken::Punct(',')),
{
    match token {
        ArgToken::Punct(c) => *c == ',',
        _ => false,
    }
}

/// Reads the arguments of a macro that takes a key. Gives the key, which
/// is empty where there is no token; or the position of the first token
/// that is not expected, which is the first token if it is no literal,
/// and else the second.
pub fn key_arg(tokens: &Vec<ArgToken>) -> (args: Result<String, usize>)
    ensures
        match args {
            Ok(key) => {
                &&& forall|i: int| 0 <= i < tokens.len() ==> fits_key(i, #[trigger] tokens[i])
                &&& key@ == literal_at(tokens@, 0)
            },
            Err(at) => {
                &&& at < tokens.len()
                &&& !fits_key(at as int, tokens[at as int])
                &&& forall|i: int| 0 <= i < at ==> fits_key(i, #[trigger] tokens[i])
            },
        },
{
    if tokens.len() == 0 {
        Ok(String::new())
    } else if !is_literal(&tokens[0]) {
        Err(0)
    } else if tokens.len() > 1 {
        Err(1)
    } else {
        Ok(literal_text(&tokens[0]))
    }
}

/// Reads the arguments of a macro that takes a key, a comma and a value.
/// Gives the key and the value, each of which is empty where the tokens
/// end before it; or the position of the first token that is not
/// expected.
pub fn key_value_args(tokens: &Vec<ArgToken>) -> (args: Result<(String, String), usize>)
    ensures
        match args {
            Ok((key, value)) => {
                &&& forall|i: int|
                    0 <= i < tokens.len() ==> fits_key_value(i, #[trigger] tokens[i])
                &&& key@ == literal_at(tokens@, 0)
                &&& value@ == literal_at(tokens@, 2)
            },
            Err(at) => {
                &&& at < tokens.len()
                &&& !fits_key_value(at as int, tokens[at as int])
                &&& forall|i: int| 0 <= i < at ==> fits_key_value(i, #[trigger] tokens[i])
            },
        },
{
    let mut key = String::new();
    let mut value = String::new();
    let mut i: usize = 0;
    while i < tokens.len()
        invariant
            i <= tokens.len(),
            i <= 3,
            forall|k: int| 0 <= k < i ==> fits_key_value(k, #[trigger] tokens[k]),
            key@ == (if i > 0 {
                literal_at(tokens@, 0)
            } else {
                Seq::empty()
            }),
            value@ == (if i > 2 {
                literal_at(tokens@, 2)
            } else {
                Seq::empty()
            }),
        decreases tokens.len() - i,
    {
        if i == 1 {
            if !is_comma(&tokens[i]) {
                return Err(i);
            }
        } else if i < 3 && is_literal(&tokens[i]) {
            let text = literal_text(&tokens[i]);
            if i == 0 {
                key = text;
            } else {
                value = text;
            }
        } else {
            return Err(i);
        }
        i += 1;
    }
    Ok((key, value))
}

} // verus!
