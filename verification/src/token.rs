//! Instructions and the tokenizer that reads them from source text.

use vstd::prelude::*;

verus! {

/// One instruction of the machine.
#[derive(Clone, Copy, Debug, PartialEq, Eq, Structural)]
pub enum Token {
    /// `>`: move the data pointer one cell to the right.
    INCP,
    /// `<`: move the data pointer one cell to the left.
    DECP,
    /// `+`: add one to the current cell, wrapping at 255.
    INCC,
    /// `-`: subtract one from the current cell, wrapping at 0.
    DECC,
    /// `.`: write the current cell to the output.
    PCHR,
    /// `,`: read one byte of input into the current cell.
    GCHR,
    /// `[`: skip past the matching `]` if the current cell is zero.
    LBRK,
    /// `]`: go back to just after the matching `[` unless the current cell is zero.
    RBRK,
}

/// The instruction a character stands for, if it stands for one.
pub open spec fn token_of(c: char) -> Option<Token> {
    if c == '>' {
        Some(Token::INCP)
    } else if c == '<' {
        Some(Token::DECP)
    } else if c == '+' {
        Some(Token::INCC)
    } else if c == '-' {
        Some(Token::DECC)
    } else if c == '.' {
        Some(Token::PCHR)
    } else if c == ',' {
        Some(Token::GCHR)
    } else if c == '[' {
        Some(Token::LBRK)
    } else if c == ']' {
        Some(Token::RBRK)
    } else {
        None
    }
}

/// Whether a character is one of the eight instruction characters.
pub open spec fn is_instruction(c: char) -> bool {
    c == '>' || c == '<' || c == '+' || c == '-' || c == '.' || c == ',' || c == '[' || c == ']'
}

/// The program a text denotes: its instruction characters, in order, each as
/// its instruction; every other character is dropped.
pub open spec fn tokens_of(text: Seq<char>) -> Seq<Token> {
    text.filter_map(|c: char| token_of(c))
}

impl Token {
    /// Reads one character: `Some` for the eight instruction characters, `None`
    /// for anything else.
    pub fn from_char(c: char) -> (t: Option<Token>)
        ensures
            t == token_of(c),
    {
        match c {
            '>' => Some(Token::INCP),
            '<' => Some(Token::DECP),
            '+' => Some(Token::INCC),
            '-' => Some(Token::DECC),
            '.' => Some(Token::PCHR),
            ',' => Some(Token::GCHR),
            '[' => Some(Token::LBRK),
            ']' => Some(Token::RBRK),
            _ => None,
        }
    }
}

/// Tokenizes source text. Never fails: text without instruction characters
/// gives the empty program.
pub fn tokenize(source: &str) -> (code: Vec<Token>)
    ensures
        code@ == tokens_of(source@),
{
    let mut code: Vec<Token> = Vec::new();
    for c in it: source.chars()
        invariant
            it.seq() == source@,
            code@ == tokens_of(source@.take(it.index() as int)),
    {
        proof {
            source@.lemma_filter_map_take_succ(|c: char| token_of(c), it.index() as int);
        }
        match Token::from_char(c) {
            Some(t) => {
                code.push(t);
            },
            None => {},
        }
    }
    assert(source@.take(source@.len() as int) =~= source@);
    code
}

/// The program of a text has one instruction for each instruction character
/// of the text, in the order of the text: it is the text with every other
/// character left out, read character by character.
pub proof fn lemma_tokens_follow_text(text: Seq<char>)
    ensures
        tokens_of(text).len() == text.filter(|c: char| is_instruction(c)).len(),
        tokens_of(text) == text.filter(|c: char| is_instruction(c)).map_values(
            |c: char| token_of(c)->0,
        ),
    decreases text.len(),
{
    reveal(Seq::filter);
    if text.len() > 0 {
        lemma_tokens_follow_text(text.drop_last());
    }
}

} // verus!
