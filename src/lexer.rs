//! Reduction of source text to the instruction sequence.
use vstd::prelude::*;

verus! {

/// One of the eight instructions of the language.
#[derive(Debug, Clone, Copy, PartialEq, Eq, Structural)]
pub enum Token {
    /// `>`: move the data pointer one cell to the right.
    Incptr,
    /// `<`: move the data pointer one cell to the left.
    Decptr,
    /// `+`: add one to the current cell.
    Incbyte,
    /// `-`: subtract one from the current cell.
    Decbyte,
    /// `.`: emit the character whose code point is the current cell.
    Outbyte,
    /// `,`: read one byte into the current cell.
    Inbyte,
    /// `[`: skip past the matching `]` when the current cell is zero.
    Forward,
    /// `]`: go back past the matching `[` when the current cell is not zero.
    Backward,
}

/// The instruction that a source character stands for, if any.
pub open spec fn token_of(c: char) -> Option<Token> {
    if c == '>' {
        Some(Token::Incptr)
    } else if c == '<' {
        Some(Token::Decptr)
    } else if c == '+' {
        Some(Token::Incbyte)
    } else if c == '-' {
        Some(Token::Decbyte)
    } else if c == '.' {
        Some(Token::Outbyte)
    } else if c == ',' {
        Some(Token::Inbyte)
    } else if c == '[' {
        Some(Token::Forward)
    } else if c == ']' {
        Some(Token::Backward)
    } else {
        None
    }
}

/// Whether a source character is one of the eight command symbols.
pub open spec fn is_command(c: char) -> bool {
    token_of(c) is Some
}

/// The program denoted by a source text: each command character in turn
/// becomes its instruction, every other character is dropped.
pub open spec fn lex_spec(s: Seq<char>) -> Seq<Token>
    decreases s.len(),
{
    if s.len() == 0 {
        Seq::empty()
    } else {
        let rest = lex_spec(s.drop_last());
        match token_of(s.last()) {
            Some(t) => rest.push(t),
            None => rest,
        }
    }
}

fn token_for(c: char) -> (r: Option<Token>)
    ensures
        r == token_of(c),
{
    match c {
        '>' => Some(Token::Incptr),
        '<' => Some(Token::Decptr),
        '+' => Some(Token::Incbyte),
        '-' => Some(Token::Decbyte),
        '.' => Some(Token::Outbyte),
        ',' => Some(Token::Inbyte),
        '[' => Some(Token::Forward),
        ']' => Some(Token::Backward),
        _ => None,
    }
}

/// Reduces source text to its instructions; no character is ever rejected.
pub fn lex(code: &str) -> (r: Vec<Token>)
    ensures
        r@ == lex_spec(code@),
{
    let mut insns: Vec<Token> = Vec::new();
    let n: usize = code.unicode_len();
    let mut i: usize = 0;
    while i < n
        invariant
            n == code@.len(),
            i <= n,
            insns@ == lex_spec(code@.take(i as int)),
        decreases n - i,
    {
        let c = code.get_char(i);
        assert(code@.take(i + 1).drop_last() =~= code@.take(i as int));
        match token_for(c) {
            Some(t) => insns.push(t),
            None => {},
        }
        i = i + 1;
    }
    assert(code@.take(n as int) =~= code@);
    insns
}

/// The program keeps exactly the command characters of the source, in their
/// order: its length is the number of command characters, and its i-th
/// instruction is the one for the i-th command character.
pub proof fn lemma_lex_keeps_commands(s: Seq<char>)
    ensures
        lex_spec(s) == s.filter(|c: char| is_command(c)).map_values(|c: char| token_of(c)->Some_0),
        lex_spec(s).len() == s.filter(|c: char| is_command(c)).len(),
    decreases s.len(),
{
    let p = |c: char| is_command(c);
    let f = |c: char| token_of(c)->Some_0;
    if s.len() == 0 {
        assert(s.filter(p) =~= Seq::empty());
        assert(lex_spec(s) =~= s.filter(p).map_values(f));
    } else {
        let init = s.drop_last();
        lemma_lex_keeps_commands(init);
        assert(s =~= init.push(s.last()));
        init.lemma_filter_push(s.last(), p);
        init.filter(p).lemma_push_map_commute(f, s.last());
        assert(lex_spec(s) =~= s.filter(p).map_values(f));
    }
}

} // verus!
