//! Token model: the kinds of token the lexer produces, the keyword table,
//! and the `Token` record itself (kind, literal text, source position).

use vstd::prelude::*;

use crate::util::bytes_eq;
use crate::util::copy_bytes;

verus! {

/// The kind of a lexed token: punctuation, literals, instruction mnemonics
/// and meta-directives.
#[allow(non_camel_case_types)]
#[derive(Copy, Clone, PartialEq, Eq, Structural, Debug)]
pub enum TokenType {
    ILLEGAL,
    EOF,
    COMMENT,
    END_INST,
    COMMA,
    IMMEDIATE,
    IDENT,
    LABEL,
    NUMBER,
    STRING,
    REGISTER,
    NOOP,
    LOAD,
    STR,
    XFER,
    ADD,
    OR,
    AND,
    XOR,
    ROTR,
    ROTL,
    JMP,
    HALT,
    JMPA,
    LDSP,
    PUSH,
    POP,
    CALL,
    RTN,
    RMB,
    ORG,
    FCB,
    FDB,
    DEBUG,
}

/// Compares a byte string against a fixed keyword spelling.
fn kw_eq<const N: usize>(s: &[u8], w: [u8; N]) -> (r: bool)
    ensures
        r == (s@ == w@),
{
    bytes_eq(s, w.as_slice())
}

/// The keyword table: which identifier spellings are mnemonics or
/// directives.  Anything else is a plain identifier.
pub open spec fn spec_lookup_ident(s: Seq<u8>) -> TokenType {
    if s == seq![('N' as u8), ('O' as u8), ('O' as u8), ('P' as u8)] {
        TokenType::NOOP
    } else if s == seq![('L' as u8), ('O' as u8), ('A' as u8), ('D' as u8)] {
        TokenType::LOAD
    } else if s == seq![('S' as u8), ('T' as u8), ('R' as u8)] {
        TokenType::STR
    } else if s == seq![('X' as u8), ('F' as u8), ('E' as u8), ('R' as u8)] {
        TokenType::XFER
    } else if s == seq![('A' as u8), ('D' as u8), ('D' as u8)] {
        TokenType::ADD
    } else if s == seq![('O' as u8), ('R' as u8)] {
        TokenType::OR
    } else if s == seq![('A' as u8), ('N' as u8), ('D' as u8)] {
        TokenType::AND
    } else if s == seq![('X' as u8), ('O' as u8), ('R' as u8)] {
        TokenType::XOR
    } else if s == seq![('R' as u8), ('O' as u8), ('T' as u8), ('R' as u8)] {
        TokenType::ROTR
    } else if s == seq![('R' as u8), ('O' as u8), ('T' as u8), ('L' as u8)] {
        TokenType::ROTL
    } else if s == seq![('J' as u8), ('M' as u8), ('P' as u8)] {
        TokenType::JMP
    } else if s == seq![('H' as u8), ('A' as u8), ('L' as u8), ('T' as u8)] {
        TokenType::HALT
    } else if s == seq![('J' as u8), ('M' as u8), ('P' as u8), ('A' as u8)] {
        TokenType::JMPA
    } else if s == seq![('L' as u8), ('D' as u8), ('S' as u8), ('P' as u8)] {
        TokenType::LDSP
    } else if s == seq![('P' as u8), ('U' as u8), ('S' as u8), ('H' as u8)] {
        TokenType::PUSH
    } else if s == seq![('P' as u8), ('O' as u8), ('P' as u8)] {
        TokenType::POP
    } else if s == seq![('C' as u8), ('A' as u8), ('L' as u8), ('L' as u8)] {
        TokenType::CALL
    } else if s == seq![('R' as u8), ('T' as u8), ('N' as u8)] {
        TokenType::RTN
    } else if s == seq![('R' as u8), ('M' as u8), ('B' as u8)] {
        TokenType::RMB
    } else if s == seq![('O' as u8), ('R' as u8), ('G' as u8)] {
        TokenType::ORG
    } else if s == seq![('F' as u8), ('C' as u8), ('B' as u8)] {
        TokenType::FCB
    } else if s == seq![('F' as u8), ('D' as u8), ('B' as u8)] {
        TokenType::FDB
    } else if s == seq![('D' as u8), ('E' as u8), ('B' as u8), ('U' as u8), ('G' as u8)] {
        TokenType::DEBUG
    } else {
        TokenType::IDENT
    }
}

impl TokenType {
    /// Looks an identifier up in the keyword table.
    pub fn lookup_ident(s: &[u8]) -> (t: TokenType)
        ensures
            t == spec_lookup_ident(s@),
    {
        if kw_eq(s, [('N' as u8), ('O' as u8), ('O' as u8), ('P' as u8)]) {
            TokenType::NOOP
        } else if kw_eq(s, [('L' as u8), ('O' as u8), ('A' as u8), ('D' as u8)]) {
            TokenType::LOAD
        } else if kw_eq(s, [('S' as u8), ('T' as u8), ('R' as u8)]) {
            TokenType::STR
        } else if kw_eq(s, [('X' as u8), ('F' as u8), ('E' as u8), ('R' as u8)]) {
            TokenType::XFER
        } else if kw_eq(s, [('A' as u8), ('D' as u8), ('D' as u8)]) {
            TokenType::ADD
        } else if kw_eq(s, [('O' as u8), ('R' as u8)]) {
            TokenType::OR
        } else if kw_eq(s, [('A' as u8), ('N' as u8), ('D' as u8)]) {
            TokenType::AND
        } else if kw_eq(s, [('X' as u8), ('O' as u8), ('R' as u8)]) {
            TokenType::XOR
        } else if kw_eq(s, [('R' as u8), ('O' as u8), ('T' as u8), ('R' as u8)]) {
            TokenType::ROTR
        } else if kw_eq(s, [('R' as u8), ('O' as u8), ('T' as u8), ('L' as u8)]) {
            TokenType::ROTL
        } else if kw_eq(s, [('J' as u8), ('M' as u8), ('P' as u8)]) {
            TokenType::JMP
        } else if kw_eq(s, [('H' as u8), ('A' as u8), ('L' as u8), ('T' as u8)]) {
            TokenType::HALT
        } else if kw_eq(s, [('J' as u8), ('M' as u8), ('P' as u8), ('A' as u8)]) {
            TokenType::JMPA
        } else if kw_eq(s, [('L' as u8), ('D' as u8), ('S' as u8), ('P' as u8)]) {
            TokenType::LDSP
        } else if kw_eq(s, [('P' as u8), ('U' as u8), ('S' as u8), ('H' as u8)]) {
            TokenType::PUSH
        } else if kw_eq(s, [('P' as u8), ('O' as u8), ('P' as u8)]) {
            TokenType::POP
        } else if kw_eq(s, [('C' as u8), ('A' as u8), ('L' as u8), ('L' as u8)]) {
            TokenType::CALL
        } else if kw_eq(s, [('R' as u8), ('T' as u8), ('N' as u8)]) {
            TokenType::RTN
        } else if kw_eq(s, [('R' as u8), ('M' as u8), ('B' as u8)]) {
            TokenType::RMB
        } else if kw_eq(s, [('O' as u8), ('R' as u8), ('G' as u8)]) {
            TokenType::ORG
        } else if kw_eq(s, [('F' as u8), ('C' as u8), ('B' as u8)]) {
            TokenType::FCB
        } else if kw_eq(s, [('F' as u8), ('D' as u8), ('B' as u8)]) {
            TokenType::FDB
        } else if kw_eq(s, [('D' as u8), ('E' as u8), ('B' as u8), ('U' as u8), ('G' as u8)]) {
            TokenType::DEBUG
        } else {
            TokenType::IDENT
        }
    }
}

/// One lexed token: its kind, the literal bytes it carries, and the source
/// line and column it was read at.
#[derive(Debug)]
pub struct Token {
    pub name: TokenType,
    pub literal: Vec<u8>,
    pub line: u32,
    pub col: u32,
}

impl Clone for Token {
    fn clone(&self) -> (r: Self)
        ensures
            r.name == self.name,
            r.literal@ == self.literal@,
            r.line == self.line,
            r.col == self.col,
    {
        Token {
            name: self.name,
            literal: copy_bytes(self.literal.as_slice()),
            line: self.line,
            col: self.col,
        }
    }
}

impl Token {
    /// Builds a token that carries literal text.
    pub fn with_literal(t: TokenType, lit: Vec<u8>, line: u32, col: u32) -> (r: Self)
        ensures
            r.name == t,
            r.literal == lit,
            r.line == line,
            r.col == col,
    {
        Token { name: t, literal: lit, line, col }
    }

    /// Builds a token with no literal text.
    pub fn simple(t: TokenType, line: u32, col: u32) -> (r: Self)
        ensures
            r.name == t,
            r.literal@ == Seq::<u8>::empty(),
            r.line == line,
            r.col == col,
    {
        Self::with_literal(t, Vec::new(), line, col)
    }
}

} // verus!
