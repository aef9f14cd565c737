//! The parser and instruction encoder: consumes the token stream with
//! two-token lookahead and emits binary instructions into the active code
//! region of a [`Program`], deferring symbolic addresses as pending links.

use vstd::prelude::*;

use crate::lexer::TokInfo;
use crate::opcode::OpCode;
use crate::opcode::spec_opcode_value;
use crate::program::LabelReplace;
use crate::program::Program;
use crate::program::appended;
use crate::util::hi8;
use crate::util::lo8;
use crate::program::bulk_emitted;
use crate::program::lemma_appended_is_bulk;
use crate::program::lemma_linked_is_bulk;
use crate::program::lemma_bulk_trans;
use crate::program::linked;
use crate::program::no_overlap;
use crate::program::OverlapError;
use crate::program::validate_post;
use crate::program::sorted_parts;
use crate::token::Token;
use crate::token::TokenType;

verus! {

/// Why a piece of source was rejected.
#[derive(Copy, Clone, PartialEq, Eq, Structural, Debug)]
pub enum ParseFault {
    /// A number token did not parse as a 16-bit value.
    InvalidAddress,
    /// A string operand longer than two bytes.
    StringTooLong,
    /// The offset after a label's `+`/`-` did not parse as a 16-bit
    /// signed value.
    InvalidAddressOffset,
    /// An `FCB` operand that is neither a number nor a string.
    FcbOperand,
    /// An `FCB` number that is not a byte, or does not parse.
    InvalidByte,
    /// A bare string used as an `FDB` operand.
    FdbString,
    /// An `RMB`/`ORG` count that does not parse as a 16-bit value.
    InvalidNumber,
    /// A rotate count beyond 0-255.
    RotateCount,
    /// A register literal that does not parse, or names a register beyond
    /// the register file.
    InvalidRegister,
    /// A token no instruction starts with.
    UnknownToken,
}

/// How the parser describes the token it wanted.
#[derive(Copy, Clone, PartialEq, Eq, Structural, Debug)]
pub enum ExpectedKind {
    /// One specific token kind.
    Kind(TokenType),
    /// A number, identifier, immediate marker or register.
    AnyOperand,
    /// A number, identifier or register.
    AnyOperandNoImmediate,
    /// A number or identifier.
    AddressOperand,
}

/// A parse error: what went wrong and the source line it went wrong on.
#[derive(Copy, Clone, PartialEq, Eq, Structural, Debug)]
pub enum ParserError {
    /// A malformed literal or operand, with the offending line.
    InvalidCode(ParseFault, u32),
    /// The parser wanted one kind of token and saw another: expected,
    /// got, line.
    ExpectedToken(ExpectedKind, TokenType, u32),
    /// Two code regions overlap: the earlier origin and the origin that
    /// begins inside it.
    ValidationError(u16, u16),
}

/// The decimal digits' values: `None` when some byte is not a digit.
pub open spec fn spec_is_dec(s: Seq<u8>) -> bool {
    forall|i: int| 0 <= i < s.len() ==> crate::lexer::spec_is_digit(#[trigger] s[i])
}

/// The value of a decimal digit string.
pub open spec fn dec_val(s: Seq<u8>) -> nat
    decreases s.len(),
{
    if s.len() == 0 {
        0
    } else {
        dec_val(s.drop_last()) * 10 + (s.last() - ('0' as u8)) as nat
    }
}

/// True for a hexadecimal digit (both cases).
pub open spec fn spec_is_hexd(b: u8) -> bool {
    (('0' as u8) <= b <= ('9' as u8)) || (('a' as u8) <= b <= ('f' as u8)) || (('A' as u8) <= b
        <= ('F' as u8))
}

/// The value of one hexadecimal digit.
pub open spec fn hexd_val(b: u8) -> nat {
    if ('0' as u8) <= b <= ('9' as u8) {
        (b - ('0' as u8)) as nat
    } else if ('a' as u8) <= b <= ('f' as u8) {
        (b - ('a' as u8) + 10) as nat
    } else {
        (b - ('A' as u8) + 10) as nat
    }
}

/// All bytes are hexadecimal digits.
pub open spec fn spec_is_hex(s: Seq<u8>) -> bool {
    forall|i: int| 0 <= i < s.len() ==> spec_is_hexd(#[trigger] s[i])
}

/// The value of a hexadecimal digit string.
pub open spec fn hex_val(s: Seq<u8>) -> nat
    decreases s.len(),
{
    if s.len() == 0 {
        0
    } else {
        hex_val(s.drop_last()) * 16 + hexd_val(s.last())
    }
}

/// Drops every leading `!`.
pub open spec fn strip_bangs(s: Seq<u8>) -> Seq<u8>
    decreases s.len(),
{
    if s.len() > 0 && s[0] == ('!' as u8) {
        strip_bangs(s.drop_first())
    } else {
        s
    }
}

/// Drops every leading `0x`.
pub open spec fn strip_0x(s: Seq<u8>) -> Seq<u8>
    decreases s.len(),
{
    if s.len() >= 2 && s[0] == ('0' as u8) && s[1] == ('x' as u8) {
        strip_0x(s.drop_first().drop_first())
    } else {
        s
    }
}

/// A nonempty all-decimal string whose value fits 16 bits.
pub open spec fn dec_u16(s: Seq<u8>) -> Option<u16> {
    if s.len() > 0 && spec_is_dec(s) && dec_val(s) <= 0xFFFF {
        Some(dec_val(s) as u16)
    } else {
        None
    }
}

/// A nonempty all-hex string whose value fits 16 bits.
pub open spec fn hex_u16(s: Seq<u8>) -> Option<u16> {
    if s.len() > 0 && spec_is_hex(s) && hex_val(s) <= 0xFFFF {
        Some(hex_val(s) as u16)
    } else {
        None
    }
}

/// A 16-bit numeric literal: `!`-prefixed hex, `0x`-prefixed hex, or
/// plain decimal.
pub open spec fn spec_parse_u16(s: Seq<u8>) -> Option<u16> {
    if s.len() > 0 && s[0] == ('!' as u8) {
        hex_u16(strip_bangs(s))
    } else if s.len() >= 2 && s[0] == ('0' as u8) && s[1] == ('x' as u8) {
        hex_u16(strip_0x(s))
    } else {
        dec_u16(s)
    }
}

/// A register literal: hex digits (after any `0x` prefixes) whose value
/// fits 8 bits.
pub open spec fn spec_parse_reg_lit(s: Seq<u8>) -> Option<u8> {
    let t = strip_0x(s);
    if t.len() > 0 && spec_is_hex(t) && hex_val(t) <= 0xFF {
        Some(hex_val(t) as u8)
    } else {
        None
    }
}

/// A signed 16-bit literal with an optional `+`/`-` sign, as a label
/// offset carries it.
pub open spec fn spec_parse_i16(s: Seq<u8>) -> Option<i16> {
    if s.len() > 0 && s[0] == ('-' as u8) {
        let d = s.drop_first();
        if d.len() > 0 && spec_is_dec(d) && dec_val(d) <= 0x8000 {
            Some((-(dec_val(d) as int)) as i16)
        } else {
            None
        }
    } else {
        let d = if s.len() > 0 && s[0] == ('+' as u8) {
            s.drop_first()
        } else {
            s
        };
        if d.len() > 0 && spec_is_dec(d) && dec_val(d) <= 0x7FFF {
            Some(dec_val(d) as i16)
        } else {
            None
        }
    }
}

/// Digit-string values only grow as digits are appended.
proof fn lemma_dec_val_mono(s: Seq<u8>, i: int, j: int)
    requires
        0 <= i <= j <= s.len(),
    ensures
        dec_val(s.take(i)) <= dec_val(s.take(j)),
    decreases j - i,
{
    if i < j {
        lemma_dec_val_mono(s, i, j - 1);
        assert(s.take(j).drop_last() =~= s.take(j - 1));
        assert(dec_val(s.take(j)) == dec_val(s.take(j - 1)) * 10 + (s.take(j).last() - ('0'
            as u8)) as nat);
    }
}

/// Hex-string values only grow as digits are appended.
proof fn lemma_hex_val_mono(s: Seq<u8>, i: int, j: int)
    requires
        0 <= i <= j <= s.len(),
    ensures
        hex_val(s.take(i)) <= hex_val(s.take(j)),
    decreases j - i,
{
    if i < j {
        lemma_hex_val_mono(s, i, j - 1);
        assert(s.take(j).drop_last() =~= s.take(j - 1));
        assert(hex_val(s.take(j)) == hex_val(s.take(j - 1)) * 16 + hexd_val(s.take(j).last()));
    }
}

/// Parses a nonempty all-decimal string into a 16-bit value.
fn parse_dec_u16(s: &[u8]) -> (r: Option<u16>)
    ensures
        r == dec_u16(s@),
{
    if s.len() == 0 {
        return None;
    }
    let mut acc: u32 = 0;
    let mut i: usize = 0;
    while i < s.len()
        invariant
            0 <= i <= s@.len(),
            spec_is_dec(s@.take(i as int)),
            acc == dec_val(s@.take(i as int)),
            acc <= 0xFFFF,
        decreases s@.len() - i,
    {
        let b = s[i];
        if !(('0' as u8) <= b && b <= ('9' as u8)) {
            assert(!spec_is_dec(s@));
            return None;
        }
        proof {
            assert(s@.take(i as int + 1).drop_last() =~= s@.take(i as int));
        }
        acc = acc * 10 + (b - ('0' as u8)) as u32;
        i += 1;
        if acc > 0xFFFF {
            proof {
                lemma_dec_val_mono(s@, i as int, s@.len() as int);
                assert(s@.take(s@.len() as int) =~= s@);
            }
            return None;
        }
    }
    proof {
        assert(s@.take(s@.len() as int) =~= s@);
    }
    Some(acc as u16)
}

/// Parses a nonempty all-hex string into a 16-bit value.
fn parse_hex_u16(s: &[u8]) -> (r: Option<u16>)
    ensures
        r == hex_u16(s@),
{
    if s.len() == 0 {
        return None;
    }
    let mut acc: u32 = 0;
    let mut i: usize = 0;
    while i < s.len()
        invariant
            0 <= i <= s@.len(),
            spec_is_hex(s@.take(i as int)),
            acc == hex_val(s@.take(i as int)),
            acc <= 0xFFFF,
        decreases s@.len() - i,
    {
        let b = s[i];
        let d: u32;
        if ('0' as u8) <= b && b <= ('9' as u8) {
            d = (b - ('0' as u8)) as u32;
        } else if ('a' as u8) <= b && b <= ('f' as u8) {
            d = (b - ('a' as u8)) as u32 + 10;
        } else if ('A' as u8) <= b && b <= ('F' as u8) {
            d = (b - ('A' as u8)) as u32 + 10;
        } else {
            assert(!spec_is_hexd(s@[i as int]));
            assert(!spec_is_hex(s@));
            return None;
        }
        proof {
            assert(s@.take(i as int + 1).drop_last() =~= s@.take(i as int));
        }
        acc = acc * 16 + d;
        i += 1;
        if acc > 0xFFFF {
            proof {
                lemma_hex_val_mono(s@, i as int, s@.len() as int);
                assert(s@.take(s@.len() as int) =~= s@);
            }
            return None;
        }
    }
    proof {
        assert(s@.take(s@.len() as int) =~= s@);
    }
    Some(acc as u16)
}

/// Parses a 16-bit numeric literal in any of its three forms: plain
/// decimal, `0x`-prefixed hex, `!`-prefixed hex.
pub fn parse_u16(s: &[u8]) -> (r: Option<u16>)
    ensures
        r == spec_parse_u16(s@),
{
    if s.len() > 0 && s[0] == ('!' as u8) {
        let mut i: usize = 0;
        assert(s@.skip(0) =~= s@);
        while i < s.len() && s[i] == ('!' as u8)
            invariant
                0 <= i <= s@.len(),
                strip_bangs(s@) == strip_bangs(s@.skip(i as int)),
            decreases s@.len() - i,
        {
            proof {
                assert(s@.skip(i as int)[0] == s@[i as int]);
                assert(s@.skip(i as int).drop_first() =~= s@.skip(i as int + 1));
            }
            i += 1;
        }
        proof {
            if i < s@.len() {
                assert(s@.skip(i as int)[0] == s@[i as int]);
            }
            assert(strip_bangs(s@) == s@.skip(i as int));
        }
        let rest = crate::util::copy_bytes_from(s, i);
        parse_hex_u16(rest.as_slice())
    } else if s.len() >= 2 && s[0] == ('0' as u8) && s[1] == ('x' as u8) {
        let mut i: usize = 0;
        assert(s@.skip(0) =~= s@);
        while s.len() - i >= 2 && s[i] == ('0' as u8) && s[i + 1] == ('x' as u8)
            invariant
                0 <= i <= s@.len(),
                strip_0x(s@) == strip_0x(s@.skip(i as int)),
            decreases s@.len() - i,
        {
            proof {
                assert(s@.skip(i as int)[0] == s@[i as int]);
                assert(s@.skip(i as int)[1] == s@[i as int + 1]);
                assert(s@.skip(i as int).drop_first().drop_first() =~= s@.skip(i as int + 2));
            }
            i += 2;
        }
        proof {
            let t = s@.skip(i as int);
            if t.len() >= 2 {
                assert(t[0] == s@[i as int]);
                assert(t[1] == s@[i as int + 1]);
            }
            assert(strip_0x(s@) == t);
        }
        let rest = crate::util::copy_bytes_from(s, i);
        parse_hex_u16(rest.as_slice())
    } else {
        parse_dec_u16(s)
    }
}

/// Parses a register literal: hex digits after any `0x` prefixes, at most
/// 8 bits.  The error carries no source line; the caller knows none.
pub fn parse_register_lit(s: &[u8]) -> (r: Result<u8, ParserError>)
    ensures
        ({
            match spec_parse_reg_lit(s@) {
                Some(n) => r == Ok::<u8, ParserError>(n),
                None => r == Err::<u8, ParserError>(
                    ParserError::InvalidCode(ParseFault::InvalidRegister, 0),
                ),
            }
        }),
{
    let mut i: usize = 0;
    assert(s@.skip(0) =~= s@);
    while s.len() - i >= 2 && s[i] == ('0' as u8) && s[i + 1] == ('x' as u8)
        invariant
            0 <= i <= s@.len(),
            strip_0x(s@) == strip_0x(s@.skip(i as int)),
        decreases s@.len() - i,
    {
        proof {
            assert(s@.skip(i as int)[0] == s@[i as int]);
            assert(s@.skip(i as int)[1] == s@[i as int + 1]);
            assert(s@.skip(i as int).drop_first().drop_first() =~= s@.skip(i as int + 2));
        }
        i += 2;
    }
    proof {
        let t = s@.skip(i as int);
        if t.len() >= 2 {
            assert(t[0] == s@[i as int]);
            assert(t[1] == s@[i as int + 1]);
        }
        assert(strip_0x(s@) == t);
    }
    let rest = crate::util::copy_bytes_from(s, i);
    match parse_hex_u8(rest.as_slice()) {
        Some(n) => Ok(n),
        None => Err(ParserError::InvalidCode(ParseFault::InvalidRegister, 0)),
    }
}

/// Parses a nonempty all-hex string into an 8-bit value.
fn parse_hex_u8(s: &[u8]) -> (r: Option<u8>)
    ensures
        ({
            if s@.len() > 0 && spec_is_hex(s@) && hex_val(s@) <= 0xFF {
                r == Some((hex_val(s@) as u8))
            } else {
                r == None::<u8>
            }
        }),
{
    if s.len() == 0 {
        return None;
    }
    let mut acc: u32 = 0;
    let mut i: usize = 0;
    while i < s.len()
        invariant
            0 <= i <= s@.len(),
            spec_is_hex(s@.take(i as int)),
            acc == hex_val(s@.take(i as int)),
            acc <= 0xFF,
        decreases s@.len() - i,
    {
        let b = s[i];
        let d: u32;
        if ('0' as u8) <= b && b <= ('9' as u8) {
            d = (b - ('0' as u8)) as u32;
        } else if ('a' as u8) <= b && b <= ('f' as u8) {
            d = (b - ('a' as u8)) as u32 + 10;
        } else if ('A' as u8) <= b && b <= ('F' as u8) {
            d = (b - ('A' as u8)) as u32 + 10;
        } else {
            assert(!spec_is_hexd(s@[i as int]));
            assert(!spec_is_hex(s@));
            return None;
        }
        proof {
            assert(s@.take(i as int + 1).drop_last() =~= s@.take(i as int));
        }
        acc = acc * 16 + d;
        i += 1;
        if acc > 0xFF {
            proof {
                lemma_hex_val_mono(s@, i as int, s@.len() as int);
                assert(s@.take(s@.len() as int) =~= s@);
            }
            return None;
        }
    }
    proof {
        assert(s@.take(s@.len() as int) =~= s@);
    }
    Some(acc as u8)
}

/// Parses a signed 16-bit label offset, sign included.
fn parse_i16(s: &[u8]) -> (r: Option<i16>)
    ensures
        r == spec_parse_i16(s@),
{
    if s.len() > 0 && s[0] == ('-' as u8) {
        let d = crate::util::copy_bytes_from(s, 1);
        proof {
            assert(d@ =~= s@.drop_first());
        }
        match parse_dec_u16(d.as_slice()) {
            Some(n) => {
                if n <= 0x8000 {
                    let v: i32 = 0 - (n as i32);
                    Some(v as i16)
                } else {
                    None
                }
            },
            None => None,
        }
    } else {
        let d = if s.len() > 0 && s[0] == ('+' as u8) {
            let t = crate::util::copy_bytes_from(s, 1);
            proof {
                assert(t@ =~= s@.drop_first());
            }
            t
        } else {
            let t = crate::util::copy_bytes_from(s, 0);
            proof {
                assert(t@ =~= s@);
            }
            t
        };
        match parse_dec_u16(d.as_slice()) {
            Some(n) => {
                if n <= 0x7FFF {
                    Some(n as i16)
                } else {
                    None
                }
            },
            None => None,
        }
    }
}

/// The components of a token, as the cursor contracts speak of them.
pub open spec fn info_of(t: Token) -> TokInfo {
    TokInfo { name: t.name, lit: t.literal@, line: t.line, col: t.col }
}

/// The token the cursor pads an exhausted stream with.
pub open spec fn eof_pad() -> TokInfo {
    TokInfo { name: TokenType::EOF, lit: Seq::empty(), line: 0, col: 0 }
}


/// What a fresh parser over `toks` looks like: the cursor reads exactly
/// those tokens (with `EOF` padding beyond them) and the program is one
/// empty region at origin 0 with no labels.
pub open spec fn parser_init_post(toks: Seq<Token>, p: Parser) -> bool {
    &&& forall|j: int| 0 <= j < toks.len() ==> p.tok_at(j) == info_of(toks[j])
    &&& forall|j: int| j >= toks.len() && j >= 0 ==> p.tok_at(j) == eof_pad()
    &&& p.prog.building()
    &&& p.prog.parts@.len() == 1
    &&& p.prog.active().bytes@ == Seq::<u8>::empty()
    &&& p.prog.active().link_map@ == Seq::<(u16, LabelReplace)>::empty()
    &&& p.prog.active().start_pc == 0
    &&& p.prog.active().pc == 0
    &&& p.prog.labels@ == Seq::<(Vec<u8>, u16)>::empty()
}

/// The parser: a two-token window over the token stream, the remaining
/// tokens (held in reverse so the next one is at the back), and the
/// program being built.
pub struct Parser {
    pub rest: Vec<Token>,
    pub cur_tok: Token,
    pub peek_tok: Token,
    pub prog: Program,
}

impl Parser {
    /// The token `i` positions ahead of the cursor: 0 is the current
    /// token, 1 the peeked one.  Past the end of the stream the cursor
    /// reads `EOF` tokens forever.
    pub open spec fn tok_at(self, i: int) -> TokInfo {
        if i <= 0 {
            info_of(self.cur_tok)
        } else if i == 1 {
            info_of(self.peek_tok)
        } else if i - 2 < self.rest@.len() {
            info_of(self.rest@[self.rest@.len() + 1 - i])
        } else {
            eof_pad()
        }
    }

    /// How much of the stream is left: strictly decreases with every
    /// token read until only `EOF` padding remains.
    pub open spec fn measure(self) -> int {
        2 * self.rest@.len() + (if self.cur_tok.name != TokenType::EOF {
            1int
        } else {
            0int
        }) + (if self.peek_tok.name != TokenType::EOF {
            1int
        } else {
            0int
        })
    }

    /// The token window and remaining stream are untouched.
    pub open spec fn same_tokens(self, other: Parser) -> bool {
        &&& other.rest@ == self.rest@
        &&& other.cur_tok == self.cur_tok
        &&& other.peek_tok == self.peek_tok
    }

    /// A parser over `tokens`, with the first two tokens pulled into the
    /// window and a fresh program.
    pub fn new(tokens: Vec<Token>) -> (r: Parser)
        ensures
            parser_init_post(tokens@, r),
    {
        let ghost orig = tokens@;
        let mut input = tokens;
        let mut rest: Vec<Token> = Vec::new();
        proof {
            assert(orig.take(orig.len() as int) =~= orig);
        }
        while input.len() > 0
            invariant
                input@ == orig.take(input@.len() as int),
                rest@.len() + input@.len() == orig.len(),
                forall|i: int|
                    0 <= i < rest@.len() ==> rest@[i] == orig[orig.len() - 1 - i],
            decreases input@.len(),
        {
            let ghost pre = input@;
            let t = match input.pop() {
                Some(t) => t,
                None => {
                    assert(false);
                    Token::simple(TokenType::EOF, 0, 0)
                },
            };
            rest.push(t);
            proof {
                assert(input@ =~= orig.take(input@.len() as int));
            }
        }
        let cur = match rest.pop() {
            Some(t) => t,
            None => Token::simple(TokenType::EOF, 0, 0),
        };
        let peek = match rest.pop() {
            Some(t) => t,
            None => Token::simple(TokenType::EOF, 0, 0),
        };
        let r = Parser { rest, cur_tok: cur, peek_tok: peek, prog: Program::new() };
        proof {
            assert forall|j: int| 0 <= j < orig.len() implies r.tok_at(j) == info_of(
                orig[j],
            ) by {
                if j >= 2 {
                    assert(r.rest@[r.rest@.len() + 1 - j] == orig[j]);
                }
            }
        }
        r
    }

    /// Slides the token window forward by one.
    fn read_token(&mut self)
        ensures
            read_post(*old(self), *final(self)),
    {
        self.cur_tok = self.peek_tok.clone();
        self.peek_tok = match self.rest.pop() {
            Some(t) => t,
            None => Token::simple(TokenType::EOF, 0, 0),
        };
        proof {
            assert forall|j: int| j >= 0 implies #[trigger] self.tok_at(j) == old(self).tok_at(
                j + 1,
            ) by {
                if j >= 2 {
                    if j - 2 < self.rest@.len() {
                        assert(self.rest@[self.rest@.len() + 1 - j] == old(self).rest@[old(
                            self,
                        ).rest@.len() + 1 - (j + 1)]);
                    }
                }
            }
        }
    }

    /// True when the current token has kind `t`.
    fn cur_token_is(&self, t: TokenType) -> (r: bool)
        ensures
            r == (self.tok_at(0).name == t),
    {
        self.cur_tok.name == t
    }

    /// A malformed-code error on the current line.
    fn parse_err(&self, f: ParseFault) -> (r: ParserError)
        ensures
            r == ParserError::InvalidCode(f, self.tok_at(0).line),
    {
        ParserError::InvalidCode(f, self.cur_tok.line)
    }

    /// An expected-token error naming one kind.
    fn token_err(&self, t: TokenType) -> (r: ParserError)
        ensures
            r == ParserError::ExpectedToken(
                ExpectedKind::Kind(t),
                self.tok_at(0).name,
                self.tok_at(0).line,
            ),
    {
        ParserError::ExpectedToken(ExpectedKind::Kind(t), self.cur_tok.name, self.cur_tok.line)
    }

    /// An expected-token error naming a class of operands.
    fn tokens_err(&self, k: ExpectedKind) -> (r: ParserError)
        ensures
            r == ParserError::ExpectedToken(k, self.tok_at(0).name, self.tok_at(0).line),
    {
        ParserError::ExpectedToken(k, self.cur_tok.name, self.cur_tok.line)
    }

    /// Reads the next token and demands it have kind `t`.
    fn expect_token(&mut self, t: TokenType) -> (r: Result<(), ParserError>)
        ensures
            read_post(*old(self), *final(self)),
            r is Ok <==> old(self).tok_at(1).name == t,
            r matches Err(e) ==> e == ParserError::ExpectedToken(
                ExpectedKind::Kind(t),
                old(self).tok_at(1).name,
                old(self).tok_at(1).line,
            ),
    {
        self.read_token();
        if !self.cur_token_is(t) {
            Err(self.token_err(t))
        } else {
            Ok(())
        }
    }
}

/// The stream moved `k` tokens ahead: every cursor position of `post`
/// reads what `pre` read `k` further on.
pub open spec fn shift_n(pre: Parser, post: Parser, k: int) -> bool {
    forall|j: int| j >= 0 ==> #[trigger] post.tok_at(j) == pre.tok_at(j + k)
}

/// What one cursor read does: the window slides one token ahead, the
/// program is untouched, and the stream measure shrinks while a real
/// token was under the cursor.
pub open spec fn read_post(pre: Parser, post: Parser) -> bool {
    &&& post.prog == pre.prog
    &&& shift_n(pre, post, 1)
    &&& post.measure() <= pre.measure()
    &&& (pre.cur_tok.name != TokenType::EOF ==> post.measure() < pre.measure())
}

/// Stream shifts compose.
pub proof fn lemma_shift_trans(a: Parser, b: Parser, c: Parser, k1: int, k2: int)
    requires
        k1 >= 0,
        k2 >= 0,
        shift_n(a, b, k1),
        shift_n(b, c, k2),
    ensures
        shift_n(a, c, k1 + k2),
{
    assert forall|j: int| j >= 0 implies #[trigger] c.tok_at(j) == a.tok_at(j + (k1 + k2)) by {
        assert(c.tok_at(j) == b.tok_at(j + k2));
        assert(b.tok_at(j + k2) == a.tok_at(j + k2 + k1));
    }
}

/// An untouched window is a zero shift.
pub proof fn lemma_same_tokens_shift(a: Parser, b: Parser)
    requires
        a.same_tokens(b),
    ensures
        shift_n(a, b, 0),
{
    assert forall|j: int| j >= 0 implies #[trigger] b.tok_at(j) == a.tok_at(j + 0) by {}
}

/// Where in the active region a pending link recorded now would sit: the
/// write cursor relative to the region origin, plus `pcoffset`, wrapping.
pub open spec fn link_at(p: Program, pcoffset: u16) -> u16 {
    p.spec_pc().wrapping_sub(p.active().start_pc).wrapping_add(pcoffset)
}

/// The first index of `b` in `s` at or after `i`, or 0 when `b` does not
/// occur: the way the operand splitter reads it, an occurrence at index 0
/// counts as no occurrence.
pub open spec fn find0(s: Seq<u8>, b: u8, i: int) -> int
    decreases s.len() - i,
{
    if i < 0 || i >= s.len() {
        0
    } else if s[i] == b {
        i
    } else {
        find0(s, b, i + 1)
    }
}

/// What resolving one operand token yields: a 16-bit value, and possibly
/// a pending link (label bytes and signed offset) when the operand is a
/// symbolic identifier other than `$`.  The value is 0 wherever a link is
/// recorded; `$` resolves at once to the write cursor plus offset.
pub open spec fn addr_result(t: TokInfo, pc: u16) -> Result<
    (u16, Option<(Seq<u8>, i16)>),
    ParserError,
> {
    if t.name == TokenType::NUMBER {
        match spec_parse_u16(t.lit) {
            Some(n) => Ok((n, None)),
            None => Err(ParserError::InvalidCode(ParseFault::InvalidAddress, t.line)),
        }
    } else if t.name == TokenType::STRING {
        if t.lit.len() == 0 {
            Ok((0u16, None))
        } else if t.lit.len() == 1 {
            Ok((t.lit[0] as u16, None))
        } else if t.lit.len() == 2 {
            Ok((((t.lit[0] as u16) * 256 + (t.lit[1] as u16)) as u16, None))
        } else {
            Err(ParserError::InvalidCode(ParseFault::StringTooLong, t.line))
        }
    } else if t.name == TokenType::IDENT {
        let add_i = find0(t.lit, ('+' as u8), 0);
        let sub_i = find0(t.lit, ('-' as u8), 0);
        if add_i > 0 || sub_i > 0 {
            let ind = if add_i > 0 {
                add_i
            } else {
                sub_i
            };
            let label = t.lit.take(ind);
            let offs = t.lit.skip(ind);
            match spec_parse_i16(offs) {
                None => Err(ParserError::InvalidCode(ParseFault::InvalidAddressOffset, t.line)),
                Some(o) => {
                    if label == seq![('$' as u8)] {
                        Ok((pc.wrapping_add_signed(o), None))
                    } else {
                        Ok((0u16, Some((label, o))))
                    }
                },
            }
        } else {
            if t.lit == seq![('$' as u8)] {
                Ok((pc, None))
            } else {
                Ok((0u16, Some((t.lit, 0i16))))
            }
        }
    } else {
        Err(ParserError::ExpectedToken(ExpectedKind::AddressOperand, t.name, t.line))
    }
}

/// The first index of `b` in `s`, with absence reported as 0.
fn find0_byte(s: &[u8], b: u8) -> (r: usize)
    ensures
        r == find0(s@, b, 0),
{
    let mut i: usize = 0;
    while i < s.len()
        invariant
            0 <= i <= s@.len(),
            find0(s@, b, 0) == find0(s@, b, i as int),
        decreases s@.len() - i,
    {
        if s[i] == b {
            return i;
        }
        i += 1;
    }
    0
}

impl Parser {
    /// Resolves one operand token to a 16-bit value: a numeric literal, a
    /// short string read as big-endian bytes, the current write cursor
    /// `$` (plus offset), or a symbolic label, which records a pending
    /// link `pcoffset` bytes ahead and stands in a zero placeholder.
    pub fn parse_address(&mut self, pcoffset: u16) -> (r: Result<u16, ParserError>)
        requires
            old(self).prog.building(),
            old(self).tok_at(0).name == TokenType::NUMBER || old(self).tok_at(0).name
                == TokenType::STRING || old(self).tok_at(0).name == TokenType::IDENT,
        ensures
            final(self).prog.building(),
            old(self).same_tokens(*final(self)),
            ({
                match addr_result(old(self).tok_at(0), old(self).prog.spec_pc()) {
                    Err(e) => r == Err::<u16, ParserError>(e) && final(self).prog == old(
                        self,
                    ).prog,
                    Ok((v, link)) => {
                        match link {
                            None => r == Ok::<u16, ParserError>(v) && final(self).prog == old(
                                self,
                            ).prog,
                            Some((lbl, off)) => r == Ok::<u16, ParserError>(v) && linked(
                                old(self).prog,
                                final(self).prog,
                                link_at(old(self).prog, pcoffset),
                                lbl,
                                off,
                            ),
                        }
                    },
                }
            }),
    {
        if self.cur_token_is(TokenType::NUMBER) {
            match parse_u16(self.cur_tok.literal.as_slice()) {
                Some(n) => Ok(n),
                None => Err(self.parse_err(ParseFault::InvalidAddress)),
            }
        } else if self.cur_token_is(TokenType::STRING) {
            if self.cur_tok.literal.len() == 0 {
                Ok(0)
            } else if self.cur_tok.literal.len() == 1 {
                Ok(self.cur_tok.literal[0] as u16)
            } else if self.cur_tok.literal.len() == 2 {
                Ok((self.cur_tok.literal[0] as u16) * 256 + (self.cur_tok.literal[1] as u16))
            } else {
                Err(self.parse_err(ParseFault::StringTooLong))
            }
        } else {
            let lit = self.cur_tok.literal.as_slice();
            let add_index = find0_byte(lit, '+' as u8);
            let sub_index = find0_byte(lit, '-' as u8);
            let label: Vec<u8>;
            let offset: i16;
            if add_index > 0 || sub_index > 0 {
                let ind = if add_index > 0 {
                    add_index
                } else {
                    sub_index
                };
                proof {
                    assert(find0(lit@, ('+' as u8), 0) == 0 || find0(lit@, ('+' as u8), 0)
                        < lit@.len()) by {
                        lemma_find0_range(lit@, ('+' as u8), 0);
                    }
                    assert(find0(lit@, ('-' as u8), 0) == 0 || find0(lit@, ('-' as u8), 0)
                        < lit@.len()) by {
                        lemma_find0_range(lit@, ('-' as u8), 0);
                    }
                }
                let head = crate::util::copy_bytes_prefix(lit, ind);
                let tail = crate::util::copy_bytes_from(lit, ind);
                match parse_i16(tail.as_slice()) {
                    Some(o) => {
                        label = head;
                        offset = o;
                    },
                    None => {
                        return Err(self.parse_err(ParseFault::InvalidAddressOffset));
                    },
                }
            } else {
                label = crate::util::copy_bytes(lit);
                offset = 0;
            }
            let dollar = [('$' as u8)];
            proof {
                assert(dollar@ =~= seq![('$' as u8)]);
            }
            if crate::util::bytes_eq(label.as_slice(), dollar.as_slice()) {
                let pcv = self.prog.pc();
                Ok(pcv.wrapping_add_signed(offset))
            } else {
                self.prog.add_link(pcoffset, label.as_slice(), offset);
                Ok(0)
            }
        }
    }

    /// Reads the current token as a register operand: it must be a
    /// `REGISTER` token naming one of the sixteen register encodings 0-13.
    pub fn parse_register(&self) -> (r: Result<u8, ParserError>)
        ensures
            r == spec_parse_register(self.tok_at(0)),
            r matches Ok(n) ==> n <= 13,
    {
        if !self.cur_token_is(TokenType::REGISTER) {
            return Err(self.token_err(TokenType::REGISTER));
        }
        match parse_register_lit(self.cur_tok.literal.as_slice()) {
            Ok(n) => {
                if n > 13 {
                    Err(self.parse_err(ParseFault::InvalidRegister))
                } else {
                    Ok(n)
                }
            },
            Err(_) => Err(self.parse_err(ParseFault::InvalidRegister)),
        }
    }
}

/// What reading a register operand from token `t` yields.
pub open spec fn spec_parse_register(t: TokInfo) -> Result<u8, ParserError> {
    if t.name != TokenType::REGISTER {
        Err(ParserError::ExpectedToken(ExpectedKind::Kind(TokenType::REGISTER), t.name, t.line))
    } else {
        match spec_parse_reg_lit(t.lit) {
            Some(n) => {
                if n > 13 {
                    Err(ParserError::InvalidCode(ParseFault::InvalidRegister, t.line))
                } else {
                    Ok(n)
                }
            },
            None => Err(ParserError::InvalidCode(ParseFault::InvalidRegister, t.line)),
        }
    }
}

/// `find0` answers 0 or an index inside the string.
proof fn lemma_find0_range(s: Seq<u8>, b: u8, i: int)
    requires
        i >= 0,
    ensures
        find0(s, b, i) == 0 || (i <= find0(s, b, i) < s.len() && s[find0(s, b, i)] == b),
    decreases s.len() - i,
{
    if i < s.len() && s[i] != b {
        lemma_find0_range(s, b, i + 1);
    }
}

/// Attaches the position a pending link would be recorded at: the active
/// region's write cursor relative to its origin, plus `pcoff`.
pub open spec fn with_at(pre: Program, pcoff: u16, l: Option<(Seq<u8>, i16)>) -> Option<
    (u16, Seq<u8>, i16),
> {
    match l {
        None => None,
        Some((lbl, off)) => Some((link_at(pre, pcoff), lbl, off)),
    }
}

/// `post` is `pre` after one operand resolution and one emission: the
/// pending link recorded (if the operand was symbolic), then `bytes`
/// appended to the active region.
pub open spec fn emitted(
    pre: Program,
    post: Program,
    link: Option<(u16, Seq<u8>, i16)>,
    bytes: Seq<u8>,
) -> bool {
    match link {
        None => appended(pre, post, bytes),
        Some((at, lbl, off)) => exists|mid: Program|
            #![all_triggers]
            linked(pre, mid, at, lbl, off) && appended(mid, post, bytes),
    }
}

impl Parser {
    /// Records the current write cursor under the label the current
    /// token carries.
    pub(crate) fn make_label(&mut self) -> (r: Result<(), ParserError>)
        requires
            old(self).prog.building(),
        ensures
            make_label_post(*old(self), *final(self), r),
    {
        self.prog.add_label(self.cur_tok.literal.as_slice());
        proof {
            lemma_same_tokens_shift(*old(self), *self);
        }
        Ok(())
    }

    /// `RMB`: reserves the given number of zero bytes in place.
    pub(crate) fn ins_rmb(&mut self) -> (r: Result<(), ParserError>)
        requires
            old(self).prog.building(),
        ensures
            ins_rmb_post(*old(self), *final(self), r),
    {
        self.read_token();
        if !self.cur_token_is(TokenType::NUMBER) {
            return Err(self.token_err(TokenType::NUMBER));
        }
        let ghost g1 = *self;
        match parse_u16(self.cur_tok.literal.as_slice()) {
            Some(val) => {
                let mut buf: Vec<u8> = Vec::new();
                let mut i: usize = 0;
                while i < val as usize
                    invariant
                        0 <= i <= val as usize,
                        buf@ =~= Seq::new(i as nat, |k: int| 0u8),
                    decreases val as usize - i,
                {
                    buf.push(0);
                    proof {
                        assert(buf@ =~= Seq::new((i + 1) as nat, |k: int| 0u8));
                    }
                    i += 1;
                }
                self.prog.append_code(buf.as_slice());
                proof {
                    lemma_same_tokens_shift(g1, *self);
                    lemma_shift_trans(*old(self), g1, *self, 1, 0);
                }
                Ok(())
            },
            None => Err(self.parse_err(ParseFault::InvalidNumber)),
        }
    }

    /// `ORG`: opens a new code region at the given origin and makes it
    /// the active write target.
    pub(crate) fn ins_org(&mut self) -> (r: Result<(), ParserError>)
        requires
            old(self).prog.building(),
        ensures
            ins_org_post(*old(self), *final(self), r),
    {
        self.read_token();
        if !self.cur_token_is(TokenType::NUMBER) {
            return Err(self.token_err(TokenType::NUMBER));
        }
        let ghost g1 = *self;
        match parse_u16(self.cur_tok.literal.as_slice()) {
            Some(val) => {
                self.prog.add_code_part(val);
                proof {
                    lemma_same_tokens_shift(g1, *self);
                    lemma_shift_trans(*old(self), g1, *self, 1, 0);
                }
                Ok(())
            },
            None => Err(self.parse_err(ParseFault::InvalidNumber)),
        }
    }

    /// An instruction with no operands: emits the bare opcode and
    /// demands the end of the line.
    pub(crate) fn parse_no_args(&mut self, c: OpCode) -> (r: Result<(), ParserError>)
        requires
            old(self).prog.building(),
        ensures
            parse_no_args_post(*old(self), *final(self), c, r),
    {
        let arr = [c.to_u8()];
        proof {
            assert(arr@ =~= seq![spec_opcode_value(c)]);
        }
        self.prog.append_code(arr.as_slice());
        let ghost g1 = *self;
        let r = self.expect_token(TokenType::END_INST);
        proof {
            lemma_same_tokens_shift(*old(self), g1);
            lemma_shift_trans(*old(self), g1, *self, 0, 1);
        }
        r
    }

    /// An instruction taking one address operand and no line terminator
    /// check: the absolute jump.
    pub(crate) fn parse_num(&mut self, c: OpCode) -> (r: Result<(), ParserError>)
        requires
            old(self).prog.building(),
        ensures
            parse_num_post(*old(self), *final(self), c, r),
    {
        self.read_token();
        let ghost g1 = *self;
        if !(self.cur_token_is(TokenType::NUMBER) || self.cur_token_is(TokenType::STRING)
            || self.cur_token_is(TokenType::IDENT)) {
            return Err(self.tokens_err(ExpectedKind::AddressOperand));
        }
        let val = match self.parse_address(1) {
            Ok(v) => v,
            Err(e) => {
                proof {
                    lemma_same_tokens_shift(g1, *self);
                    lemma_shift_trans(*old(self), g1, *self, 1, 0);
                }
                return Err(e);
            },
        };
        let ghost mid1 = self.prog;
        let arr = [c.to_u8(), (val / 256) as u8, (val % 256) as u8];
        proof {
            assert(arr@ =~= seq![spec_opcode_value(c), hi8(val), lo8(val)]);
        }
        self.prog.append_code(arr.as_slice());
        proof {
            assert(appended(mid1, self.prog, seq![spec_opcode_value(c), hi8(val), lo8(val)]));
            lemma_same_tokens_shift(g1, *self);
            lemma_shift_trans(*old(self), g1, *self, 1, 0);
        }
        Ok(())
    }

    /// An instruction taking one register operand: push and pop.
    pub(crate) fn parse_reg(&mut self, c: OpCode) -> (r: Result<(), ParserError>)
        requires
            old(self).prog.building(),
        ensures
            parse_reg_post(*old(self), *final(self), c, r),
    {
        self.read_token();
        let ghost g1 = *self;
        let reg1 = match self.parse_register() {
            Ok(n) => n,
            Err(e) => {
                return Err(e);
            },
        };
        let arr = [c.to_u8(), reg1];
        proof {
            assert(arr@ =~= seq![spec_opcode_value(c), reg1]);
        }
        self.prog.append_code(arr.as_slice());
        proof {
            lemma_same_tokens_shift(g1, *self);
            lemma_shift_trans(*old(self), g1, *self, 1, 0);
        }
        Ok(())
    }

    /// An instruction taking two register operands: the transfer.
    pub(crate) fn parse_reg_reg(&mut self, c: OpCode) -> (r: Result<(), ParserError>)
        requires
            old(self).prog.building(),
        ensures
            parse_reg_reg_post(*old(self), *final(self), c, r),
    {
        self.read_token();
        let ghost g1 = *self;
        let reg1 = match self.parse_register() {
            Ok(n) => n,
            Err(e) => {
                return Err(e);
            },
        };
        self.read_token();
        let ghost g2 = *self;
        let reg2 = match self.parse_register() {
            Ok(n) => n,
            Err(e) => {
                return Err(e);
            },
        };
        let arr = [c.to_u8(), reg1, reg2];
        proof {
            assert(arr@ =~= seq![spec_opcode_value(c), reg1, reg2]);
        }
        self.prog.append_code(arr.as_slice());
        proof {
            lemma_shift_trans(*old(self), g1, g2, 1, 1);
            lemma_same_tokens_shift(g2, *self);
            lemma_shift_trans(*old(self), g2, *self, 2, 0);
        }
        Ok(())
    }

    /// An instruction taking a register and then an address operand: the
    /// conditional jump.
    pub(crate) fn parse_reg_num(&mut self, c: OpCode) -> (r: Result<(), ParserError>)
        requires
            old(self).prog.building(),
        ensures
            parse_reg_num_post(*old(self), *final(self), c, r),
    {
        self.read_token();
        let ghost g1 = *self;
        let reg1 = match self.parse_register() {
            Ok(n) => n,
            Err(e) => {
                return Err(e);
            },
        };
        self.read_token();
        let ghost g2 = *self;
        if !(self.cur_token_is(TokenType::NUMBER) || self.cur_token_is(TokenType::STRING)
            || self.cur_token_is(TokenType::IDENT)) {
            return Err(self.tokens_err(ExpectedKind::AddressOperand));
        }
        let val = match self.parse_address(2) {
            Ok(v) => v,
            Err(e) => {
                return Err(e);
            },
        };
        let arr = [c.to_u8(), reg1, (val / 256) as u8, (val % 256) as u8];
        proof {
            assert(arr@ =~= seq![spec_opcode_value(c), reg1, hi8(val), lo8(val)]);
        }
        self.prog.append_code(arr.as_slice());
        proof {
            lemma_shift_trans(*old(self), g1, g2, 1, 1);
            lemma_same_tokens_shift(g2, *self);
            lemma_shift_trans(*old(self), g2, *self, 2, 0);
        }
        Ok(())
    }

    /// A rotate instruction: a register, an immediate marker read with an
    /// extra token in between (as the grammar has it), and a byte-sized
    /// place count.
    pub(crate) fn parse_reg_half_num(&mut self, c: OpCode) -> (r: Result<(), ParserError>)
        requires
            old(self).prog.building(),
        ensures
            parse_reg_half_num_post(*old(self), *final(self), c, r),
    {
        self.read_token();
        let ghost g1 = *self;
        let reg1 = match self.parse_register() {
            Ok(n) => n,
            Err(e) => {
                return Err(e);
            },
        };
        self.read_token();
        let ghost g2 = *self;
        match self.expect_token(TokenType::IMMEDIATE) {
            Ok(_) => (),
            Err(e) => {
                return Err(e);
            },
        }
        let ghost g3 = *self;
        self.read_token();
        let ghost g4 = *self;
        if !(self.cur_token_is(TokenType::NUMBER) || self.cur_token_is(TokenType::STRING)
            || self.cur_token_is(TokenType::IDENT)) {
            return Err(self.tokens_err(ExpectedKind::AddressOperand));
        }
        let val = match self.parse_address(2) {
            Ok(v) => v,
            Err(e) => {
                return Err(e);
            },
        };
        let ghost mid1 = self.prog;
        if val > 255 {
            proof {
                assert(appended(mid1, self.prog, Seq::<u8>::empty())) by {
                    assert(self.prog.active().bytes@ =~= mid1.active().bytes@
                        + Seq::<u8>::empty());
                }
            }
            Err(self.parse_err(ParseFault::RotateCount))
        } else {
            let arr = [c.to_u8(), reg1, val as u8];
            proof {
                assert(arr@ =~= seq![spec_opcode_value(c), reg1, val as u8]);
            }
            self.prog.append_code(arr.as_slice());
            proof {
                lemma_shift_trans(*old(self), g1, g2, 1, 1);
                lemma_shift_trans(*old(self), g2, g3, 2, 1);
                lemma_shift_trans(*old(self), g3, g4, 3, 1);
                lemma_same_tokens_shift(g4, *self);
                lemma_shift_trans(*old(self), g4, *self, 4, 0);
            }
            Ok(())
        }
    }
}

impl Parser {
    /// An instruction with a destination register and an immediate,
    /// address or register operand: load and the arithmetic family.
    pub(crate) fn parse_inst(&mut self, imm: OpCode, addr: OpCode, reg: OpCode) -> (r: Result<
        (),
        ParserError,
    >)
        requires
            old(self).prog.building(),
        ensures
            parse_inst_post(*old(self), *final(self), imm, addr, reg, r),
    {
        self.read_token();
        let ghost g1 = *self;
        let dest = match self.parse_register() {
            Ok(n) => n,
            Err(e) => {
                return Err(e);
            },
        };
        self.read_token();
        let ghost g2 = *self;
        let ghost mut g3 = *self;
        proof {
            assert(self.tok_at(0) == old(self).tok_at(2));
            assert(self.tok_at(1) == old(self).tok_at(3));
        }
        if self.cur_token_is(TokenType::NUMBER) || self.cur_token_is(TokenType::IDENT) {
            let val = match self.parse_address(2) {
                Ok(v) => v,
                Err(e) => {
                    return Err(e);
                },
            };
            let arr = [addr.to_u8(), dest, (val / 256) as u8, (val % 256) as u8];
            proof {
                assert(arr@ =~= seq![spec_opcode_value(addr), dest, hi8(val), lo8(val)]);
            }
            self.prog.append_code(arr.as_slice());
        } else if self.cur_token_is(TokenType::IMMEDIATE) {
            self.read_token();
            proof {
                g3 = *self;
                assert(self.tok_at(0) == old(self).tok_at(3));
                assert(self.tok_at(1) == old(self).tok_at(4));
            }
            if !(self.cur_token_is(TokenType::NUMBER) || self.cur_token_is(TokenType::STRING)
                || self.cur_token_is(TokenType::IDENT)) {
                return Err(self.tokens_err(ExpectedKind::AddressOperand));
            }
            let val = match self.parse_address(2) {
                Ok(v) => v,
                Err(e) => {
                    return Err(e);
                },
            };
            let arr = [imm.to_u8(), dest, (val / 256) as u8, (val % 256) as u8];
            proof {
                assert(arr@ =~= seq![spec_opcode_value(imm), dest, hi8(val), lo8(val)]);
            }
            self.prog.append_code(arr.as_slice());
        } else if self.cur_token_is(TokenType::REGISTER) {
            let src = match self.parse_register() {
                Ok(n) => n,
                Err(e) => {
                    return Err(e);
                },
            };
            let arr = [reg.to_u8(), dest, src];
            proof {
                assert(arr@ =~= seq![spec_opcode_value(reg), dest, src]);
            }
            self.prog.append_code(arr.as_slice());
        } else {
            return Err(self.tokens_err(ExpectedKind::AnyOperand));
        }
        let ghost gpre = *self;
        let r = self.expect_token(TokenType::END_INST);
        proof {
            lemma_shift_trans(*old(self), g1, g2, 1, 1);
            if old(self).tok_at(2).name == TokenType::IMMEDIATE {
                lemma_shift_trans(*old(self), g2, g3, 2, 1);
                lemma_same_tokens_shift(g3, gpre);
                lemma_shift_trans(*old(self), g3, gpre, 3, 0);
                lemma_shift_trans(*old(self), gpre, *self, 3, 1);
            } else {
                lemma_same_tokens_shift(g2, gpre);
                lemma_shift_trans(*old(self), g2, gpre, 2, 0);
                lemma_shift_trans(*old(self), gpre, *self, 2, 1);
            }
        }
        r
    }

    /// An instruction with no destination register but an immediate,
    /// address or register operand: the stack-pointer load.
    pub(crate) fn parse_inst_no_dest(&mut self, imm: OpCode, addr: OpCode, reg: OpCode) -> (r:
        Result<(), ParserError>)
        requires
            old(self).prog.building(),
        ensures
            parse_inst_no_dest_post(*old(self), *final(self), imm, addr, reg, r),
    {
        self.read_token();
        let ghost g1 = *self;
        let ghost mut g2 = *self;
        proof {
            assert(self.tok_at(0) == old(self).tok_at(1));
            assert(self.tok_at(1) == old(self).tok_at(2));
        }
        if self.cur_token_is(TokenType::NUMBER) || self.cur_token_is(TokenType::IDENT) {
            let val = match self.parse_address(1) {
                Ok(v) => v,
                Err(e) => {
                    return Err(e);
                },
            };
            let arr = [addr.to_u8(), (val / 256) as u8, (val % 256) as u8];
            proof {
                assert(arr@ =~= seq![spec_opcode_value(addr), hi8(val), lo8(val)]);
            }
            self.prog.append_code(arr.as_slice());
        } else if self.cur_token_is(TokenType::IMMEDIATE) {
            self.read_token();
            proof {
                g2 = *self;
                assert(self.tok_at(0) == old(self).tok_at(2));
                assert(self.tok_at(1) == old(self).tok_at(3));
            }
            if !(self.cur_token_is(TokenType::NUMBER) || self.cur_token_is(TokenType::STRING)
                || self.cur_token_is(TokenType::IDENT)) {
                return Err(self.tokens_err(ExpectedKind::AddressOperand));
            }
            let val = match self.parse_address(1) {
                Ok(v) => v,
                Err(e) => {
                    return Err(e);
                },
            };
            let arr = [imm.to_u8(), (val / 256) as u8, (val % 256) as u8];
            proof {
                assert(arr@ =~= seq![spec_opcode_value(imm), hi8(val), lo8(val)]);
            }
            self.prog.append_code(arr.as_slice());
        } else if self.cur_token_is(TokenType::REGISTER) {
            let src = match self.parse_register() {
                Ok(n) => n,
                Err(e) => {
                    return Err(e);
                },
            };
            let arr = [reg.to_u8(), src];
            proof {
                assert(arr@ =~= seq![spec_opcode_value(reg), src]);
            }
            self.prog.append_code(arr.as_slice());
        } else {
            return Err(self.tokens_err(ExpectedKind::AnyOperand));
        }
        let ghost gpre = *self;
        let r = self.expect_token(TokenType::END_INST);
        proof {
            if old(self).tok_at(1).name == TokenType::IMMEDIATE {
                lemma_shift_trans(*old(self), g1, g2, 1, 1);
                lemma_same_tokens_shift(g2, gpre);
                lemma_shift_trans(*old(self), g2, gpre, 2, 0);
                lemma_shift_trans(*old(self), gpre, *self, 2, 1);
            } else {
                lemma_same_tokens_shift(g1, gpre);
                lemma_shift_trans(*old(self), g1, gpre, 1, 0);
                lemma_shift_trans(*old(self), gpre, *self, 1, 1);
            }
        }
        r
    }

    /// An instruction with no destination register and no immediate
    /// form: the call.
    pub(crate) fn parse_inst_no_imm_no_dest(&mut self, addr: OpCode, reg: OpCode) -> (r: Result<
        (),
        ParserError,
    >)
        requires
            old(self).prog.building(),
        ensures
            parse_inst_no_imm_no_dest_post(*old(self), *final(self), addr, reg, r),
    {
        self.read_token();
        let ghost g1 = *self;
        proof {
            assert(self.tok_at(0) == old(self).tok_at(1));
            assert(self.tok_at(1) == old(self).tok_at(2));
        }
        if self.cur_token_is(TokenType::NUMBER) || self.cur_token_is(TokenType::IDENT) {
            let val = match self.parse_address(1) {
                Ok(v) => v,
                Err(e) => {
                    return Err(e);
                },
            };
            let arr = [addr.to_u8(), (val / 256) as u8, (val % 256) as u8];
            proof {
                assert(arr@ =~= seq![spec_opcode_value(addr), hi8(val), lo8(val)]);
            }
            self.prog.append_code(arr.as_slice());
        } else if self.cur_token_is(TokenType::REGISTER) {
            let src = match self.parse_register() {
                Ok(n) => n,
                Err(e) => {
                    return Err(e);
                },
            };
            let arr = [reg.to_u8(), src];
            proof {
                assert(arr@ =~= seq![spec_opcode_value(reg), src]);
            }
            self.prog.append_code(arr.as_slice());
        } else {
            return Err(self.tokens_err(ExpectedKind::AnyOperandNoImmediate));
        }
        let ghost gpre = *self;
        let r = self.expect_token(TokenType::END_INST);
        proof {
            lemma_same_tokens_shift(g1, gpre);
            lemma_shift_trans(*old(self), g1, gpre, 1, 0);
            lemma_shift_trans(*old(self), gpre, *self, 1, 1);
        }
        r
    }

    /// An instruction with a destination register and no immediate form:
    /// the store.
    pub(crate) fn parse_inst_no_imm(&mut self, addr: OpCode, reg: OpCode) -> (r: Result<
        (),
        ParserError,
    >)
        requires
            old(self).prog.building(),
        ensures
            parse_inst_no_imm_post(*old(self), *final(self), addr, reg, r),
    {
        self.read_token();
        let ghost g1 = *self;
        let dest = match self.parse_register() {
            Ok(n) => n,
            Err(e) => {
                return Err(e);
            },
        };
        self.read_token();
        let ghost g2 = *self;
        proof {
            assert(self.tok_at(0) == old(self).tok_at(2));
            assert(self.tok_at(1) == old(self).tok_at(3));
        }
        if self.cur_token_is(TokenType::NUMBER) || self.cur_token_is(TokenType::IDENT) {
            let val = match self.parse_address(2) {
                Ok(v) => v,
                Err(e) => {
                    return Err(e);
                },
            };
            let arr = [addr.to_u8(), dest, (val / 256) as u8, (val % 256) as u8];
            proof {
                assert(arr@ =~= seq![spec_opcode_value(addr), dest, hi8(val), lo8(val)]);
            }
            self.prog.append_code(arr.as_slice());
        } else if self.cur_token_is(TokenType::REGISTER) {
            let src = match self.parse_register() {
                Ok(n) => n,
                Err(e) => {
                    return Err(e);
                },
            };
            let arr = [reg.to_u8(), dest, src];
            proof {
                assert(arr@ =~= seq![spec_opcode_value(reg), dest, src]);
            }
            self.prog.append_code(arr.as_slice());
        } else {
            return Err(self.tokens_err(ExpectedKind::AnyOperandNoImmediate));
        }
        let ghost gpre = *self;
        let r = self.expect_token(TokenType::END_INST);
        proof {
            lemma_shift_trans(*old(self), g1, g2, 1, 1);
            lemma_same_tokens_shift(g2, gpre);
            lemma_shift_trans(*old(self), g2, gpre, 2, 0);
            lemma_shift_trans(*old(self), gpre, *self, 2, 1);
        }
        r
    }
}

impl Parser {
    /// How many tokens the parser physically holds (window included);
    /// past this the cursor reads padding.
    pub open spec fn phys_len(self) -> int {
        self.rest@.len() as int + 2
    }
}

/// A non-padding token lies within the physical stream.
proof fn lemma_tok_at_phys(p: Parser, j: int)
    requires
        j >= 0,
        p.tok_at(j).name != TokenType::EOF,
    ensures
        j < p.phys_len(),
{
}

/// The bytes one `FCB` operand contributes: a string's bytes verbatim, or
/// one byte from a numeric literal no larger than 255.
pub open spec fn fcb_item(t: TokInfo) -> Result<Seq<u8>, ParserError> {
    if t.name == TokenType::STRING {
        Ok(t.lit)
    } else if t.name == TokenType::NUMBER {
        match spec_parse_u16(t.lit) {
            Some(v) => {
                if v <= 255 {
                    Ok(seq![(v as u8)])
                } else {
                    Err(ParserError::InvalidCode(ParseFault::InvalidByte, t.line))
                }
            },
            None => Err(ParserError::InvalidCode(ParseFault::InvalidByte, t.line)),
        }
    } else {
        Err(ParserError::InvalidCode(ParseFault::FcbOperand, t.line))
    }
}

/// What the `FCB` operand list starting at cursor position `k` of `base`
/// contributes: all the operands' bytes in order, and how the directive
/// ends.  Operands are separated by commas and the list ends at the end
/// of the line; the bytes of the operands before a fault still count,
/// since they were already emitted when the fault is found.  The last
/// component counts the tokens the list consumes when it is well formed.
pub open spec fn fcb_run(base: Parser, k: int) -> (Seq<u8>, Result<(), ParserError>, nat)
    decreases base.phys_len() + 2 - k,
{
    match fcb_item(base.tok_at(k)) {
        Err(e) => (Seq::empty(), Err(e), 0nat),
        Ok(bs) => {
            let sep = base.tok_at(k + 1);
            if sep.name == TokenType::END_INST {
                (bs, Ok(()), 1nat)
            } else if sep.name != TokenType::COMMA {
                (
                    bs,
                    Err(
                        ParserError::ExpectedToken(
                            ExpectedKind::Kind(TokenType::COMMA),
                            sep.name,
                            sep.line,
                        ),
                    ),
                    1nat,
                )
            } else if 0 <= k && k < base.phys_len() {
                let r2 = fcb_run(base, k + 2);
                (bs + r2.0, r2.1, 2 + r2.2)
            } else {
                (bs, Ok(()), 1nat)
            }
        },
    }
}

/// What the `FDB` operand list starting at cursor position `k`
/// contributes, given the write cursor `pc` and its offset `rel` from
/// the region origin: two big-endian bytes per operand, plus a pending
/// link for each symbolic operand, recorded at the operand's own
/// position.  Bare strings are rejected.
pub open spec fn fdb_run(base: Parser, k: int, pc: u16, rel: u16) -> (
    Seq<u8>,
    Seq<(u16, Seq<u8>, i16)>,
    Result<(), ParserError>,
    nat,
)
    decreases base.phys_len() + 2 - k,
{
    let t = base.tok_at(k);
    if t.name == TokenType::STRING {
        (
            Seq::empty(),
            Seq::empty(),
            Err(ParserError::InvalidCode(ParseFault::FdbString, t.line)),
            0nat,
        )
    } else {
        match addr_result(t, pc) {
            Err(e) => (Seq::empty(), Seq::empty(), Err(e), 0nat),
            Ok((v, l)) => {
                let bytes0 = seq![hi8(v), lo8(v)];
                let links0: Seq<(u16, Seq<u8>, i16)> = match l {
                    None => Seq::empty(),
                    Some((lbl, off)) => seq![(rel, lbl, off)],
                };
                let sep = base.tok_at(k + 1);
                if sep.name == TokenType::END_INST {
                    (bytes0, links0, Ok(()), 1nat)
                } else if sep.name != TokenType::COMMA {
                    (
                        bytes0,
                        links0,
                        Err(
                            ParserError::ExpectedToken(
                                ExpectedKind::Kind(TokenType::COMMA),
                                sep.name,
                                sep.line,
                            ),
                        ),
                        1nat,
                    )
                } else if 0 <= k && k < base.phys_len() {
                    let r2 = fdb_run(base, k + 2, pc.wrapping_add(2), rel.wrapping_add(2));
                    (bytes0 + r2.0, links0 + r2.1, r2.2, 2 + r2.3)
                } else {
                    (bytes0, links0, Ok(()), 1nat)
                }
            },
        }
    }
}


/// What one statement dispatch does, by the mnemonic under the cursor:
/// each instruction or directive keeps the contract of its encoder, and
/// a token no statement starts with is rejected in place.
pub open spec fn stmt_post(pre: Parser, post: Parser, r: Result<(), ParserError>) -> bool {
    match pre.tok_at(0).name {
        TokenType::LOAD => parse_inst_post(pre, post, OpCode::LOADI, OpCode::LOADA, OpCode::LOADR, r),
        TokenType::STR => parse_inst_no_imm_post(pre, post, OpCode::STRA, OpCode::STRR, r),
        TokenType::XFER => parse_reg_reg_post(pre, post, OpCode::XFER, r),
        TokenType::ADD => parse_inst_post(pre, post, OpCode::ADDI, OpCode::ADDA, OpCode::ADDR, r),
        TokenType::OR => parse_inst_post(pre, post, OpCode::ORI, OpCode::ORA, OpCode::ORR, r),
        TokenType::AND => parse_inst_post(pre, post, OpCode::ANDI, OpCode::ANDA, OpCode::ANDR, r),
        TokenType::XOR => parse_inst_post(pre, post, OpCode::XORI, OpCode::XORA, OpCode::XORR, r),
        TokenType::ROTR => parse_reg_half_num_post(pre, post, OpCode::ROTR, r),
        TokenType::ROTL => parse_reg_half_num_post(pre, post, OpCode::ROTL, r),
        TokenType::PUSH => parse_reg_post(pre, post, OpCode::PUSH, r),
        TokenType::POP => parse_reg_post(pre, post, OpCode::POP, r),
        TokenType::CALL => parse_inst_no_imm_no_dest_post(pre, post, OpCode::CALLA, OpCode::CALLR, r),
        TokenType::JMP => parse_reg_num_post(pre, post, OpCode::JMP, r),
        TokenType::JMPA => parse_num_post(pre, post, OpCode::JMPA, r),
        TokenType::LDSP => parse_inst_no_dest_post(pre, post, OpCode::LDSPI, OpCode::LDSPA, OpCode::LDSPR, r),
        TokenType::HALT => parse_no_args_post(pre, post, OpCode::HALT, r),
        TokenType::NOOP => parse_no_args_post(pre, post, OpCode::NOOP, r),
        TokenType::RTN => parse_no_args_post(pre, post, OpCode::RTN, r),
        TokenType::DEBUG => parse_no_args_post(pre, post, OpCode::DEBUG, r),
        TokenType::LABEL => make_label_post(pre, post, r),
        TokenType::RMB => ins_rmb_post(pre, post, r),
        TokenType::ORG => ins_org_post(pre, post, r),
        TokenType::FCB => raw_fcb_post(pre, post, r),
        TokenType::FDB => raw_fdb_post(pre, post, r),
        _ => r == Err::<(), ParserError>(
            ParserError::InvalidCode(ParseFault::UnknownToken, pre.tok_at(0).line),
        ) && post == pre,
    }
}

/// One step of the parse: an empty line or comment is skipped, or a
/// statement is encoded successfully and the cursor moves to what
/// follows it.
pub open spec fn chain_step(a: Parser, b: Parser) -> bool {
    if a.tok_at(0).name == TokenType::EOF {
        false
    } else if a.tok_at(0).name == TokenType::END_INST || a.tok_at(0).name == TokenType::COMMENT {
        read_post(a, b)
    } else {
        exists|mid: Parser, rr: Result<(), ParserError>|
            #![all_triggers]
            stmt_post(a, mid, rr) && rr is Ok && read_post(mid, b)
    }
}

/// The statement under the cursor fails with exactly the error `e`.
pub open spec fn stmt_fails(p: Parser, e: ParserError) -> bool {
    &&& p.tok_at(0).name != TokenType::EOF
    &&& p.tok_at(0).name != TokenType::END_INST
    &&& p.tok_at(0).name != TokenType::COMMENT
    &&& exists|post: Parser|
        #![all_triggers]
        stmt_post(p, post, Err(e))
}

/// `ps` records a parse from `p0`: the cursor states at the head of the
/// driver loop, each reached from the one before by skipping a separator
/// or encoding one statement.
pub open spec fn parse_chain(p0: Parser, ps: Seq<Parser>) -> bool {
    &&& ps.len() >= 1
    &&& ps[0] == p0
    &&& forall|j: int| 0 <= j < ps.len() - 1 ==> chain_step(#[trigger] ps[j], ps[j + 1])
}

impl Parser {
    /// One `FCB` operand and, after a comma, the rest of the list.  The
    /// ghost arguments tie the cursor to the state `base` the directive
    /// started in.
    fn fcb_items(&mut self, Ghost(base): Ghost<Parser>, Ghost(k): Ghost<int>) -> (r: Result<
        (),
        ParserError,
    >)
        requires
            old(self).prog.building(),
            k >= 0,
            forall|j: int| j >= 0 ==> #[trigger] old(self).tok_at(j) == base.tok_at(j + k),
        ensures
            final(self).prog.building(),
            final(self).measure() <= old(self).measure(),
            bulk_emitted(
                old(self).prog,
                final(self).prog,
                Seq::<(u16, Seq<u8>, i16)>::empty(),
                fcb_run(base, k).0,
            ),
            r == fcb_run(base, k).1,
            r is Ok ==> shift_n(*old(self), *final(self), fcb_run(base, k).2 as int),
        decreases old(self).measure(),
    {
        proof {
            assert(old(self).tok_at(0) == base.tok_at(k));
            assert(old(self).tok_at(1) == base.tok_at(k + 1));
        }
        if !(self.cur_token_is(TokenType::NUMBER) || self.cur_token_is(TokenType::STRING)) {
            proof {
                lemma_appended_is_bulk(self.prog, self.prog, Seq::<u8>::empty());
                assert(self.prog.active().bytes@ =~= self.prog.active().bytes@
                    + Seq::<u8>::empty());
            }
            return Err(self.parse_err(ParseFault::FcbOperand));
        }
        let ghost mut bs0: Seq<u8> = Seq::empty();
        if self.cur_token_is(TokenType::STRING) {
            let data = crate::util::copy_bytes(self.cur_tok.literal.as_slice());
            self.prog.append_code(data.as_slice());
            proof {
                bs0 = data@;
            }
        } else {
            match parse_u16(self.cur_tok.literal.as_slice()) {
                Some(val) => {
                    if val <= 255 {
                        let arr = [val as u8];
                        proof {
                            assert(arr@ =~= seq![(val as u8)]);
                        }
                        self.prog.append_code(arr.as_slice());
                        proof {
                            bs0 = arr@;
                        }
                    } else {
                        proof {
                            assert(self.prog.active().bytes@ =~= self.prog.active().bytes@
                                + Seq::<u8>::empty());
                            lemma_appended_is_bulk(self.prog, self.prog, Seq::<u8>::empty());
                        }
                        return Err(self.parse_err(ParseFault::InvalidByte));
                    }
                },
                None => {
                    proof {
                        assert(self.prog.active().bytes@ =~= self.prog.active().bytes@
                            + Seq::<u8>::empty());
                        lemma_appended_is_bulk(self.prog, self.prog, Seq::<u8>::empty());
                    }
                    return Err(self.parse_err(ParseFault::InvalidByte));
                },
            }
        }
        let ghost mid = self.prog;
        let ghost ga = *self;
        proof {
            assert(fcb_item(base.tok_at(k)) == Ok::<Seq<u8>, ParserError>(bs0));
            assert(appended(old(self).prog, mid, bs0));
            lemma_appended_is_bulk(old(self).prog, mid, bs0);
        }
        self.read_token();
        let ghost gb = *self;
        proof {
            assert(self.tok_at(0) == old(self).tok_at(1));
        }
        if self.cur_token_is(TokenType::END_INST) {
            proof {
                assert(self.prog == mid);
                assert(fcb_run(base, k).0 == bs0);
                assert(fcb_run(base, k).2 == 1nat);
                lemma_same_tokens_shift(*old(self), ga);
                lemma_shift_trans(*old(self), ga, *self, 0, 1);
            }
            return Ok(());
        }
        if !self.cur_token_is(TokenType::COMMA) {
            let e = self.token_err(TokenType::COMMA);
            proof {
                assert(self.prog == mid);
                assert(fcb_run(base, k).0 == bs0);
                assert(fcb_run(base, k).1 == Err::<(), ParserError>(e));
            }
            return Err(e);
        }
        proof {
            lemma_tok_at_phys(base, k + 1);
        }
        self.read_token();
        let ghost gc = *self;
        proof {
            assert forall|j: int| j >= 0 implies #[trigger] self.tok_at(j) == base.tok_at(
                j + k + 2,
            ) by {
                assert(self.tok_at(j) == old(self).tok_at(j + 2));
            }
        }
        let res = self.fcb_items(Ghost(base), Ghost(k + 2));
        proof {
            lemma_bulk_trans(
                old(self).prog,
                mid,
                self.prog,
                Seq::<(u16, Seq<u8>, i16)>::empty(),
                bs0,
                Seq::<(u16, Seq<u8>, i16)>::empty(),
                fcb_run(base, k + 2).0,
            );
            assert(Seq::<(u16, Seq<u8>, i16)>::empty() + Seq::<(u16, Seq<u8>, i16)>::empty()
                =~= Seq::<(u16, Seq<u8>, i16)>::empty());
            assert(fcb_run(base, k).0 == bs0 + fcb_run(base, k + 2).0);
            if res is Ok {
                lemma_same_tokens_shift(*old(self), ga);
                lemma_shift_trans(*old(self), ga, gb, 0, 1);
                lemma_shift_trans(*old(self), gb, gc, 1, 1);
                lemma_shift_trans(*old(self), gc, *self, 2, fcb_run(base, k + 2).2 as int);
                assert(fcb_run(base, k).2 == 2 + fcb_run(base, k + 2).2);
            }
        }
        res
    }

    /// `FCB`: appends raw constant bytes, comma-separated, to the end of
    /// the line.
    pub(crate) fn raw_data_fcb(&mut self) -> (r: Result<(), ParserError>)
        requires
            old(self).prog.building(),
        ensures
            raw_fcb_post(*old(self), *final(self), r),
    {
        let ghost base = *old(self);
        self.read_token();
        let ghost g1 = *self;
        proof {
            assert forall|j: int| j >= 0 implies #[trigger] self.tok_at(j) == base.tok_at(
                j + 1,
            ) by {}
        }
        let r = self.fcb_items(Ghost(base), Ghost(1));
        proof {
            if r is Ok {
                lemma_shift_trans(*old(self), g1, *self, 1, fcb_run(base, 1).2 as int);
            }
        }
        r
    }

    /// One `FDB` operand and, after a comma, the rest of the list.
    fn fdb_items(&mut self, Ghost(base): Ghost<Parser>, Ghost(k): Ghost<int>) -> (r: Result<
        (),
        ParserError,
    >)
        requires
            old(self).prog.building(),
            k >= 0,
            forall|j: int| j >= 0 ==> #[trigger] old(self).tok_at(j) == base.tok_at(j + k),
        ensures
            final(self).prog.building(),
            final(self).measure() <= old(self).measure(),
            ({
                let run = fdb_run(
                    base,
                    k,
                    old(self).prog.spec_pc(),
                    old(self).prog.spec_pc().wrapping_sub(old(self).prog.active().start_pc),
                );
                &&& bulk_emitted(old(self).prog, final(self).prog, run.1, run.0)
                &&& r == run.2
                &&& (r is Ok ==> shift_n(*old(self), *final(self), run.3 as int))
            }),
        decreases old(self).measure(),
    {
        proof {
            assert(old(self).tok_at(0) == base.tok_at(k));
            assert(old(self).tok_at(1) == base.tok_at(k + 1));
        }
        let ghost pc0 = self.prog.spec_pc();
        let ghost rel0 = self.prog.spec_pc().wrapping_sub(self.prog.active().start_pc);
        if self.cur_token_is(TokenType::STRING) {
            proof {
                assert(self.prog.active().bytes@ =~= self.prog.active().bytes@
                    + Seq::<u8>::empty());
                lemma_appended_is_bulk(self.prog, self.prog, Seq::<u8>::empty());
            }
            return Err(self.parse_err(ParseFault::FdbString));
        }
        if !(self.cur_token_is(TokenType::NUMBER) || self.cur_token_is(TokenType::IDENT)) {
            proof {
                assert(self.prog.active().bytes@ =~= self.prog.active().bytes@
                    + Seq::<u8>::empty());
                lemma_appended_is_bulk(self.prog, self.prog, Seq::<u8>::empty());
            }
            return Err(self.tokens_err(ExpectedKind::AddressOperand));
        }
        let val = match self.parse_address(0) {
            Ok(v) => v,
            Err(e) => {
                proof {
                    assert(self.prog.active().bytes@ =~= self.prog.active().bytes@
                        + Seq::<u8>::empty());
                    lemma_appended_is_bulk(self.prog, self.prog, Seq::<u8>::empty());
                }
                return Err(e);
            },
        };
        let ghost mid1 = self.prog;
        let ghost run = fdb_run(base, k, pc0, rel0);
        proof {
            match addr_result(base.tok_at(k), pc0) {
                Ok((v, l)) => {
                    match l {
                        Some((lbl, off)) => {
                            assert(link_at(old(self).prog, 0) == rel0);
                            assert(linked(old(self).prog, mid1, rel0, lbl, off));
                            lemma_linked_is_bulk(old(self).prog, mid1, rel0, lbl, off);
                        },
                        None => {
                            assert(mid1 == old(self).prog);
                            assert(mid1.active().bytes@ =~= mid1.active().bytes@
                                + Seq::<u8>::empty());
                            lemma_appended_is_bulk(old(self).prog, mid1, Seq::<u8>::empty());
                        },
                    }
                },
                Err(_) => {
                    assert(false);
                },
            }
        }
        let arr = [(val / 256) as u8, (val % 256) as u8];
        proof {
            assert(arr@ =~= seq![hi8(val), lo8(val)]);
        }
        self.prog.append_code(arr.as_slice());
        let ghost links0: Seq<(u16, Seq<u8>, i16)> = match addr_result(base.tok_at(k), pc0) {
            Ok((v, l)) => match l {
                None => Seq::empty(),
                Some((lbl, off)) => seq![(rel0, lbl, off)],
            },
            Err(_) => Seq::empty(),
        };
        proof {
            lemma_appended_is_bulk(mid1, self.prog, seq![hi8(val), lo8(val)]);
            lemma_bulk_trans(
                old(self).prog,
                mid1,
                self.prog,
                links0,
                Seq::<u8>::empty(),
                Seq::<(u16, Seq<u8>, i16)>::empty(),
                seq![hi8(val), lo8(val)],
            );
            assert(links0 + Seq::<(u16, Seq<u8>, i16)>::empty() =~= links0);
            assert(Seq::<u8>::empty() + seq![hi8(val), lo8(val)] =~= seq![hi8(val), lo8(val)]);
        }
        let ghost mid = self.prog;
        let ghost ga = *self;
        self.read_token();
        let ghost gb = *self;
        proof {
            assert(self.tok_at(0) == old(self).tok_at(1));
        }
        if self.cur_token_is(TokenType::END_INST) {
            proof {
                assert(self.prog == mid);
                assert(run.3 == 1nat);
                lemma_same_tokens_shift(*old(self), ga);
                lemma_shift_trans(*old(self), ga, *self, 0, 1);
            }
            return Ok(());
        }
        if !self.cur_token_is(TokenType::COMMA) {
            let e = self.token_err(TokenType::COMMA);
            proof {
                assert(self.prog == mid);
                assert(run.2 == Err::<(), ParserError>(e));
            }
            return Err(e);
        }
        proof {
            lemma_tok_at_phys(base, k + 1);
        }
        self.read_token();
        let ghost gc = *self;
        proof {
            assert forall|j: int| j >= 0 implies #[trigger] self.tok_at(j) == base.tok_at(
                j + k + 2,
            ) by {
                assert(self.tok_at(j) == old(self).tok_at(j + 2));
            }
            assert(self.prog.spec_pc() == pc0.wrapping_add(2)) by {
                assert(mid.active().pc == mid1.active().pc.wrapping_add((2nat % 0x10000) as u16));
            }
            assert(self.prog.spec_pc().wrapping_sub(self.prog.active().start_pc)
                == rel0.wrapping_add(2)) by {
                assert(self.prog.active().start_pc == old(self).prog.active().start_pc);
            }
        }
        let res = self.fdb_items(Ghost(base), Ghost(k + 2));
        proof {
            let run2 = fdb_run(base, k + 2, pc0.wrapping_add(2), rel0.wrapping_add(2));
            lemma_bulk_trans(
                old(self).prog,
                mid,
                self.prog,
                links0,
                seq![hi8(val), lo8(val)],
                run2.1,
                run2.0,
            );
            assert(run.0 == seq![hi8(val), lo8(val)] + run2.0);
            assert(run.1 == links0 + run2.1);
            assert(run.2 == run2.2);
            if res is Ok {
                lemma_same_tokens_shift(*old(self), ga);
                lemma_shift_trans(*old(self), ga, gb, 0, 1);
                lemma_shift_trans(*old(self), gb, gc, 1, 1);
                lemma_shift_trans(*old(self), gc, *self, 2, run2.3 as int);
                assert(run.3 == 2 + run2.3);
            }
        }
        res
    }

    /// `FDB`: appends two-byte big-endian values, comma-separated, to the
    /// end of the line; bare strings are rejected and symbolic operands
    /// record pending links.
    pub(crate) fn raw_data_fdb(&mut self) -> (r: Result<(), ParserError>)
        requires
            old(self).prog.building(),
        ensures
            raw_fdb_post(*old(self), *final(self), r),
    {
        let ghost base = *old(self);
        self.read_token();
        let ghost g1 = *self;
        proof {
            assert forall|j: int| j >= 0 implies #[trigger] self.tok_at(j) == base.tok_at(
                j + 1,
            ) by {}
        }
        let r = self.fdb_items(Ghost(base), Ghost(1));
        proof {
            if r is Ok {
                lemma_shift_trans(
                    *old(self),
                    g1,
                    *self,
                    1,
                    fdb_run(
                        base,
                        1,
                        old(self).prog.spec_pc(),
                        old(self).prog.spec_pc().wrapping_sub(
                            old(self).prog.active().start_pc,
                        ),
                    ).3 as int,
                );
            }
        }
        r
    }


    /// Drives the whole token stream: dispatches each instruction or
    /// directive to its encoder, stops at the first error, and finally
    /// sorts the code regions and rejects overlap.  The result is pinned
    /// to the stream by a chain of cursor states: on success the chain
    /// walks every statement to the end of the stream and the program is
    /// the validated result of those statements' effects in order; on
    /// failure either the chain reaches a statement that fails with
    /// exactly the returned error, or every statement succeeded and the
    /// sorted regions overlap.
    pub fn parse(self) -> (r: Result<Program, ParserError>)
        requires
            self.prog.building(),
        ensures
            r matches Ok(p) ==> sorted_parts(p.parts@) && no_overlap(p.parts@) && p.parts@.len()
                >= 1,
            exists|ps: Seq<Parser>|
                #![trigger parse_chain(self, ps)]
                parse_chain(self, ps) && (match r {
                    Ok(p) => ps.last().tok_at(0).name == TokenType::EOF && validate_post(
                        ps.last().prog,
                        p,
                        Ok(()),
                    ),
                    Err(e) => (ps.last().tok_at(0).name == TokenType::EOF
                        && exists|vp: Program, oe: OverlapError|
                        #![all_triggers]
                        validate_post(ps.last().prog, vp, Err(oe)) && e
                            == ParserError::ValidationError(oe.origin, oe.next_origin))
                        || stmt_fails(ps.last(), e),
                }),
    {
        let ghost p0 = self;
        let mut me = self;
        let ghost mut ps: Seq<Parser> = seq![p0];
        while me.cur_tok.name != TokenType::EOF
            invariant
                me.prog.building(),
                p0 == self,
                ps.len() >= 1,
                ps[0] == p0,
                ps.last() == me,
                forall|j: int| 0 <= j < ps.len() - 1 ==> chain_step(#[trigger] ps[j], ps[j + 1]),
            decreases me.measure(),
        {
            let ghost head = me;
            let name = me.cur_tok.name;
            let res: Result<(), ParserError> = match name {
                TokenType::END_INST => {
                    me.read_token();
                    proof {
                        assert(chain_step(head, me));
                        ps = ps.push(me);
                    }
                    continue ;
                },
                TokenType::COMMENT => {
                    me.read_token();
                    proof {
                        assert(chain_step(head, me));
                        ps = ps.push(me);
                    }
                    continue ;
                },
                TokenType::LOAD => me.parse_inst(OpCode::LOADI, OpCode::LOADA, OpCode::LOADR),
                TokenType::STR => me.parse_inst_no_imm(OpCode::STRA, OpCode::STRR),
                TokenType::XFER => me.parse_reg_reg(OpCode::XFER),
                TokenType::ADD => me.parse_inst(OpCode::ADDI, OpCode::ADDA, OpCode::ADDR),
                TokenType::OR => me.parse_inst(OpCode::ORI, OpCode::ORA, OpCode::ORR),
                TokenType::AND => me.parse_inst(OpCode::ANDI, OpCode::ANDA, OpCode::ANDR),
                TokenType::XOR => me.parse_inst(OpCode::XORI, OpCode::XORA, OpCode::XORR),
                TokenType::ROTR => me.parse_reg_half_num(OpCode::ROTR),
                TokenType::ROTL => me.parse_reg_half_num(OpCode::ROTL),
                TokenType::PUSH => me.parse_reg(OpCode::PUSH),
                TokenType::POP => me.parse_reg(OpCode::POP),
                TokenType::CALL => me.parse_inst_no_imm_no_dest(OpCode::CALLA, OpCode::CALLR),
                TokenType::JMP => me.parse_reg_num(OpCode::JMP),
                TokenType::JMPA => me.parse_num(OpCode::JMPA),
                TokenType::LDSP => me.parse_inst_no_dest(
                    OpCode::LDSPI,
                    OpCode::LDSPA,
                    OpCode::LDSPR,
                ),
                TokenType::HALT => me.parse_no_args(OpCode::HALT),
                TokenType::NOOP => me.parse_no_args(OpCode::NOOP),
                TokenType::RTN => me.parse_no_args(OpCode::RTN),
                TokenType::DEBUG => me.parse_no_args(OpCode::DEBUG),
                TokenType::LABEL => me.make_label(),
                TokenType::RMB => me.ins_rmb(),
                TokenType::ORG => me.ins_org(),
                TokenType::FCB => me.raw_data_fcb(),
                TokenType::FDB => me.raw_data_fdb(),
                _ => Err(ParserError::InvalidCode(ParseFault::UnknownToken, me.cur_tok.line)),
            };
            let ghost mid = me;
            proof {
                assert(head.tok_at(0).name == name);
                assert(stmt_post(head, mid, res));
            }
            match res {
                Err(e) => {
                    proof {
                        assert(stmt_fails(head, e));
                        assert(ps.last() == head);
                        assert(parse_chain(p0, ps));
                        assert(parse_chain(self, ps));
                    }
                    return Err(e);
                },
                Ok(_) => {},
            }
            me.read_token();
            proof {
                assert(stmt_post(head, mid, res));
                assert(res is Ok);
                assert(read_post(mid, me));
                assert(chain_step(head, me));
                ps = ps.push(me);
            }
        }
        let ghost pend = me;
        match me.prog.validate() {
            Ok(_) => {
                proof {
                    assert(parse_chain(p0, ps));
                    assert(pend.tok_at(0).name == TokenType::EOF);
                    assert(validate_post(pend.prog, me.prog, Ok(())));
                }
                Ok(me.prog)
            },
            Err(e) => {
                proof {
                    assert(parse_chain(p0, ps));
                    assert(pend.tok_at(0).name == TokenType::EOF);
                    assert(validate_post(pend.prog, me.prog, Err(e)));
                }
                Err(ParserError::ValidationError(e.origin, e.next_origin))
            },
        }
    }
}

/// The contract of [`Parser::make_label`].
pub open spec fn make_label_post(pre: Parser, post: Parser, r: Result<(), ParserError>) -> bool {
    &&& (shift_n(pre, post, 0))
    &&& (post.prog.building())
    &&& (pre.same_tokens(post))
    &&& (post.measure() == pre.measure())
    &&& (r is Ok)
    &&& (post.prog.parts@ == pre.prog.parts@)
    &&& (post.prog.part_i == pre.prog.part_i)
    &&& (post.prog.labels@.len() == pre.prog.labels@.len() + 1)
    &&& (post.prog.labels@.drop_last() == pre.prog.labels@)
    &&& (post.prog.labels@.last().0@ == pre.tok_at(0).lit)
    &&& (post.prog.labels@.last().1 == pre.prog.spec_pc())
}

/// The contract of [`Parser::ins_rmb`].
pub open spec fn ins_rmb_post(pre: Parser, post: Parser, r: Result<(), ParserError>) -> bool {
    &&& (shift_n(pre, post, 1))
    &&& (post.prog.building())
    &&& (post.measure() <= pre.measure())
    &&& (pre.tok_at(0).name != TokenType::EOF ==> post.measure() < pre.measure())
    &&& (
            ({
                let t = pre.tok_at(1);
                if t.name != TokenType::NUMBER {
                    r == Err::<(), ParserError>(
                        ParserError::ExpectedToken(
                            ExpectedKind::Kind(TokenType::NUMBER),
                            t.name,
                            t.line,
                        ),
                    ) && post.prog == pre.prog
                } else {
                    match spec_parse_u16(t.lit) {
                        Some(v) => r is Ok && appended(
                            pre.prog,
                            post.prog,
                            Seq::new(v as nat, |i: int| 0u8),
                        ),
                        None => r == Err::<(), ParserError>(
                            ParserError::InvalidCode(ParseFault::InvalidNumber, t.line),
                        ) && post.prog == pre.prog,
                    }
                }
            })
    )
}

/// The contract of [`Parser::ins_org`].
pub open spec fn ins_org_post(pre: Parser, post: Parser, r: Result<(), ParserError>) -> bool {
    &&& (shift_n(pre, post, 1))
    &&& (post.prog.building())
    &&& (post.measure() <= pre.measure())
    &&& (pre.tok_at(0).name != TokenType::EOF ==> post.measure() < pre.measure())
    &&& (
            ({
                let t = pre.tok_at(1);
                if t.name != TokenType::NUMBER {
                    r == Err::<(), ParserError>(
                        ParserError::ExpectedToken(
                            ExpectedKind::Kind(TokenType::NUMBER),
                            t.name,
                            t.line,
                        ),
                    ) && post.prog == pre.prog
                } else {
                    match spec_parse_u16(t.lit) {
                        Some(v) => ({
                            &&& r is Ok
                            &&& post.prog.labels@ == pre.prog.labels@
                            &&& post.prog.parts@.len() == pre.prog.parts@.len() + 1
                            &&& post.prog.parts@.drop_last() == pre.prog.parts@
                            &&& post.prog.active().bytes@ == Seq::<u8>::empty()
                            &&& post.prog.active().link_map@ == Seq::<(
                                u16,
                                LabelReplace,
                            )>::empty()
                            &&& post.prog.active().start_pc == v
                            &&& post.prog.active().pc == v
                        }),
                        None => r == Err::<(), ParserError>(
                            ParserError::InvalidCode(ParseFault::InvalidNumber, t.line),
                        ) && post.prog == pre.prog,
                    }
                }
            })
    )
}

/// The contract of [`Parser::parse_no_args`].
pub open spec fn parse_no_args_post(pre: Parser, post: Parser, c: OpCode, r: Result<(), ParserError>) -> bool {
    &&& (shift_n(pre, post, 1))
    &&& (post.prog.building())
    &&& (post.measure() <= pre.measure())
    &&& (pre.tok_at(0).name != TokenType::EOF ==> post.measure() < pre.measure())
    &&& (appended(pre.prog, post.prog, seq![spec_opcode_value(c)]))
    &&& (r is Ok <==> pre.tok_at(1).name == TokenType::END_INST)
    &&& (
            r matches Err(e) ==> e == ParserError::ExpectedToken(
                ExpectedKind::Kind(TokenType::END_INST),
                pre.tok_at(1).name,
                pre.tok_at(1).line,
            )
    )
}

/// The contract of [`Parser::parse_num`].
pub open spec fn parse_num_post(pre: Parser, post: Parser, c: OpCode, r: Result<(), ParserError>) -> bool {
    &&& (shift_n(pre, post, 1))
    &&& (post.prog.building())
    &&& (post.measure() <= pre.measure())
    &&& (pre.tok_at(0).name != TokenType::EOF ==> post.measure() < pre.measure())
    &&& (
            ({
                let t = pre.tok_at(1);
                match addr_result(t, pre.prog.spec_pc()) {
                    Err(e) => r == Err::<(), ParserError>(e) && post.prog == pre.prog,
                    Ok((v, l)) => r is Ok && emitted(
                        pre.prog,
                        post.prog,
                        with_at(pre.prog, 1, l),
                        seq![spec_opcode_value(c), hi8(v), lo8(v)],
                    ),
                }
            })
    )
}

/// The contract of [`Parser::parse_reg`].
pub open spec fn parse_reg_post(pre: Parser, post: Parser, c: OpCode, r: Result<(), ParserError>) -> bool {
    &&& (shift_n(pre, post, 1))
    &&& (post.prog.building())
    &&& (post.measure() <= pre.measure())
    &&& (pre.tok_at(0).name != TokenType::EOF ==> post.measure() < pre.measure())
    &&& (
            ({
                match spec_parse_register(pre.tok_at(1)) {
                    Err(e) => r == Err::<(), ParserError>(e) && post.prog == pre.prog,
                    Ok(n) => r is Ok && appended(
                        pre.prog,
                        post.prog,
                        seq![spec_opcode_value(c), n],
                    ),
                }
            })
    )
}

/// The contract of [`Parser::parse_reg_reg`].
pub open spec fn parse_reg_reg_post(pre: Parser, post: Parser, c: OpCode, r: Result<(), ParserError>) -> bool {
    &&& (r is Ok ==> shift_n(pre, post, 2))
    &&& (post.prog.building())
    &&& (post.measure() <= pre.measure())
    &&& (pre.tok_at(0).name != TokenType::EOF ==> post.measure() < pre.measure())
    &&& (
            ({
                match spec_parse_register(pre.tok_at(1)) {
                    Err(e) => r == Err::<(), ParserError>(e) && post.prog == pre.prog,
                    Ok(n1) => {
                        match spec_parse_register(pre.tok_at(2)) {
                            Err(e) => r == Err::<(), ParserError>(e) && post.prog == pre.prog,
                            Ok(n2) => r is Ok && appended(
                                pre.prog,
                                post.prog,
                                seq![spec_opcode_value(c), n1, n2],
                            ),
                        }
                    },
                }
            })
    )
}

/// The contract of [`Parser::parse_reg_num`].
pub open spec fn parse_reg_num_post(pre: Parser, post: Parser, c: OpCode, r: Result<(), ParserError>) -> bool {
    &&& (r is Ok ==> shift_n(pre, post, 2))
    &&& (post.prog.building())
    &&& (post.measure() <= pre.measure())
    &&& (pre.tok_at(0).name != TokenType::EOF ==> post.measure() < pre.measure())
    &&& (
            ({
                match spec_parse_register(pre.tok_at(1)) {
                    Err(e) => r == Err::<(), ParserError>(e) && post.prog == pre.prog,
                    Ok(n1) => {
                        let t = pre.tok_at(2);
                        match addr_result(t, pre.prog.spec_pc()) {
                            Err(e) => r == Err::<(), ParserError>(e) && post.prog == pre.prog,
                            Ok((v, l)) => r is Ok && emitted(
                                pre.prog,
                                post.prog,
                                with_at(pre.prog, 2, l),
                                seq![spec_opcode_value(c), n1, hi8(v), lo8(v)],
                            ),
                        }
                    },
                }
            })
    )
}

/// The contract of [`Parser::parse_reg_half_num`].
pub open spec fn parse_reg_half_num_post(pre: Parser, post: Parser, c: OpCode, r: Result<(), ParserError>) -> bool {
    &&& (r is Ok ==> shift_n(pre, post, 4))
    &&& (post.prog.building())
    &&& (post.measure() <= pre.measure())
    &&& (pre.tok_at(0).name != TokenType::EOF ==> post.measure() < pre.measure())
    &&& (
            ({
                match spec_parse_register(pre.tok_at(1)) {
                    Err(e) => r == Err::<(), ParserError>(e) && post.prog == pre.prog,
                    Ok(n1) => {
                        if pre.tok_at(3).name != TokenType::IMMEDIATE {
                            r == Err::<(), ParserError>(
                                ParserError::ExpectedToken(
                                    ExpectedKind::Kind(TokenType::IMMEDIATE),
                                    pre.tok_at(3).name,
                                    pre.tok_at(3).line,
                                ),
                            ) && post.prog == pre.prog
                        } else {
                            let t = pre.tok_at(4);
                            match addr_result(t, pre.prog.spec_pc()) {
                                Err(e) => r == Err::<(), ParserError>(e) && post.prog
                                    == pre.prog,
                                Ok((v, l)) => {
                                    if v > 255 {
                                        r == Err::<(), ParserError>(
                                            ParserError::InvalidCode(ParseFault::RotateCount, t.line),
                                        ) && emitted(
                                            pre.prog,
                                            post.prog,
                                            with_at(pre.prog, 2, l),
                                            Seq::<u8>::empty(),
                                        )
                                    } else {
                                        r is Ok && emitted(
                                            pre.prog,
                                            post.prog,
                                            with_at(pre.prog, 2, l),
                                            seq![spec_opcode_value(c), n1, v as u8],
                                        )
                                    }
                                },
                            }
                        }
                    },
                }
            })
    )
}

/// The contract of [`Parser::parse_inst`].
pub open spec fn parse_inst_post(pre: Parser, post: Parser, imm: OpCode, addr: OpCode, reg: OpCode, r: Result<(), ParserError>) -> bool {
    &&& (r is Ok ==> (if pre.tok_at(2).name == TokenType::IMMEDIATE {
        shift_n(pre, post, 4)
    } else {
        shift_n(pre, post, 3)
    }))
    &&& (post.prog.building())
    &&& (post.measure() <= pre.measure())
    &&& (pre.tok_at(0).name != TokenType::EOF ==> post.measure() < pre.measure())
    &&& (
            ({
                match spec_parse_register(pre.tok_at(1)) {
                    Err(e) => r == Err::<(), ParserError>(e) && post.prog == pre.prog,
                    Ok(d) => {
                        let t2 = pre.tok_at(2);
                        if t2.name == TokenType::NUMBER || t2.name == TokenType::IDENT {
                            match addr_result(t2, pre.prog.spec_pc()) {
                                Err(e) => r == Err::<(), ParserError>(e) && post.prog
                                    == pre.prog,
                                Ok((v, l)) => emitted(
                                    pre.prog,
                                    post.prog,
                                    with_at(pre.prog, 2, l),
                                    seq![spec_opcode_value(addr), d, hi8(v), lo8(v)],
                                ) && (r is Ok <==> pre.tok_at(3).name
                                    == TokenType::END_INST) && (r matches Err(e) ==> e
                                    == ParserError::ExpectedToken(
                                    ExpectedKind::Kind(TokenType::END_INST),
                                    pre.tok_at(3).name,
                                    pre.tok_at(3).line,
                                )),
                            }
                        } else if t2.name == TokenType::IMMEDIATE {
                            let t3 = pre.tok_at(3);
                            match addr_result(t3, pre.prog.spec_pc()) {
                                Err(e) => r == Err::<(), ParserError>(e) && post.prog
                                    == pre.prog,
                                Ok((v, l)) => emitted(
                                    pre.prog,
                                    post.prog,
                                    with_at(pre.prog, 2, l),
                                    seq![spec_opcode_value(imm), d, hi8(v), lo8(v)],
                                ) && (r is Ok <==> pre.tok_at(4).name
                                    == TokenType::END_INST) && (r matches Err(e) ==> e
                                    == ParserError::ExpectedToken(
                                    ExpectedKind::Kind(TokenType::END_INST),
                                    pre.tok_at(4).name,
                                    pre.tok_at(4).line,
                                )),
                            }
                        } else if t2.name == TokenType::REGISTER {
                            match spec_parse_register(t2) {
                                Err(e) => r == Err::<(), ParserError>(e) && post.prog
                                    == pre.prog,
                                Ok(srcr) => appended(
                                    pre.prog,
                                    post.prog,
                                    seq![spec_opcode_value(reg), d, srcr],
                                ) && (r is Ok <==> pre.tok_at(3).name
                                    == TokenType::END_INST) && (r matches Err(e) ==> e
                                    == ParserError::ExpectedToken(
                                    ExpectedKind::Kind(TokenType::END_INST),
                                    pre.tok_at(3).name,
                                    pre.tok_at(3).line,
                                )),
                            }
                        } else {
                            r == Err::<(), ParserError>(
                                ParserError::ExpectedToken(ExpectedKind::AnyOperand, t2.name, t2.line),
                            ) && post.prog == pre.prog
                        }
                    },
                }
            })
    )
}

/// The contract of [`Parser::parse_inst_no_dest`].
pub open spec fn parse_inst_no_dest_post(pre: Parser, post: Parser, imm: OpCode, addr: OpCode, reg: OpCode, r: Result<(), ParserError>) -> bool {
    &&& (r is Ok ==> (if pre.tok_at(1).name == TokenType::IMMEDIATE {
        shift_n(pre, post, 3)
    } else {
        shift_n(pre, post, 2)
    }))
    &&& (post.prog.building())
    &&& (post.measure() <= pre.measure())
    &&& (pre.tok_at(0).name != TokenType::EOF ==> post.measure() < pre.measure())
    &&& (
            ({
                let t1 = pre.tok_at(1);
                if t1.name == TokenType::NUMBER || t1.name == TokenType::IDENT {
                    match addr_result(t1, pre.prog.spec_pc()) {
                        Err(e) => r == Err::<(), ParserError>(e) && post.prog == pre.prog,
                        Ok((v, l)) => emitted(
                            pre.prog,
                            post.prog,
                            with_at(pre.prog, 1, l),
                            seq![spec_opcode_value(addr), hi8(v), lo8(v)],
                        ) && (r is Ok <==> pre.tok_at(2).name == TokenType::END_INST) && (
                        r matches Err(e) ==> e == ParserError::ExpectedToken(
                            ExpectedKind::Kind(TokenType::END_INST),
                            pre.tok_at(2).name,
                            pre.tok_at(2).line,
                        )),
                    }
                } else if t1.name == TokenType::IMMEDIATE {
                    let t2 = pre.tok_at(2);
                    match addr_result(t2, pre.prog.spec_pc()) {
                        Err(e) => r == Err::<(), ParserError>(e) && post.prog == pre.prog,
                        Ok((v, l)) => emitted(
                            pre.prog,
                            post.prog,
                            with_at(pre.prog, 1, l),
                            seq![spec_opcode_value(imm), hi8(v), lo8(v)],
                        ) && (r is Ok <==> pre.tok_at(3).name == TokenType::END_INST) && (
                        r matches Err(e) ==> e == ParserError::ExpectedToken(
                            ExpectedKind::Kind(TokenType::END_INST),
                            pre.tok_at(3).name,
                            pre.tok_at(3).line,
                        )),
                    }
                } else if t1.name == TokenType::REGISTER {
                    match spec_parse_register(t1) {
                        Err(e) => r == Err::<(), ParserError>(e) && post.prog == pre.prog,
                        Ok(srcr) => appended(
                            pre.prog,
                            post.prog,
                            seq![spec_opcode_value(reg), srcr],
                        ) && (r is Ok <==> pre.tok_at(2).name == TokenType::END_INST) && (
                        r matches Err(e) ==> e == ParserError::ExpectedToken(
                            ExpectedKind::Kind(TokenType::END_INST),
                            pre.tok_at(2).name,
                            pre.tok_at(2).line,
                        )),
                    }
                } else {
                    r == Err::<(), ParserError>(
                        ParserError::ExpectedToken(ExpectedKind::AnyOperand, t1.name, t1.line),
                    ) && post.prog == pre.prog
                }
            })
    )
}

/// The contract of [`Parser::parse_inst_no_imm_no_dest`].
pub open spec fn parse_inst_no_imm_no_dest_post(pre: Parser, post: Parser, addr: OpCode, reg: OpCode, r: Result<(), ParserError>) -> bool {
    &&& (r is Ok ==> shift_n(pre, post, 2))
    &&& (post.prog.building())
    &&& (post.measure() <= pre.measure())
    &&& (pre.tok_at(0).name != TokenType::EOF ==> post.measure() < pre.measure())
    &&& (
            ({
                let t1 = pre.tok_at(1);
                if t1.name == TokenType::NUMBER || t1.name == TokenType::IDENT {
                    match addr_result(t1, pre.prog.spec_pc()) {
                        Err(e) => r == Err::<(), ParserError>(e) && post.prog == pre.prog,
                        Ok((v, l)) => emitted(
                            pre.prog,
                            post.prog,
                            with_at(pre.prog, 1, l),
                            seq![spec_opcode_value(addr), hi8(v), lo8(v)],
                        ) && (r is Ok <==> pre.tok_at(2).name == TokenType::END_INST) && (
                        r matches Err(e) ==> e == ParserError::ExpectedToken(
                            ExpectedKind::Kind(TokenType::END_INST),
                            pre.tok_at(2).name,
                            pre.tok_at(2).line,
                        )),
                    }
                } else if t1.name == TokenType::REGISTER {
                    match spec_parse_register(t1) {
                        Err(e) => r == Err::<(), ParserError>(e) && post.prog == pre.prog,
                        Ok(srcr) => appended(
                            pre.prog,
                            post.prog,
                            seq![spec_opcode_value(reg), srcr],
                        ) && (r is Ok <==> pre.tok_at(2).name == TokenType::END_INST) && (
                        r matches Err(e) ==> e == ParserError::ExpectedToken(
                            ExpectedKind::Kind(TokenType::END_INST),
                            pre.tok_at(2).name,
                            pre.tok_at(2).line,
                        )),
                    }
                } else {
                    r == Err::<(), ParserError>(
                        ParserError::ExpectedToken(
                            ExpectedKind::AnyOperandNoImmediate,
                            t1.name,
                            t1.line,
                        ),
                    ) && post.prog == pre.prog
                }
            })
    )
}

/// The contract of [`Parser::parse_inst_no_imm`].
pub open spec fn parse_inst_no_imm_post(pre: Parser, post: Parser, addr: OpCode, reg: OpCode, r: Result<(), ParserError>) -> bool {
    &&& (r is Ok ==> shift_n(pre, post, 3))
    &&& (post.prog.building())
    &&& (post.measure() <= pre.measure())
    &&& (pre.tok_at(0).name != TokenType::EOF ==> post.measure() < pre.measure())
    &&& (
            ({
                match spec_parse_register(pre.tok_at(1)) {
                    Err(e) => r == Err::<(), ParserError>(e) && post.prog == pre.prog,
                    Ok(d) => {
                        let t2 = pre.tok_at(2);
                        if t2.name == TokenType::NUMBER || t2.name == TokenType::IDENT {
                            match addr_result(t2, pre.prog.spec_pc()) {
                                Err(e) => r == Err::<(), ParserError>(e) && post.prog
                                    == pre.prog,
                                Ok((v, l)) => emitted(
                                    pre.prog,
                                    post.prog,
                                    with_at(pre.prog, 2, l),
                                    seq![spec_opcode_value(addr), d, hi8(v), lo8(v)],
                                ) && (r is Ok <==> pre.tok_at(3).name
                                    == TokenType::END_INST) && (r matches Err(e) ==> e
                                    == ParserError::ExpectedToken(
                                    ExpectedKind::Kind(TokenType::END_INST),
                                    pre.tok_at(3).name,
                                    pre.tok_at(3).line,
                                )),
                            }
                        } else if t2.name == TokenType::REGISTER {
                            match spec_parse_register(t2) {
                                Err(e) => r == Err::<(), ParserError>(e) && post.prog
                                    == pre.prog,
                                Ok(srcr) => appended(
                                    pre.prog,
                                    post.prog,
                                    seq![spec_opcode_value(reg), d, srcr],
                                ) && (r is Ok <==> pre.tok_at(3).name
                                    == TokenType::END_INST) && (r matches Err(e) ==> e
                                    == ParserError::ExpectedToken(
                                    ExpectedKind::Kind(TokenType::END_INST),
                                    pre.tok_at(3).name,
                                    pre.tok_at(3).line,
                                )),
                            }
                        } else {
                            r == Err::<(), ParserError>(
                                ParserError::ExpectedToken(
                                    ExpectedKind::AnyOperandNoImmediate,
                                    t2.name,
                                    t2.line,
                                ),
                            ) && post.prog == pre.prog
                        }
                    },
                }
            })
    )
}

/// The contract of [`Parser::raw_data_fcb`].
pub open spec fn raw_fcb_post(pre: Parser, post: Parser, r: Result<(), ParserError>) -> bool {
    &&& (r is Ok ==> shift_n(pre, post, 1 + fcb_run(pre, 1).2 as int))
    &&& (post.prog.building())
    &&& (post.measure() <= pre.measure())
    &&& (pre.tok_at(0).name != TokenType::EOF ==> post.measure() < pre.measure())
    &&& (
            bulk_emitted(
                pre.prog,
                post.prog,
                Seq::<(u16, Seq<u8>, i16)>::empty(),
                fcb_run(pre, 1).0,
            )
    )
    &&& (r == fcb_run(pre, 1).1)
}

/// The contract of [`Parser::raw_data_fdb`].
pub open spec fn raw_fdb_post(pre: Parser, post: Parser, r: Result<(), ParserError>) -> bool {
    &&& (r is Ok ==> shift_n(
        pre,
        post,
        1 + fdb_run(
            pre,
            1,
            pre.prog.spec_pc(),
            pre.prog.spec_pc().wrapping_sub(pre.prog.active().start_pc),
        ).3 as int,
    ))
    &&& (post.prog.building())
    &&& (post.measure() <= pre.measure())
    &&& (pre.tok_at(0).name != TokenType::EOF ==> post.measure() < pre.measure())
    &&& (
            ({
                let run = fdb_run(
                    pre,
                    1,
                    pre.prog.spec_pc(),
                    pre.prog.spec_pc().wrapping_sub(pre.prog.active().start_pc),
                );
                bulk_emitted(pre.prog, post.prog, run.1, run.0) && r == run.2
            })
    )
}

} // verus!
