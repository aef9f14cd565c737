//! The lexer: turns a byte source into tokens, one per call, with a
//! two-byte lookahead window.  Carriage returns are dropped as bytes are
//! pulled into the window, and an exhausted source reads as zero bytes, so
//! the token stream ends in an unbounded run of `EOF` tokens.

use vstd::prelude::*;

use crate::token::Token;
use crate::token::TokenType;
use crate::token::spec_lookup_ident;

verus! {

/// True for the bytes skipped between tokens: space, tab, newline and
/// carriage return.
pub open spec fn spec_is_whitespace(ch: u8) -> bool {
    ch == (' ' as u8) || ch == ('\t' as u8) || ch == ('\n' as u8) || ch == ('\r' as u8)
}

/// Executable twin of [`spec_is_whitespace`].
pub fn is_whitespace(ch: u8) -> (r: bool)
    ensures
        r == spec_is_whitespace(ch),
{
    ch == (' ' as u8) || ch == ('\t' as u8) || ch == ('\n' as u8) || ch == ('\r' as u8)
}

/// True for bytes that may start an identifier: letters, `_` and `$`.
pub open spec fn spec_is_letter(ch: u8) -> bool {
    (('a' as u8) <= ch && ch <= ('z' as u8)) || (('A' as u8) <= ch && ch <= ('Z' as u8)) || ch
        == ('_' as u8) || ch == ('$' as u8)
}

/// Executable twin of [`spec_is_letter`].
pub fn is_letter(ch: u8) -> (r: bool)
    ensures
        r == spec_is_letter(ch),
{
    (('a' as u8) <= ch && ch <= ('z' as u8)) || (('A' as u8) <= ch && ch <= ('Z' as u8)) || ch
        == ('_' as u8) || ch == ('$' as u8)
}

/// True for an ASCII decimal digit.
pub open spec fn spec_is_digit(ch: u8) -> bool {
    ('0' as u8) <= ch && ch <= ('9' as u8)
}

/// Executable twin of [`spec_is_digit`].
pub fn is_digit(ch: u8) -> (r: bool)
    ensures
        r == spec_is_digit(ch),
{
    ('0' as u8) <= ch && ch <= ('9' as u8)
}

/// True for the extra bytes a number literal may carry: hex letters and
/// the `x` of a `0x` prefix.
pub open spec fn spec_is_hex_digit(ch: u8) -> bool {
    (('a' as u8) <= ch && ch <= ('f' as u8)) || (('A' as u8) <= ch && ch <= ('F' as u8)) || ch
        == ('x' as u8)
}

/// Executable twin of [`spec_is_hex_digit`].
pub fn is_hex_digit(ch: u8) -> (r: bool)
    ensures
        r == spec_is_hex_digit(ch),
{
    (('a' as u8) <= ch && ch <= ('f' as u8)) || (('A' as u8) <= ch && ch <= ('F' as u8)) || ch
        == ('x' as u8)
}

/// True for the bytes an identifier may continue with: letters, digits,
/// and the `+`/`-` of a trailing offset.
pub open spec fn spec_is_ident(ch: u8) -> bool {
    spec_is_letter(ch) || spec_is_digit(ch) || ch == ('-' as u8) || ch == ('+' as u8)
}

/// Executable twin of [`spec_is_ident`].
pub fn is_ident(ch: u8) -> (r: bool)
    ensures
        r == spec_is_ident(ch),
{
    is_letter(ch) || is_digit(ch) || ch == ('-' as u8) || ch == ('+' as u8)
}

/// The bytes still to be delivered into the lookahead window, with every
/// carriage return dropped the way the reader drops it: a `\r` is skipped
/// and the byte after it (even another `\r`) is delivered in its place.
pub open spec fn eff(s: Seq<u8>, p: int) -> Seq<u8>
    decreases s.len() - p,
{
    if p < 0 || p >= s.len() {
        Seq::empty()
    } else if s[p] != ('\r' as u8) {
        seq![s[p]] + eff(s, p + 1)
    } else if p + 1 >= s.len() {
        Seq::empty()
    } else {
        seq![s[p + 1]] + eff(s, p + 2)
    }
}

/// The head of a delivery stream; an exhausted stream delivers zero bytes.
pub open spec fn first0(r: Seq<u8>) -> u8 {
    if r.len() > 0 {
        r[0]
    } else {
        0
    }
}

/// The tail of a delivery stream.
pub open spec fn rest1(r: Seq<u8>) -> Seq<u8> {
    if r.len() > 0 {
        r.drop_first()
    } else {
        r
    }
}

/// The abstract lexer state: the two lookahead bytes, the bytes still to
/// come, and the position counters.
pub struct LexState {
    pub cur: u8,
    pub peek: u8,
    pub rest: Seq<u8>,
    pub line: u32,
    pub col: u32,
}

/// Advancing the window by one byte: the peek byte becomes current, the
/// next delivered byte becomes the peek, and the column moves on.
pub open spec fn shift(m: LexState) -> LexState {
    LexState {
        cur: m.peek,
        peek: first0(m.rest),
        rest: rest1(m.rest),
        line: m.line,
        col: m.col.wrapping_add(1),
    }
}

/// How many of the two lookahead bytes would keep a `take_run(p)` going.
pub open spec fn cont_count(m: LexState, p: spec_fn(u8) -> bool) -> int {
    (if m.cur != 0 && p(m.cur) {
        1int
    } else {
        0int
    }) + (if m.peek != 0 && p(m.peek) {
        1int
    } else {
        0int
    })
}

/// Consumes bytes while `p` holds of the current byte (stopping in any
/// case at a zero byte), and returns the bytes consumed together with the
/// state left behind.
pub open spec fn take_run(m: LexState, p: spec_fn(u8) -> bool) -> (Seq<u8>, LexState)
    decreases m.rest.len(), cont_count(m, p),
{
    if m.cur == 0 || !p(m.cur) {
        (Seq::empty(), m)
    } else {
        let (s, m2) = take_run(shift(m), p);
        (seq![m.cur] + s, m2)
    }
}

/// The whitespace predicate, as a function value for `take_run`.
pub open spec fn ws_pred() -> spec_fn(u8) -> bool {
    |c: u8| spec_is_whitespace(c)
}

/// The identifier-continuation predicate.
pub open spec fn ident_pred() -> spec_fn(u8) -> bool {
    |c: u8| spec_is_ident(c)
}

/// The number-continuation predicate: digits, hex letters and `!`.
pub open spec fn num_pred() -> spec_fn(u8) -> bool {
    |c: u8| spec_is_digit(c) || spec_is_hex_digit(c) || c == ('!' as u8)
}

/// The string-continuation predicate: anything short of the closing quote.
pub open spec fn str_pred() -> spec_fn(u8) -> bool {
    |c: u8| c != ('"' as u8)
}

/// The comment-continuation predicate: anything short of the newline.
pub open spec fn comment_pred() -> spec_fn(u8) -> bool {
    |c: u8| c != ('\n' as u8)
}

/// The state after skipping leading whitespace.
pub open spec fn skip_ws(m: LexState) -> LexState {
    take_run(m, |c: u8| spec_is_whitespace(c)).1
}

/// True for the bytes `trim` strips: the ASCII whitespace characters.
pub open spec fn spec_is_trim_ws(ch: u8) -> bool {
    ch == (' ' as u8) || ch == ('\t' as u8) || ch == ('\n' as u8) || ch == ('\r' as u8) || ch
        == 11 || ch == 12
}

/// Drops leading ASCII whitespace.
pub open spec fn trim_front(s: Seq<u8>) -> Seq<u8>
    decreases s.len(),
{
    if s.len() > 0 && spec_is_trim_ws(s[0]) {
        trim_front(s.drop_first())
    } else {
        s
    }
}

/// Drops trailing ASCII whitespace.
pub open spec fn trim_back(s: Seq<u8>) -> Seq<u8>
    decreases s.len(),
{
    if s.len() > 0 && spec_is_trim_ws(s.last()) {
        trim_back(s.drop_last())
    } else {
        s
    }
}

/// Strips ASCII whitespace from both ends.
pub open spec fn spec_trim(s: Seq<u8>) -> Seq<u8> {
    trim_back(trim_front(s))
}

/// What one token read does to the lexer: the token produced (kind,
/// literal, line, column) and the state left behind.
pub struct TokInfo {
    pub name: TokenType,
    pub lit: Seq<u8>,
    pub line: u32,
    pub col: u32,
}

/// The functional model of [`Lexer::next_token`]: a newline becomes an
/// instruction terminator and resets the position counters; otherwise
/// whitespace is skipped and the current byte decides the token.  The
/// exhausted source (zero byte) gives `EOF`, an unclassifiable byte gives
/// `ILLEGAL`.
pub open spec fn lex_next(m: LexState) -> (LexState, TokInfo) {
    if m.cur == ('\n' as u8) {
        let t = TokInfo { name: TokenType::END_INST, lit: Seq::empty(), line: m.line, col: m.col };
        let m1 = LexState { line: m.line.wrapping_add(1), col: 0, ..m };
        (shift(m1), t)
    } else {
        let m1 = skip_ws(m);
        if m1.cur == (':' as u8) {
            let m2 = shift(m1);
            let (lit, m3) = take_run(m2, ident_pred());
            (shift(m3), TokInfo { name: TokenType::LABEL, lit, line: m3.line, col: m3.col })
        } else if m1.cur == ('#' as u8) {
            (
                shift(m1),
                TokInfo { name: TokenType::IMMEDIATE, lit: Seq::empty(), line: m1.line, col: m1.col },
            )
        } else if m1.cur == (',' as u8) {
            (
                shift(m1),
                TokInfo { name: TokenType::COMMA, lit: Seq::empty(), line: m1.line, col: m1.col },
            )
        } else if m1.cur == ('"' as u8) {
            let m2 = shift(m1);
            let (lit, m3) = take_run(m2, str_pred());
            (shift(m3), TokInfo { name: TokenType::STRING, lit, line: m3.line, col: m3.col })
        } else if m1.cur == (';' as u8) {
            let m2 = shift(m1);
            let (lit, m3) = take_run(m2, comment_pred());
            let t = TokInfo {
                name: TokenType::COMMENT,
                lit: spec_trim(lit),
                line: m3.line,
                col: m1.col,
            };
            (shift(LexState { line: m3.line.wrapping_add(1), col: 0, ..m3 }), t)
        } else if m1.cur == ('%' as u8) {
            let m2 = shift(m1);
            if m2.cur == ('S' as u8) && m2.peek == ('P' as u8) {
                let m3 = shift(m2);
                let t = TokInfo {
                    name: TokenType::REGISTER,
                    lit: seq![('S' as u8), ('P' as u8)],
                    line: m3.line,
                    col: m3.col,
                };
                (shift(m3), t)
            } else {
                let t = TokInfo {
                    name: TokenType::REGISTER,
                    lit: seq![m2.cur],
                    line: m2.line,
                    col: m2.col,
                };
                (shift(m2), t)
            }
        } else if m1.cur == 0 {
            (
                shift(m1),
                TokInfo { name: TokenType::EOF, lit: Seq::empty(), line: m1.line, col: m1.col },
            )
        } else if spec_is_letter(m1.cur) {
            let (lit, m2) = take_run(m1, ident_pred());
            (m2, TokInfo { name: spec_lookup_ident(lit), lit, line: m2.line, col: m2.col })
        } else if spec_is_digit(m1.cur) {
            let (lit, m2) = take_run(m1, num_pred());
            (m2, TokInfo { name: TokenType::NUMBER, lit, line: m2.line, col: m2.col })
        } else {
            (
                shift(m1),
                TokInfo { name: TokenType::ILLEGAL, lit: Seq::empty(), line: m1.line, col: m1.col },
            )
        }
    }
}

/// The state a fresh lexer starts in: counters at line 1, column 0, then
/// two reads to fill the lookahead window.
pub open spec fn spec_init(src: Seq<u8>) -> LexState {
    shift(shift(LexState { cur: 0, peek: 0, rest: eff(src, 0), line: 1, col: 0 }))
}

/// The lexer: a byte source, a two-byte lookahead window, and position
/// counters.
pub struct Lexer {
    src: Vec<u8>,
    pos: usize,
    cur_ch: u8,
    peek_ch: u8,
    line: u32,
    col: u32,
}

impl Lexer {
    /// The reader has not run past the end of the source.
    pub closed spec fn wf(self) -> bool {
        self.pos <= self.src@.len()
    }

    /// The abstract state this lexer is in.
    pub closed spec fn model(self) -> LexState {
        LexState {
            cur: self.cur_ch,
            peek: self.peek_ch,
            rest: eff(self.src@, self.pos as int),
            line: self.line,
            col: self.col,
        }
    }

    /// A fresh lexer over `src`.
    pub fn new(src: Vec<u8>) -> (r: Self)
        ensures
            r.wf(),
            r.model() == spec_init(src@),
    {
        let mut l = Lexer { src, pos: 0, cur_ch: 0, peek_ch: 0, line: 1, col: 0 };
        l.read_char();
        l.read_char();
        l
    }

    /// Pulls one raw byte from the source; an exhausted source reads as 0.
    fn next_byte(&mut self) -> (b: u8)
        requires
            old(self).wf(),
        ensures
            final(self).wf(),
            final(self).cur_ch == old(self).cur_ch,
            final(self).peek_ch == old(self).peek_ch,
            final(self).line == old(self).line,
            final(self).col == old(self).col,
            final(self).src@ == old(self).src@,
            old(self).pos < old(self).src@.len() ==> b == old(self).src@[old(self).pos as int]
                && final(self).pos == old(self).pos + 1,
            old(self).pos >= old(self).src@.len() ==> b == 0 && final(self).pos == old(self).pos,
    {
        if self.pos < self.src.len() {
            let b = self.src[self.pos];
            self.pos = self.pos + 1;
            b
        } else {
            0
        }
    }

    /// Slides the lookahead window one byte forward, dropping a carriage
    /// return the way the model's delivery stream does.
    fn read_char(&mut self)
        requires
            old(self).wf(),
        ensures
            final(self).wf(),
            final(self).model() == shift(old(self).model()),
    {
        self.cur_ch = self.peek_ch;
        let b = self.next_byte();
        if b == ('\r' as u8) {
            self.peek_ch = self.next_byte();
        } else {
            self.peek_ch = b;
        }
        self.col = self.col.wrapping_add(1);
        proof {
            let m0 = old(self).model();
            let s = old(self).src@;
            let p = old(self).pos as int;
            assert(m0.rest == eff(s, p));
            if p >= s.len() {
                assert(eff(s, p) == Seq::<u8>::empty());
            } else if s[p] != ('\r' as u8) {
                assert(eff(s, p) == seq![s[p]] + eff(s, p + 1));
                assert(first0(m0.rest) == s[p]);
                assert(rest1(m0.rest) =~= eff(s, p + 1));
            } else if p + 1 >= s.len() {
                assert(eff(s, p) == Seq::<u8>::empty());
                assert(eff(s, p + 1) == Seq::<u8>::empty());
            } else {
                assert(eff(s, p) == seq![s[p + 1]] + eff(s, p + 2));
                assert(first0(m0.rest) == s[p + 1]);
                assert(rest1(m0.rest) =~= eff(s, p + 2));
            }
            assert(final(self).model() == shift(m0));
        }
    }

    /// Moves the counters to the start of the next line.
    fn reset_pos(&mut self)
        requires
            old(self).wf(),
        ensures
            final(self).wf(),
            final(self).model() == (LexState {
                line: old(self).model().line.wrapping_add(1),
                col: 0,
                ..old(self).model()
            }),
    {
        self.line = self.line.wrapping_add(1);
        self.col = 0;
    }

    /// Skips whitespace bytes.
    fn devour_whitespace(&mut self)
        requires
            old(self).wf(),
        ensures
            final(self).wf(),
            final(self).model() == skip_ws(old(self).model()),
    {
        let ghost p = ws_pred();
        let ghost m0 = old(self).model();
        while is_whitespace(self.cur_ch)
            invariant
                self.wf(),
                take_run(self.model(), ws_pred()).1 == take_run(m0, ws_pred()).1,
            decreases self.model().rest.len(), cont_count(self.model(), ws_pred()),
        {
            proof {
                assert(spec_is_whitespace(self.cur_ch));
                assert(self.model().cur != 0 && ws_pred()(self.model().cur));
                assert(take_run(self.model(), ws_pred()).1 == take_run(
                    shift(self.model()),
                    ws_pred(),
                ).1);
            }
            self.read_char();
        }
        proof {
            assert(!ws_pred()(self.model().cur));
            assert(take_run(self.model(), ws_pred()).1 == self.model());
        }
    }

    /// Reads an identifier: the maximal run of identifier bytes.
    fn read_identifier(&mut self) -> (r: Vec<u8>)
        requires
            old(self).wf(),
        ensures
            final(self).wf(),
            r@ == take_run(old(self).model(), ident_pred()).0,
            final(self).model() == take_run(old(self).model(), ident_pred()).1,
    {
        let ghost m0 = old(self).model();
        let mut out: Vec<u8> = Vec::new();
        while is_ident(self.cur_ch)
            invariant
                self.wf(),
                out@ + take_run(self.model(), ident_pred()).0 == take_run(m0, ident_pred()).0,
                take_run(self.model(), ident_pred()).1 == take_run(m0, ident_pred()).1,
            decreases self.model().rest.len(), cont_count(self.model(), ident_pred()),
        {
            let ghost mpre = self.model();
            let ghost opre = out@;
            proof {
                assert(spec_is_ident(self.cur_ch));
                assert(mpre.cur != 0 && ident_pred()(mpre.cur));
            }
            out.push(self.cur_ch);
            self.read_char();
            proof {
                assert(take_run(mpre, ident_pred()).0 == seq![mpre.cur] + take_run(
                    self.model(),
                    ident_pred(),
                ).0);
                assert(out@ + take_run(self.model(), ident_pred()).0 =~= opre + take_run(
                    mpre,
                    ident_pred(),
                ).0);
            }
        }
        proof {
            assert(!(self.model().cur != 0 && ident_pred()(self.model().cur)));
            assert(out@ + take_run(self.model(), ident_pred()).0 =~= out@);
        }
        out
    }

    /// Reads a number literal: digits, hex letters, `x` and `!`.
    fn read_number(&mut self) -> (r: Vec<u8>)
        requires
            old(self).wf(),
        ensures
            final(self).wf(),
            r@ == take_run(old(self).model(), num_pred()).0,
            final(self).model() == take_run(old(self).model(), num_pred()).1,
    {
        let ghost m0 = old(self).model();
        let mut out: Vec<u8> = Vec::new();
        while is_digit(self.cur_ch) || is_hex_digit(self.cur_ch) || self.cur_ch == ('!' as u8)
            invariant
                self.wf(),
                out@ + take_run(self.model(), num_pred()).0 == take_run(m0, num_pred()).0,
                take_run(self.model(), num_pred()).1 == take_run(m0, num_pred()).1,
            decreases self.model().rest.len(), cont_count(self.model(), num_pred()),
        {
            let ghost mpre = self.model();
            let ghost opre = out@;
            proof {
                assert(mpre.cur != 0 && num_pred()(mpre.cur));
            }
            out.push(self.cur_ch);
            self.read_char();
            proof {
                assert(take_run(mpre, num_pred()).0 == seq![mpre.cur] + take_run(
                    self.model(),
                    num_pred(),
                ).0);
                assert(out@ + take_run(self.model(), num_pred()).0 =~= opre + take_run(
                    mpre,
                    num_pred(),
                ).0);
            }
        }
        proof {
            assert(!(self.model().cur != 0 && num_pred()(self.model().cur)));
            assert(out@ + take_run(self.model(), num_pred()).0 =~= out@);
        }
        out
    }

    /// Reads a string literal: steps over the opening quote and collects
    /// bytes up to the closing quote.  An unterminated string ends at the
    /// exhausted source (zero byte) instead of reading forever.
    fn read_string(&mut self) -> (r: Vec<u8>)
        requires
            old(self).wf(),
        ensures
            final(self).wf(),
            r@ == take_run(shift(old(self).model()), str_pred()).0,
            final(self).model() == take_run(shift(old(self).model()), str_pred()).1,
    {
        self.read_char();
        let ghost m0 = self.model();
        let mut out: Vec<u8> = Vec::new();
        while self.cur_ch != ('"' as u8) && self.cur_ch != 0
            invariant
                self.wf(),
                out@ + take_run(self.model(), str_pred()).0 == take_run(m0, str_pred()).0,
                take_run(self.model(), str_pred()).1 == take_run(m0, str_pred()).1,
            decreases self.model().rest.len(), cont_count(self.model(), str_pred()),
        {
            let ghost mpre = self.model();
            let ghost opre = out@;
            proof {
                assert(mpre.cur != 0 && str_pred()(mpre.cur));
            }
            out.push(self.cur_ch);
            self.read_char();
            proof {
                assert(take_run(mpre, str_pred()).0 == seq![mpre.cur] + take_run(
                    self.model(),
                    str_pred(),
                ).0);
                assert(out@ + take_run(self.model(), str_pred()).0 =~= opre + take_run(
                    mpre,
                    str_pred(),
                ).0);
            }
        }
        proof {
            assert(!(self.model().cur != 0 && str_pred()(self.model().cur)));
            assert(out@ + take_run(self.model(), str_pred()).0 =~= out@);
        }
        out
    }

    /// Reads a comment: steps over the `;`, collects bytes to the end of
    /// the line (or the exhausted source), and trims surrounding
    /// whitespace.
    fn read_single_line_comment(&mut self) -> (r: Vec<u8>)
        requires
            old(self).wf(),
        ensures
            final(self).wf(),
            r@ == spec_trim(take_run(shift(old(self).model()), comment_pred()).0),
            final(self).model() == take_run(shift(old(self).model()), comment_pred()).1,
    {
        self.read_char();
        let ghost m0 = self.model();
        let mut out: Vec<u8> = Vec::new();
        while self.cur_ch != ('\n' as u8) && self.cur_ch != 0
            invariant
                self.wf(),
                out@ + take_run(self.model(), comment_pred()).0 == take_run(m0, comment_pred()).0,
                take_run(self.model(), comment_pred()).1 == take_run(m0, comment_pred()).1,
            decreases self.model().rest.len(), cont_count(self.model(), comment_pred()),
        {
            let ghost mpre = self.model();
            let ghost opre = out@;
            proof {
                assert(mpre.cur != 0 && comment_pred()(mpre.cur));
            }
            out.push(self.cur_ch);
            self.read_char();
            proof {
                assert(take_run(mpre, comment_pred()).0 == seq![mpre.cur] + take_run(
                    self.model(),
                    comment_pred(),
                ).0);
                assert(out@ + take_run(self.model(), comment_pred()).0 =~= opre + take_run(
                    mpre,
                    comment_pred(),
                ).0);
            }
        }
        proof {
            assert(!(self.model().cur != 0 && comment_pred()(self.model().cur)));
            assert(out@ + take_run(self.model(), comment_pred()).0 =~= out@);
        }
        trim_bytes(out.as_slice())
    }

    /// Produces the next token.  The stream never ends: an exhausted
    /// source yields `EOF` tokens forever.
    pub fn next_token(&mut self) -> (t: Token)
        requires
            old(self).wf(),
        ensures
            final(self).wf(),
            ({
                let (m2, ti) = lex_next(old(self).model());
                &&& final(self).model() == m2
                &&& t.name == ti.name
                &&& t.literal@ == ti.lit
                &&& t.line == ti.line
                &&& t.col == ti.col
            }),
    {
        if self.cur_ch == ('\n' as u8) {
            let t = Token::simple(TokenType::END_INST, self.line, self.col);
            self.reset_pos();
            self.read_char();
            return t;
        }
        self.devour_whitespace();
        let tok: Token;
        if self.cur_ch == (':' as u8) {
            self.read_char();
            let lit = self.read_identifier();
            tok = Token::with_literal(TokenType::LABEL, lit, self.line, self.col);
        } else if self.cur_ch == ('#' as u8) {
            tok = Token::simple(TokenType::IMMEDIATE, self.line, self.col);
        } else if self.cur_ch == (',' as u8) {
            tok = Token::simple(TokenType::COMMA, self.line, self.col);
        } else if self.cur_ch == ('"' as u8) {
            let lit = self.read_string();
            tok = Token::with_literal(TokenType::STRING, lit, self.line, self.col);
        } else if self.cur_ch == (';' as u8) {
            let col0 = self.col;
            let lit = self.read_single_line_comment();
            tok = Token::with_literal(TokenType::COMMENT, lit, self.line, col0);
            self.reset_pos();
        } else if self.cur_ch == ('%' as u8) {
            self.read_char();
            if self.cur_ch == ('S' as u8) && self.peek_ch == ('P' as u8) {
                self.read_char();
                let mut l: Vec<u8> = Vec::new();
                l.push('S' as u8);
                l.push('P' as u8);
                proof {
                    assert(l@ =~= seq![('S' as u8), ('P' as u8)]);
                }
                tok = Token::with_literal(TokenType::REGISTER, l, self.line, self.col);
            } else {
                let mut l: Vec<u8> = Vec::new();
                l.push(self.cur_ch);
                proof {
                    assert(l@ =~= seq![self.cur_ch]);
                }
                tok = Token::with_literal(TokenType::REGISTER, l, self.line, self.col);
            }
        } else if self.cur_ch == 0 {
            tok = Token::simple(TokenType::EOF, self.line, self.col);
        } else if is_letter(self.cur_ch) {
            let lit = self.read_identifier();
            let tt = TokenType::lookup_ident(lit.as_slice());
            return Token::with_literal(tt, lit, self.line, self.col);
        } else if is_digit(self.cur_ch) {
            let lit = self.read_number();
            return Token::with_literal(TokenType::NUMBER, lit, self.line, self.col);
        } else {
            tok = Token::simple(TokenType::ILLEGAL, self.line, self.col);
        }
        self.read_char();
        tok
    }
}

/// True for the bytes [`trim_bytes`] strips.
pub fn is_trim_ws(ch: u8) -> (r: bool)
    ensures
        r == spec_is_trim_ws(ch),
{
    ch == (' ' as u8) || ch == ('\t' as u8) || ch == ('\n' as u8) || ch == ('\r' as u8) || ch
        == 11 || ch == 12
}

/// Strips ASCII whitespace from both ends of a byte string.
pub fn trim_bytes(v: &[u8]) -> (r: Vec<u8>)
    ensures
        r@ == spec_trim(v@),
{
    let mut start: usize = 0;
    assert(v@.skip(0) =~= v@);
    while start < v.len() && is_trim_ws(v[start])
        invariant
            0 <= start <= v@.len(),
            trim_front(v@) == trim_front(v@.skip(start as int)),
        decreases v@.len() - start,
    {
        proof {
            assert(v@.skip(start as int).len() > 0);
            assert(v@.skip(start as int)[0] == v@[start as int]);
            assert(v@.skip(start as int).drop_first() =~= v@.skip(start as int + 1));
        }
        start += 1;
    }
    proof {
        if start < v@.len() {
            assert(v@.skip(start as int)[0] == v@[start as int]);
        }
        assert(trim_front(v@) == v@.skip(start as int));
    }
    let mut end: usize = v.len();
    while end > start && is_trim_ws(v[end - 1])
        invariant
            start <= end <= v@.len(),
            trim_front(v@) == v@.skip(start as int),
            trim_back(v@.skip(start as int)) == trim_back(
                v@.subrange(start as int, end as int),
            ),
        decreases end,
    {
        proof {
            let s = v@.subrange(start as int, end as int);
            assert(s.len() > 0);
            assert(s.last() == v@[end - 1]);
            assert(s.drop_last() =~= v@.subrange(start as int, end as int - 1));
        }
        end -= 1;
    }
    proof {
        let s = v@.subrange(start as int, end as int);
        if end > start {
            assert(s.last() == v@[end - 1]);
        }
        assert(trim_back(s) == s);
        assert(v@.skip(start as int) =~= v@.subrange(start as int, v@.len() as int));
        assert(spec_trim(v@) == v@.subrange(start as int, end as int));
    }
    let mut out: Vec<u8> = Vec::new();
    let mut i: usize = start;
    while i < end
        invariant
            start <= i <= end <= v@.len(),
            out@ == v@.subrange(start as int, i as int),
        decreases end - i,
    {
        out.push(v[i]);
        proof {
            assert(out@ =~= v@.subrange(start as int, i as int + 1));
        }
        i += 1;
    }
    out
}


/// How much lexing work is left: the undelivered bytes plus the
/// lookahead bytes still holding something.
pub open spec fn lex_measure(m: LexState) -> int {
    2 * m.rest.len() + (if m.cur != 0 {
        1int
    } else {
        0int
    }) + (if m.peek != 0 {
        1int
    } else {
        0int
    })
}

/// Sliding the window never adds work, and consumes some whenever the
/// current byte held anything.
proof fn lemma_shift_mono(m: LexState)
    ensures
        lex_measure(shift(m)) <= lex_measure(m),
        m.cur != 0 ==> lex_measure(shift(m)) < lex_measure(m),
{
    if m.rest.len() > 0 {
        assert(rest1(m.rest).len() == m.rest.len() - 1);
    }
}

/// A byte run never adds work.
proof fn lemma_take_run_mono(m: LexState, p: spec_fn(u8) -> bool)
    ensures
        lex_measure(take_run(m, p).1) <= lex_measure(m),
    decreases m.rest.len(), cont_count(m, p),
{
    if !(m.cur == 0 || !p(m.cur)) {
        lemma_shift_mono(m);
        lemma_take_run_mono(shift(m), p);
    }
}

/// A byte run that consumes at least one byte takes strictly less work
/// with it.
proof fn lemma_take_run_strict(m: LexState, p: spec_fn(u8) -> bool)
    requires
        m.cur != 0,
        p(m.cur),
    ensures
        lex_measure(take_run(m, p).1) < lex_measure(m),
{
    lemma_shift_mono(m);
    lemma_take_run_mono(shift(m), p);
}

/// Every token but `EOF` consumes work: reading tokens terminates once
/// the source is exhausted.
pub proof fn lemma_lex_next_progress(m: LexState)
    requires
        lex_next(m).1.name != TokenType::EOF,
    ensures
        lex_measure(lex_next(m).0) < lex_measure(m),
{
    if m.cur == ('\n' as u8) {
        let m1 = LexState { line: m.line.wrapping_add(1), col: 0, ..m };
        lemma_shift_mono(m1);
    } else {
        lemma_take_run_mono(m, ws_pred());
        assert(skip_ws(m) == take_run(m, ws_pred()).1);
        let m1 = skip_ws(m);
        if m1.cur == (':' as u8) {
            lemma_shift_mono(m1);
            let m2 = shift(m1);
            lemma_take_run_mono(m2, ident_pred());
            lemma_shift_mono(take_run(m2, ident_pred()).1);
        } else if m1.cur == ('#' as u8) || m1.cur == (',' as u8) {
            lemma_shift_mono(m1);
        } else if m1.cur == ('"' as u8) {
            lemma_shift_mono(m1);
            let m2 = shift(m1);
            lemma_take_run_mono(m2, str_pred());
            lemma_shift_mono(take_run(m2, str_pred()).1);
        } else if m1.cur == (';' as u8) {
            lemma_shift_mono(m1);
            let m2 = shift(m1);
            lemma_take_run_mono(m2, comment_pred());
            let m3 = take_run(m2, comment_pred()).1;
            lemma_shift_mono(LexState { line: m3.line.wrapping_add(1), col: 0, ..m3 });
        } else if m1.cur == ('%' as u8) {
            lemma_shift_mono(m1);
            let m2 = shift(m1);
            if m2.cur == ('S' as u8) && m2.peek == ('P' as u8) {
                lemma_shift_mono(m2);
                lemma_shift_mono(shift(m2));
            } else {
                lemma_shift_mono(m2);
            }
        } else if m1.cur == 0 {
            // the token would be EOF
        } else if spec_is_letter(m1.cur) {
            lemma_take_run_strict(m1, ident_pred());
        } else if spec_is_digit(m1.cur) {
            lemma_take_run_strict(m1, num_pred());
        } else {
            lemma_shift_mono(m1);
        }
    }
}

} // verus!
