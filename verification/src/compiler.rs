//! The compilation pipeline: source bytes through the lexer, the parser,
//! and the linker, down to the flat list of code sections the machine
//! loads.

use vstd::prelude::*;

use crate::lexer::Lexer;
use crate::linker::LinkError;
use crate::linker::link;
use crate::linker::link_post;
use crate::parser::Parser;
use crate::parser::ParserError;
use crate::program::Program;
use crate::program::code_of;
use crate::program::OverlapError;
use crate::program::validate_post;
use crate::token::Token;
use crate::token::TokenType;
use crate::vm::Code;

verus! {

/// A faithful record of a lexer run: the states the lexer passed
/// through, starting fresh over `src`, with each token being exactly
/// what one read in the corresponding state produces.
pub open spec fn lex_chain(src: Seq<u8>, sts: Seq<crate::lexer::LexState>, toks: Seq<Token>) -> bool {
    &&& sts.len() == toks.len() + 1
    &&& sts[0] == crate::lexer::spec_init(src)
    &&& forall|j: int|
        0 <= j < toks.len() ==> crate::lexer::lex_next(sts[j]) == (
        sts[j + 1],
        crate::parser::info_of(#[trigger] toks[j]),
        )
}

/// Runs the lexer to exhaustion: every token up to and including the
/// first `EOF`.  The tokens are exactly what repeated reads of a fresh
/// lexer over `src` produce.
pub fn tokenize(src: Vec<u8>) -> (r: Vec<Token>)
    ensures
        r@.len() >= 1,
        r@.last().name == TokenType::EOF,
        forall|j: int| 0 <= j < r@.len() - 1 ==> (#[trigger] r@[j]).name != TokenType::EOF,
        exists|sts: Seq<crate::lexer::LexState>| lex_chain(src@, sts, r@),
{
    let ghost sv = src@;
    let mut lexer = Lexer::new(src);
    let mut tokens: Vec<Token> = Vec::new();
    let ghost mut sts: Seq<crate::lexer::LexState> = seq![lexer.model()];
    loop
        invariant_except_break
            lexer.wf(),
            sts.len() == tokens@.len() + 1,
            sts[0] == crate::lexer::spec_init(sv),
            sts.last() == lexer.model(),
            forall|j: int|
                0 <= j < tokens@.len() ==> crate::lexer::lex_next(sts[j]) == (
                sts[j + 1],
                crate::parser::info_of(#[trigger] tokens@[j]),
                ),
            forall|j: int|
                0 <= j < tokens@.len() ==> (#[trigger] tokens@[j]).name != TokenType::EOF,
        ensures
            lex_chain(sv, sts, tokens@),
            tokens@.len() >= 1,
            tokens@.last().name == TokenType::EOF,
            forall|j: int|
                0 <= j < tokens@.len() - 1 ==> (#[trigger] tokens@[j]).name != TokenType::EOF,
        decreases crate::lexer::lex_measure(lexer.model()),
    {
        let ghost mpre = lexer.model();
        let t = lexer.next_token();
        proof {
            sts = sts.push(lexer.model());
            assert(crate::parser::info_of(t) == crate::lexer::lex_next(mpre).1);
        }
        let is_eof = t.name == TokenType::EOF;
        tokens.push(t);
        proof {
            assert(sts[sts.len() - 2] == mpre);
            if !is_eof {
                crate::lexer::lemma_lex_next_progress(mpre);
            }
        }
        if is_eof {
            break ;
        }
    }
    tokens
}

/// Compiles a source text: lexes it, parses it into a relocatable
/// program, resolves every pending link, and flattens the regions into
/// code sections.  The whole pipeline is pinned: the tokens are the
/// lexer's run over the source, the parse is a statement chain over
/// those tokens, and on success the returned sections are the flattened,
/// fully linked, validated program — ordered by origin and free of
/// overlap.  On failure the error is the first failing statement's, the
/// region overlap, or the first unresolved link.
pub fn compile(src: Vec<u8>) -> (r: Result<Code, CompileError>)
    ensures
        r matches Ok(code) ==> {
            &&& code@.len() >= 1
            &&& forall|i: int, j: int|
                0 <= i < j < code@.len() ==> (#[trigger] code@[i]).org <= (#[trigger] code@[j]).org
            &&& forall|i: int|
                0 <= i < code@.len() - 1 ==> (#[trigger] code@[i]).org + code@[i].code@.len()
                    <= code@[i + 1].org
        },
        exists|toks: Seq<Token>, sts: Seq<crate::lexer::LexState>, p0: Parser|
            #![trigger lex_chain(src@, sts, toks), crate::parser::parser_init_post(toks, p0)]
            {
                &&& lex_chain(src@, sts, toks)
                &&& toks.len() >= 1
                &&& toks.last().name == TokenType::EOF
                &&& crate::parser::parser_init_post(toks, p0)
                &&& exists|ps: Seq<Parser>|
                    #![trigger crate::parser::parse_chain(p0, ps)]
                    crate::parser::parse_chain(p0, ps) && (match r {
                        Ok(code) => exists|vp: Program, lp: Program|
                            #![all_triggers]
                            {
                                &&& ps.last().tok_at(0).name == TokenType::EOF
                                &&& validate_post(ps.last().prog, vp, Ok(()))
                                &&& link_post(vp, lp, Ok(()))
                                &&& code_of(lp, code@)
                            },
                        Err(CompileError::Parse(e)) => (ps.last().tok_at(0).name
                            == TokenType::EOF && exists|vp: Program, oe: OverlapError|
                            #![all_triggers]
                            (validate_post(ps.last().prog, vp, Err(oe)) && e
                                == ParserError::ValidationError(oe.origin, oe.next_origin)))
                            || crate::parser::stmt_fails(ps.last(), e),
                        Err(CompileError::Link(e)) => exists|vp: Program, lp: Program|
                            #![all_triggers]
                            {
                                &&& ps.last().tok_at(0).name == TokenType::EOF
                                &&& validate_post(ps.last().prog, vp, Ok(()))
                                &&& link_post(vp, lp, Err(e))
                            },
                    })
            },
{
    let ghost srcv = src@;
    let tokens = tokenize(src);
    let ghost toksv = tokens@;
    let parser = Parser::new(tokens);
    let ghost p0g = parser;
    let mut prog = match parser.parse() {
        Ok(p) => p,
        Err(e) => {
            proof {
                let sts = choose|sts: Seq<crate::lexer::LexState>| lex_chain(srcv, sts, toksv);
                let psw = choose|ps: Seq<Parser>|
                    crate::parser::parse_chain(p0g, ps) && ((ps.last().tok_at(0).name
                        == TokenType::EOF && exists|vp: Program, oe: OverlapError|
                        #![all_triggers]
                        (validate_post(ps.last().prog, vp, Err(oe)) && e
                            == ParserError::ValidationError(oe.origin, oe.next_origin)))
                        || crate::parser::stmt_fails(ps.last(), e));
                assert(lex_chain(src@, sts, toksv));
                assert(crate::parser::parser_init_post(toksv, p0g));
                assert(crate::parser::parse_chain(p0g, psw));
            }
            return Err(CompileError::Parse(e));
        },
    };
    let ghost vpg = prog;
    match link(&mut prog) {
        Ok(_) => {
            let code = prog.to_code();
            proof {
                let sts = choose|sts: Seq<crate::lexer::LexState>| lex_chain(srcv, sts, toksv);
                let psw = choose|ps: Seq<Parser>|
                    crate::parser::parse_chain(p0g, ps) && ps.last().tok_at(0).name
                        == TokenType::EOF && validate_post(ps.last().prog, vpg, Ok(()));
                assert(lex_chain(src@, sts, toksv));
                assert(crate::parser::parser_init_post(toksv, p0g));
                assert(crate::parser::parse_chain(p0g, psw));
                assert(link_post(vpg, prog, Ok(())));
                assert(code_of(prog, code@));
                assert forall|i: int, j: int| 0 <= i < j < code@.len() implies (
                #[trigger] code@[i]).org <= (#[trigger] code@[j]).org by {
                    assert(prog.parts@[i].start_pc <= prog.parts@[j].start_pc);
                }
                assert forall|i: int| 0 <= i < code@.len() - 1 implies (#[trigger] code@[i]).org
                    + code@[i].code@.len() <= code@[i + 1].org by {
                    assert(prog.parts@[i].start_pc + prog.parts@[i].bytes@.len()
                        <= prog.parts@[i + 1].start_pc);
                }
            }
            Ok(code)
        },
        Err(e) => {
            proof {
                let sts = choose|sts: Seq<crate::lexer::LexState>| lex_chain(srcv, sts, toksv);
                let psw = choose|ps: Seq<Parser>|
                    crate::parser::parse_chain(p0g, ps) && ps.last().tok_at(0).name
                        == TokenType::EOF && validate_post(ps.last().prog, vpg, Ok(()));
                assert(lex_chain(src@, sts, toksv));
                assert(crate::parser::parser_init_post(toksv, p0g));
                assert(crate::parser::parse_chain(p0g, psw));
                assert(link_post(vpg, prog, Err(e)));
            }
            Err(CompileError::Link(e))
        },
    }
}

/// A failure anywhere in the pipeline.
#[derive(Debug)]
pub enum CompileError {
    Parse(ParserError),
    Link(LinkError),
}

} // verus!
