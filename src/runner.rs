//! The whole pipeline on one source text: lex, parse, then run.
use vstd::prelude::*;
use crate::ast::{Stmt, StmtModel, stmts_view, lemma_stmts_view_push};
use crate::errors::{ErrorModel, InterpreterRuntimeError, InvalidTokenError, ParserError};
use crate::interpreter::{AstInterpreter, exec_list};
use crate::lexer::{lex_all, lemma_lex_all_ends_with_eof, tokenize};
use crate::parser::{Parser, parse_from, stmt_result};

verus! {

/// Why a source text did not run to its end.
pub enum SourceError {
    /// Lexical errors; no token was kept.
    Lexical(Vec<InvalidTokenError>),
    /// Syntax errors; nothing ran.
    Syntax(Vec<ParserError>),
    /// The runtime error that stopped the program.
    Runtime(InterpreterRuntimeError),
}

/// The errors among parse results, in order.
pub open spec fn parse_errors(rs: Seq<Result<StmtModel, ErrorModel>>) -> Seq<ErrorModel>
    decreases rs.len(),
{
    if rs.len() == 0 {
        Seq::empty()
    } else {
        match rs[0] {
            Ok(_) => parse_errors(rs.drop_first()),
            Err(e) => seq![e] + parse_errors(rs.drop_first()),
        }
    }
}

/// The statements among parse results, in order.
pub open spec fn parsed_statements(rs: Seq<Result<StmtModel, ErrorModel>>) -> Seq<StmtModel>
    decreases rs.len(),
{
    if rs.len() == 0 {
        Seq::empty()
    } else {
        match rs[0] {
            Ok(s) => seq![s] + parsed_statements(rs.drop_first()),
            Err(_) => parsed_statements(rs.drop_first()),
        }
    }
}

/// What parsing a source text gives, once it has lexed without error.
pub open spec fn parse_source(source: Seq<char>) -> Seq<Result<StmtModel, ErrorModel>> {
    parse_from(lex_all(source, 0).tokens, 0)
}

/// Lexes, parses and runs `source` on `interpreter`. Nothing runs unless
/// lexing and parsing both succeed; a runtime error stops the program.
pub fn run_source(source: &String, interpreter: &mut AstInterpreter) -> (r: Result<(), SourceError>)
    requires
        old(interpreter).wf(),
    ensures
        final(interpreter).wf(),
        lex_all(source@, 0).errors.len() > 0 ==> {
            &&& r matches Err(SourceError::Lexical(es))
            &&& es@.map_values(|e: InvalidTokenError| e@) == lex_all(source@, 0).errors
            &&& final(interpreter).frames() == old(interpreter).frames()
            &&& final(interpreter).output() == old(interpreter).output()
        },
        lex_all(source@, 0).errors.len() == 0 && parse_errors(parse_source(source@)).len() > 0 ==> {
            &&& r matches Err(SourceError::Syntax(es))
            &&& es@.map_values(|e: ParserError| e@) == parse_errors(parse_source(source@))
            &&& final(interpreter).frames() == old(interpreter).frames()
            &&& final(interpreter).output() == old(interpreter).output()
        },
        lex_all(source@, 0).errors.len() == 0 && parse_errors(parse_source(source@)).len() == 0 ==> {
            let run = exec_list(parsed_statements(parse_source(source@)), 0, old(interpreter).frames(), old(interpreter).output());
            &&& final(interpreter).frames() == run.frames
            &&& final(interpreter).output() == run.output
            &&& match run.result {
                Ok(_) => r is Ok,
                Err(e) => r matches Err(SourceError::Runtime(x)) && x@ == e,
            }
        },
{
    let tokens = match tokenize(source) {
        Ok(tokens) => tokens,
        Err(errors) => return Err(SourceError::Lexical(errors)),
    };
    proof {
        lemma_lex_all_ends_with_eof(source@, 0);
    }
    let mut parser = Parser::new(&tokens);
    let mut results = parser.parse();
    let ghost all = results@.map_values(|x: Result<Stmt, ParserError>| stmt_result(x));
    let mut statements: Vec<Stmt> = Vec::new();
    let mut errors: Vec<ParserError> = Vec::new();
    proof {
        assert(stmts_view(statements@, 0) =~= Seq::<StmtModel>::empty());
        assert(errors@.map_values(|e: ParserError| e@) =~= Seq::<ErrorModel>::empty());
        assert(results@.map_values(|x: Result<Stmt, ParserError>| stmt_result(x)) == all);
    }
    while results.len() > 0
        invariant
            stmts_view(statements@, 0) + parsed_statements(results@.map_values(|x: Result<Stmt, ParserError>| stmt_result(x)))
                == parsed_statements(all),
            errors@.map_values(|e: ParserError| e@) + parse_errors(results@.map_values(|x: Result<Stmt, ParserError>| stmt_result(x)))
                == parse_errors(all),
        decreases results@.len(),
    {
        let ghost rest = results@.map_values(|x: Result<Stmt, ParserError>| stmt_result(x));
        let first = results.remove(0);
        proof {
            assert(results@.map_values(|x: Result<Stmt, ParserError>| stmt_result(x)) =~= rest.drop_first());
        }
        match first {
            Ok(s) => {
                let ghost before = statements@;
                statements.push(s);
                proof {
                    lemma_stmts_view_push(before, s, 0);
                    assert(stmts_view(before, 0) + parsed_statements(rest)
                        =~= stmts_view(before, 0).push(crate::ast::stmt_view(s)) + parsed_statements(rest.drop_first()));
                }
            },
            Err(e) => {
                let ghost before = errors@.map_values(|x: ParserError| x@);
                errors.push(e);
                proof {
                    assert(errors@.map_values(|x: ParserError| x@) =~= before.push(e@));
                    assert(before + parse_errors(rest) =~= before.push(e@) + parse_errors(rest.drop_first()));
                }
            },
        }
    }
    proof {
        assert(parsed_statements(Seq::<Result<StmtModel, ErrorModel>>::empty()) =~= Seq::<StmtModel>::empty());
        assert(stmts_view(statements@, 0) + Seq::<StmtModel>::empty() =~= stmts_view(statements@, 0));
        assert(errors@.map_values(|e: ParserError| e@) + Seq::<ErrorModel>::empty() =~= errors@.map_values(|e: ParserError| e@));
    }
    if errors.len() > 0 {
        return Err(SourceError::Syntax(errors));
    }
    match interpreter.interpret(&statements) {
        Ok(()) => Ok(()),
        Err(e) => Err(SourceError::Runtime(e)),
    }
}

} // verus!
