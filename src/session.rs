use vstd::prelude::*;
use crate::interpreter::{ErrorV, Interpreter, RuntimeError, State, run};
use crate::lexer::{Lexer, ScanError, scan, scan_from, number_end, ident_end, quote_end, symbol,
    is_whitespace, starts_number, starts_identifier, keyword_or_identifier};
use crate::parser::{ParseError, Parser, parse_program, terminated};
use crate::tokens::Tok;

verus! {

/// Why one evaluation unit (a file, or one interactive line) failed.
#[derive(Debug)]
pub enum LangError {
    Scan(ScanError),
    Parse(ParseError),
    Runtime(RuntimeError),
}

pub enum Failure {
    Scan(ScanError),
    Parse(ParseError),
    Runtime(ErrorV),
}

impl View for LangError {
    type V = Failure;

    open spec fn view(&self) -> Failure {
        match self {
            LangError::Scan(e) => Failure::Scan(*e),
            LangError::Parse(e) => Failure::Parse(*e),
            LangError::Runtime(e) => Failure::Runtime(e@),
        }
    }
}

/// One evaluation unit: scan, parse, then run against the state. A scan or
/// parse error leaves the state as it was; a runtime error keeps what the
/// statements before it did.
pub open spec fn execute_spec(s: State, source: Seq<char>) -> (State, Result<(), Failure>) {
    match scan(source) {
        Err(e) => (s, Err(Failure::Scan(e))),
        Ok(ts) => match parse_program(ts) {
            Err(e) => (s, Err(Failure::Parse(e))),
            Ok(stmts) => {
                let (s1, r) = run(s, stmts);
                (s1, match r {
                    Ok(()) => Ok(()),
                    Err(e) => Err(Failure::Runtime(e)),
                })
            },
        },
    }
}

proof fn lemma_scan_terminated(s: Seq<char>, i: int)
    requires
        0 <= i <= s.len(),
        scan_from(s, i) is Ok,
    ensures
        terminated(scan_from(s, i)->Ok_0),
    decreases s.len() - i,
{
    if i < s.len() {
        crate::lexer::lemma_scan_steps(s, i);
        let c = s[i];
        if is_whitespace(c) {
            lemma_scan_terminated(s, i + 1);
        } else if symbol(c) is Some {
            lemma_scan_terminated(s, i + 1);
            let ts = scan_from(s, i + 1)->Ok_0;
            assert((seq![symbol(c)->0] + ts).last() == ts.last());
        } else if c == '"' {
            let j = quote_end(s, i + 1);
            let k = if j < s.len() { j + 1 } else { j };
            lemma_scan_terminated(s, k);
            let ts = scan_from(s, k)->Ok_0;
            assert((seq![Tok::Str(s.subrange(i + 1, j))] + ts).last() == ts.last());
        } else if starts_number(c) {
            let j = number_end(s, i);
            lemma_scan_terminated(s, j);
            let ts = scan_from(s, j)->Ok_0;
            assert((seq![Tok::Number(s.subrange(i, j))] + ts).last() == ts.last());
        } else if starts_identifier(c) {
            let j = ident_end(s, i + 1);
            lemma_scan_terminated(s, j);
            let ts = scan_from(s, j)->Ok_0;
            assert((seq![keyword_or_identifier(s.subrange(i, j))] + ts).last() == ts.last());
        }
    }
}

/// Scans, parses and runs a source text against the interpreter's state.
pub fn execute(interpreter: &mut Interpreter, source: &str) -> (r: Result<(), LangError>)
    requires
        old(interpreter).wf(),
    ensures
        final(interpreter).wf(),
        execute_spec(old(interpreter)@, source@) == (final(interpreter)@, match r {
            Ok(()) => Ok::<(), Failure>(()),
            Err(e) => Err(e@),
        }),
{
    let mut lexer = Lexer::new(source);
    let tokens = match lexer.tokenize() {
        Ok(t) => t,
        Err(e) => {
            return Err(LangError::Scan(e));
        },
    };
    proof {
        lemma_scan_terminated(source@, 0);
    }
    let mut parser = Parser::new(tokens);
    let expressions = match parser.parse() {
        Ok(v) => v,
        Err(e) => {
            return Err(LangError::Parse(e));
        },
    };
    match interpreter.interpret(expressions) {
        Ok(()) => Ok(()),
        Err(e) => Err(LangError::Runtime(e)),
    }
}

} // verus!
