use simple_interpreter::interpreter::{Interpreter, NumNode, NumOp, Piece, RuntimeError, Value};
use simple_interpreter::lexer::{Lexer, ScanError};
use simple_interpreter::parser::{ParseError, Parser};
use simple_interpreter::session::{execute, LangError};
use simple_interpreter::tokens::Token;

fn number(interp: &Interpreter, i: usize) -> f64 {
    match &interp.numbers[i] {
        NumNode::Literal(text) => text.parse().unwrap(),
        NumNode::Apply(op, a, b) => {
            let x = number(interp, *a);
            let y = number(interp, *b);
            match op {
                NumOp::Add => x + y,
                NumOp::Sub => x - y,
                NumOp::Mul => x * y,
                NumOp::Div => x / y,
            }
        }
    }
}

fn show(interp: &Interpreter, v: &Value) -> String {
    match v {
        Value::Number(i) => format!("{}", number(interp, *i)),
        Value::String(ps) => {
            let mut s = String::new();
            for p in ps {
                match p {
                    Piece::Text(t) => s.push_str(t),
                    Piece::Num(i) => s.push_str(&format!("{}", number(interp, *i))),
                }
            }
            s
        }
    }
}

fn run_on(interp: &mut Interpreter, src: &str) -> (Vec<String>, Result<(), LangError>) {
    let r = execute(interp, src);
    let out = interp.take_output();
    (out.iter().map(|v| show(interp, v)).collect(), r)
}

fn run(src: &str) -> (Vec<String>, Result<(), LangError>) {
    let mut interp = Interpreter::new();
    run_on(&mut interp, src)
}

fn output_of(src: &str) -> Vec<String> {
    let (out, r) = run(src);
    assert!(r.is_ok(), "{:?}", r);
    out
}

#[test]
fn declared_int_prints_its_literal() {
    assert_eq!(output_of("int x = 5; print x;"), vec!["5"]);
}

#[test]
fn declared_string_prints_its_literal() {
    assert_eq!(output_of("string s = \"hi\"; print s;"), vec!["hi"]);
}

#[test]
fn fractional_literal_prints_shortest_form() {
    assert_eq!(output_of("int x = 5.5; print x; print 5.0;"), vec!["5.5", "5"]);
}

#[test]
fn redeclaration_is_rejected() {
    let (_, r) = run("int x = 1; int x = 2;");
    assert!(matches!(r, Err(LangError::Runtime(RuntimeError::AlreadyDefined(ref n))) if n == "x"));
}

#[test]
fn redeclaration_with_other_type_is_rejected() {
    let (_, r) = run("int x = 1; string x = \"a\";");
    assert!(matches!(r, Err(LangError::Runtime(RuntimeError::AlreadyDefined(ref n))) if n == "x"));
}

#[test]
fn assignment_of_wrong_type_is_rejected() {
    let (_, r) = run("int x = 1; x = \"a\";");
    assert!(matches!(
        r,
        Err(LangError::Runtime(RuntimeError::TypeMismatch { ref name, expected: simple_interpreter::interpreter::VarInfo::Int })) if name == "x"
    ));
}

#[test]
fn declaration_of_wrong_type_is_rejected() {
    let (_, r) = run("string s = 3;");
    assert!(matches!(r, Err(LangError::Runtime(RuntimeError::TypeMismatch { .. }))));
}

#[test]
fn assignment_of_same_type_updates() {
    assert_eq!(output_of("int x = 1; x = 2; print x;"), vec!["2"]);
}

#[test]
fn plus_concatenates_in_order() {
    assert_eq!(output_of("print \"x=\" + 5;"), vec!["x=5"]);
    assert_eq!(output_of("print 5 + \"x=\";"), vec!["5x="]);
    assert_eq!(output_of("print \"a\" + \"b\" + 1 + 2;"), vec!["ab12"]);
    assert_eq!(output_of("print 1 + 2 + \"a\";"), vec!["3a"]);
}

#[test]
fn numeric_plus_commutes() {
    assert_eq!(output_of("print 2 + 3.5; print 3.5 + 2;"), vec!["5.5", "5.5"]);
}

#[test]
fn precedence_and_associativity() {
    assert_eq!(output_of("print 2 + 3 * 4;"), vec!["14"]);
    assert_eq!(output_of("print (2 + 3) * 4;"), vec!["20"]);
    assert_eq!(output_of("print 10 - 3 - 2;"), vec!["5"]);
    assert_eq!(output_of("print 8 / 4 / 2;"), vec!["1"]);
}

#[test]
fn unary_minus() {
    assert_eq!(output_of("print -5;"), vec!["-5"]);
    assert_eq!(output_of("print --5;"), vec!["5"]);
    assert_eq!(output_of("int x = 3; print -x * 2;"), vec!["-6"]);
}

#[test]
fn division_by_zero_is_not_an_error() {
    assert_eq!(output_of("print 1/0;"), vec!["inf"]);
    assert_eq!(output_of("print 0/0;"), vec!["NaN"]);
}

#[test]
fn undefined_variable_read_fails() {
    let (_, r) = run("print y;");
    assert!(matches!(r, Err(LangError::Runtime(RuntimeError::UndefinedVariable(ref n))) if n == "y"));
}

#[test]
fn undefined_variable_write_fails() {
    let (_, r) = run("y = 1;");
    assert!(matches!(r, Err(LangError::Runtime(RuntimeError::UndefinedVariable(ref n))) if n == "y"));
}

#[test]
fn string_subtraction_fails() {
    let (_, r) = run("print \"a\" - \"b\";");
    assert!(matches!(r, Err(LangError::Runtime(RuntimeError::UnsupportedOperands(NumOp::Sub)))));
    let (_, r) = run("print 2 * \"b\";");
    assert!(matches!(r, Err(LangError::Runtime(RuntimeError::UnsupportedOperands(NumOp::Mul)))));
    let (_, r) = run("print \"a\" / 2;");
    assert!(matches!(r, Err(LangError::Runtime(RuntimeError::UnsupportedOperands(NumOp::Div)))));
}

#[test]
fn prints_before_an_error_are_kept() {
    let (out, r) = run("print 1; print y; print 2;");
    assert_eq!(out, vec!["1"]);
    assert!(r.is_err());
}

#[test]
fn session_keeps_variables_between_lines() {
    let mut interp = Interpreter::new();
    let (_, r) = run_on(&mut interp, "int x = 1;");
    assert!(r.is_ok());
    let (out, r) = run_on(&mut interp, "x = x + 1; print x;");
    assert!(r.is_ok());
    assert_eq!(out, vec!["2"]);
    let (_, r) = run_on(&mut interp, "print y;");
    assert!(r.is_err());
    let (out, r) = run_on(&mut interp, "print x;");
    assert!(r.is_ok());
    assert_eq!(out, vec!["2"]);
}

#[test]
fn fresh_interpreter_starts_empty() {
    let mut first = Interpreter::new();
    assert!(run_on(&mut first, "int x = 1;").1.is_ok());
    let (_, r) = run("print x;");
    assert!(matches!(r, Err(LangError::Runtime(RuntimeError::UndefinedVariable(_)))));
}

#[test]
fn unexpected_character_is_a_scan_error() {
    let (_, r) = run("print 1 @ 2;");
    assert!(matches!(r, Err(LangError::Scan(ScanError::UnexpectedCharacter('@', 8)))));
}

#[test]
fn malformed_number_is_a_scan_error() {
    let (_, r) = run("print 1.2.3;");
    assert!(matches!(r, Err(LangError::Scan(ScanError::MalformedNumber(6)))));
    let (_, r) = run("print .;");
    assert!(matches!(r, Err(LangError::Scan(ScanError::MalformedNumber(6)))));
}

#[test]
fn parse_errors() {
    let (_, r) = run("print 1");
    assert!(matches!(r, Err(LangError::Parse(ParseError::ExpectedSemicolon(2)))));
    let (_, r) = run("int = 5;");
    assert!(matches!(r, Err(LangError::Parse(ParseError::ExpectedVariableName(1)))));
    let (_, r) = run("int x 5;");
    assert!(matches!(r, Err(LangError::Parse(ParseError::ExpectedEquals(2)))));
    let (_, r) = run("print (1 + 2;");
    assert!(matches!(r, Err(LangError::Parse(ParseError::ExpectedRightParen(5)))));
    let (_, r) = run("print ;");
    assert!(matches!(r, Err(LangError::Parse(ParseError::ExpectedExpression(1)))));
}

#[test]
fn parse_error_runs_nothing() {
    let (out, r) = run("print 1; print 2");
    assert!(out.is_empty());
    assert!(matches!(r, Err(LangError::Parse(_))));
}

#[test]
fn lexer_produces_tokens_and_end_marker() {
    let mut lexer = Lexer::new("int x1 = \"a b\";");
    let tokens = lexer.tokenize().unwrap();
    assert_eq!(tokens.len(), 6);
    assert!(matches!(tokens[0], Token::Int));
    assert!(matches!(tokens[1], Token::Identifier(ref n) if n == "x1"));
    assert!(matches!(tokens[2], Token::Equals));
    assert!(matches!(tokens[3], Token::String(ref s) if s == "a b"));
    assert!(matches!(tokens[4], Token::Semicolon));
    assert!(matches!(tokens[5], Token::EOF));
}

#[test]
fn lexer_reads_keywords_and_numbers() {
    let mut lexer = Lexer::new("print string _a 12.5");
    let tokens = lexer.tokenize().unwrap();
    assert!(matches!(tokens[0], Token::Print));
    assert!(matches!(tokens[1], Token::StringType));
    assert!(matches!(tokens[2], Token::Identifier(ref n) if n == "_a"));
    assert!(matches!(tokens[3], Token::Number(ref n) if n == "12.5"));
    assert!(matches!(tokens[4], Token::EOF));
}

#[test]
fn parser_builds_one_statement_per_semicolon() {
    let mut lexer = Lexer::new("int x = 1; x = 2; print x; x;");
    let tokens = lexer.tokenize().unwrap();
    let mut parser = Parser::new(tokens);
    let stmts = parser.parse().unwrap();
    assert_eq!(stmts.len(), 4);
}

#[test]
fn empty_program_does_nothing() {
    assert!(output_of("").is_empty());
    assert!(output_of("   \n\t").is_empty());
}

#[test]
fn unterminated_string_runs_to_end() {
    let (_, r) = run("print \"abc");
    assert!(matches!(r, Err(LangError::Parse(ParseError::ExpectedSemicolon(2)))));
}
