use vstd::prelude::*;
use crate::ast::{Expr, Node, VarType, nodes};
use crate::tokens::{Token, Tok, toks, same_token};

verus! {

/// Why parsing stopped, with the position of the offending token.
#[derive(Debug, Clone, Copy, PartialEq, Eq, Structural)]
pub enum ParseError {
    ExpectedExpression(usize),
    ExpectedVariableName(usize),
    ExpectedEquals(usize),
    ExpectedSemicolon(usize),
    ExpectedRightParen(usize),
}

/// The token at `p`; past the end, the end-of-input marker.
pub open spec fn tok_at(t: Seq<Tok>, p: int) -> Tok {
    if 0 <= p < t.len() {
        t[p]
    } else {
        Tok::EOF
    }
}

/// Every sub-parse that succeeds consumes at least one token and stays
/// within the stream; the grammar functions test this before they go on,
/// which keeps their recursion well founded.
pub open spec fn advances(t: Seq<Tok>, p: int, q: int) -> bool {
    p < q <= t.len()
}

/// The numeral that unary minus subtracts from.
pub open spec fn zero_numeral() -> Seq<char> {
    seq!['0']
}

/// `expression := term`
pub open spec fn parse_expression(t: Seq<Tok>, p: int) -> Result<(Node, int), ParseError>
    decreases t.len() - p, 5int,
{
    parse_term(t, p)
}

/// `term := factor ( ("+" | "-") factor )*`, folded to the left.
pub open spec fn parse_term(t: Seq<Tok>, p: int) -> Result<(Node, int), ParseError>
    decreases t.len() - p, 4int,
{
    match parse_factor(t, p) {
        Ok((l, q)) => if advances(t, p, q) {
            term_rest(t, q, l)
        } else {
            Err(ParseError::ExpectedExpression(p as usize))
        },
        Err(e) => Err(e),
    }
}

pub open spec fn term_rest(t: Seq<Tok>, q: int, l: Node) -> Result<(Node, int), ParseError>
    decreases t.len() - q, 3int,
{
    let op = tok_at(t, q);
    if op is Plus || op is Minus {
        match parse_factor(t, q + 1) {
            Ok((r, q2)) => if advances(t, q, q2) {
                term_rest(t, q2, Node::Binary { left: Box::new(l), operator: op, right: Box::new(r) })
            } else {
                Err(ParseError::ExpectedExpression(q as usize))
            },
            Err(e) => Err(e),
        }
    } else {
        Ok((l, q))
    }
}

/// `factor := unary ( ("*" | "/") unary )*`, folded to the left.
pub open spec fn parse_factor(t: Seq<Tok>, p: int) -> Result<(Node, int), ParseError>
    decreases t.len() - p, 2int,
{
    match parse_unary(t, p) {
        Ok((l, q)) => if advances(t, p, q) {
            factor_rest(t, q, l)
        } else {
            Err(ParseError::ExpectedExpression(p as usize))
        },
        Err(e) => Err(e),
    }
}

pub open spec fn factor_rest(t: Seq<Tok>, q: int, l: Node) -> Result<(Node, int), ParseError>
    decreases t.len() - q, 2int,
{
    let op = tok_at(t, q);
    if op is Star || op is Slash {
        match parse_unary(t, q + 1) {
            Ok((r, q2)) => if advances(t, q, q2) {
                factor_rest(t, q2, Node::Binary { left: Box::new(l), operator: op, right: Box::new(r) })
            } else {
                Err(ParseError::ExpectedExpression(q as usize))
            },
            Err(e) => Err(e),
        }
    } else {
        Ok((l, q))
    }
}

/// `unary := "-" unary | primary`; `-e` is `0 - e`.
pub open spec fn parse_unary(t: Seq<Tok>, p: int) -> Result<(Node, int), ParseError>
    decreases t.len() - p, 1int,
{
    if tok_at(t, p) is Minus {
        match parse_unary(t, p + 1) {
            Ok((r, q)) => Ok((
                Node::Binary {
                    left: Box::new(Node::Number(zero_numeral())),
                    operator: Tok::Minus,
                    right: Box::new(r),
                },
                q,
            )),
            Err(e) => Err(e),
        }
    } else {
        parse_primary(t, p)
    }
}

/// `primary := NUMBER | STRING | IDENTIFIER | "(" expression ")"`
pub open spec fn parse_primary(t: Seq<Tok>, p: int) -> Result<(Node, int), ParseError>
    decreases t.len() - p, 0int,
{
    match tok_at(t, p) {
        Tok::Number(x) => Ok((Node::Number(x), p + 1)),
        Tok::Str(x) => Ok((Node::Str(x), p + 1)),
        Tok::Identifier(x) => Ok((Node::Variable(x), p + 1)),
        Tok::LParen => match parse_expression(t, p + 1) {
            Ok((e, q)) => if tok_at(t, q) is RParen {
                Ok((e, q + 1))
            } else {
                Err(ParseError::ExpectedRightParen(q as usize))
            },
            Err(e) => Err(e),
        },
        _ => Err(ParseError::ExpectedExpression(p as usize)),
    }
}

/// A statement ended by `;` at `q`.
pub open spec fn ended(t: Seq<Tok>, s: Node, q: int) -> Result<(Node, int), ParseError> {
    if tok_at(t, q) is Semicolon {
        Ok((s, q + 1))
    } else {
        Err(ParseError::ExpectedSemicolon(q as usize))
    }
}

/// `varDeclaration := ("int" | "string") IDENTIFIER "=" expression ";"`
pub open spec fn parse_var_declaration(t: Seq<Tok>, p: int) -> Result<(Node, int), ParseError> {
    let var_type = if tok_at(t, p) is Int { VarType::Int } else { VarType::StringType };
    match tok_at(t, p + 1) {
        Tok::Identifier(name) => if tok_at(t, p + 2) is Equals {
            match parse_expression(t, p + 3) {
                Ok((v, q)) => ended(
                    t,
                    Node::VarDeclaration { var_type, name, value: Box::new(v) },
                    q,
                ),
                Err(e) => Err(e),
            }
        } else {
            Err(ParseError::ExpectedEquals((p + 2) as usize))
        },
        _ => Err(ParseError::ExpectedVariableName((p + 1) as usize)),
    }
}

/// `assignment := expression ( "=" expression )?`, where the `=` is taken
/// only after a bare variable.
pub open spec fn parse_assignment(t: Seq<Tok>, p: int) -> Result<(Node, int), ParseError> {
    match parse_expression(t, p) {
        Ok((e, q)) => match e {
            Node::Variable(name) => if tok_at(t, q) is Equals {
                match parse_expression(t, q + 1) {
                    Ok((v, q2)) => Ok((Node::Assignment { name, value: Box::new(v) }, q2)),
                    Err(e) => Err(e),
                }
            } else {
                Ok((e, q))
            },
            _ => Ok((e, q)),
        },
        Err(e) => Err(e),
    }
}

/// `statement := "print" expression ";" | varDeclaration | assignment ";"`
pub open spec fn parse_statement(t: Seq<Tok>, p: int) -> Result<(Node, int), ParseError> {
    let first = tok_at(t, p);
    if first is Print {
        match parse_expression(t, p + 1) {
            Ok((e, q)) => ended(t, Node::Print(Box::new(e)), q),
            Err(e) => Err(e),
        }
    } else if first is Int || first is StringType {
        parse_var_declaration(t, p)
    } else {
        match parse_assignment(t, p) {
            Ok((e, q)) => ended(t, e, q),
            Err(e) => Err(e),
        }
    }
}

/// `program := statement* END`, from position `p` on.
pub open spec fn parse_from(t: Seq<Tok>, p: int) -> Result<Seq<Node>, ParseError>
    decreases t.len() - p,
{
    if tok_at(t, p) is EOF {
        Ok(Seq::empty())
    } else {
        match parse_statement(t, p) {
            Ok((s, q)) => if advances(t, p, q) {
                match parse_from(t, q) {
                    Ok(rest) => Ok(seq![s] + rest),
                    Err(e) => Err(e),
                }
            } else {
                Err(ParseError::ExpectedExpression(p as usize))
            },
            Err(e) => Err(e),
        }
    }
}

/// The statements of a whole token stream.
pub open spec fn parse_program(t: Seq<Tok>) -> Result<Seq<Node>, ParseError> {
    parse_from(t, 0)
}

/// A token stream as the scanner makes it: ended by the end-of-input marker.
pub open spec fn terminated(t: Seq<Tok>) -> bool {
    t.len() > 0 && t.last() is EOF
}

/// What a parse that started at some position and ended at `q` amounts to.
pub open spec fn outcome(r: Result<Expr, ParseError>, q: int) -> Result<(Node, int), ParseError> {
    match r {
        Ok(e) => Ok((e@, q)),
        Err(e) => Err(e),
    }
}

/// A recursive-descent parser with one token of lookahead.
pub struct Parser {
    tokens: Vec<Token>,
    current: usize,
}

impl Parser {
    /// The models of the tokens being parsed.
    pub closed spec fn stream(&self) -> Seq<Tok> {
        toks(self.tokens@)
    }

    /// The position of the lookahead token.
    pub closed spec fn pos(&self) -> int {
        self.current as int
    }

    pub closed spec fn wf(&self) -> bool {
        terminated(self.stream()) && self.current < self.tokens.len()
    }

    pub fn new(tokens: Vec<Token>) -> (r: Parser)
        requires
            terminated(toks(tokens@)),
        ensures
            r.wf(),
            r.stream() == toks(tokens@),
            r.pos() == 0,
    {
        Parser { tokens, current: 0 }
    }

    /// Parses statements up to the end-of-input marker.
    pub fn parse(&mut self) -> (r: Result<Vec<Expr>, ParseError>)
        requires
            old(self).wf(),
        ensures
            parse_from(old(self).stream(), old(self).pos()) == match r {
                Ok(v) => Ok::<Seq<Node>, ParseError>(nodes(v@)),
                Err(e) => Err(e),
            },
    {
        let ghost t = self.stream();
        let ghost p0 = self.pos();
        let mut expressions: Vec<Expr> = Vec::new();
        while !self.is_at_end()
            invariant
                self.wf(),
                self.stream() == t,
                t == old(self).stream(),
                p0 == old(self).pos(),
                parse_from(t, p0) == match parse_from(t, self.pos()) {
                    Ok(rest) => Ok::<Seq<Node>, ParseError>(nodes(expressions@) + rest),
                    Err(e) => Err(e),
                },
            decreases t.len() - self.current,
        {
            let ghost pre = nodes(expressions@);
            let ghost p = self.pos();
            let s = match self.statement() {
                Ok(s) => s,
                Err(e) => {
                    return Err(e);
                },
            };
            proof {
                if let Ok(rest) = parse_from(t, self.pos()) {
                    assert(pre.push(s@) + rest =~= pre + (seq![s@] + rest));
                }
            }
            expressions.push(s);
            assert(nodes(expressions@) =~= pre.push(s@));
        }
        assert(nodes(expressions@) + Seq::<Node>::empty() =~= nodes(expressions@));
        Ok(expressions)
    }

    fn statement(&mut self) -> (r: Result<Expr, ParseError>)
        requires
            old(self).wf(),
            !(tok_at(old(self).stream(), old(self).pos()) is EOF),
        ensures
            final(self).wf(),
            final(self).stream() == old(self).stream(),
            outcome(r, final(self).pos()) == parse_statement(old(self).stream(), old(self).pos()),
            r is Ok ==> advances(old(self).stream(), old(self).pos(), final(self).pos()),
    {
        if self.match_token(&Token::Print) {
            let expr = match self.expression() {
                Ok(e) => e,
                Err(e) => {
                    return Err(e);
                },
            };
            match self.consume(&Token::Semicolon) {
                Ok(()) => Ok(Expr::Print(Box::new(expr))),
                Err(e) => Err(e),
            }
        } else if self.check_type_declaration() {
            self.var_declaration()
        } else {
            let expr = match self.assignment() {
                Ok(e) => e,
                Err(e) => {
                    return Err(e);
                },
            };
            match self.consume(&Token::Semicolon) {
                Ok(()) => Ok(expr),
                Err(e) => Err(e),
            }
        }
    }

    fn var_declaration(&mut self) -> (r: Result<Expr, ParseError>)
        requires
            old(self).wf(),
            tok_at(old(self).stream(), old(self).pos()) is Int
                || tok_at(old(self).stream(), old(self).pos()) is StringType,
        ensures
            final(self).wf(),
            final(self).stream() == old(self).stream(),
            outcome(r, final(self).pos()) == parse_var_declaration(old(self).stream(), old(self).pos()),
            r is Ok ==> advances(old(self).stream(), old(self).pos(), final(self).pos()),
    {
        let var_type = if self.match_token(&Token::Int) {
            VarType::Int
        } else {
            self.advance();
            VarType::StringType
        };
        let name = match self.peek() {
            Token::Identifier(n) => n.clone(),
            _ => {
                return Err(ParseError::ExpectedVariableName(self.current));
            },
        };
        self.advance();
        if !self.check(&Token::Equals) {
            return Err(ParseError::ExpectedEquals(self.current));
        }
        self.advance();
        let value = match self.expression() {
            Ok(e) => e,
            Err(e) => {
                return Err(e);
            },
        };
        match self.consume(&Token::Semicolon) {
            Ok(()) => Ok(Expr::VarDeclaration { var_type, name, value: Box::new(value) }),
            Err(e) => Err(e),
        }
    }

    fn assignment(&mut self) -> (r: Result<Expr, ParseError>)
        requires
            old(self).wf(),
        ensures
            final(self).wf(),
            final(self).stream() == old(self).stream(),
            outcome(r, final(self).pos()) == parse_assignment(old(self).stream(), old(self).pos()),
            r is Ok ==> advances(old(self).stream(), old(self).pos(), final(self).pos()),
    {
        let expr = match self.expression() {
            Ok(e) => e,
            Err(e) => {
                return Err(e);
            },
        };
        match expr {
            Expr::Variable(name) => {
                if self.match_token(&Token::Equals) {
                    match self.expression() {
                        Ok(value) => Ok(Expr::Assignment { name, value: Box::new(value) }),
                        Err(e) => Err(e),
                    }
                } else {
                    Ok(Expr::Variable(name))
                }
            },
            _ => Ok(expr),
        }
    }

    fn expression(&mut self) -> (r: Result<Expr, ParseError>)
        requires
            old(self).wf(),
        ensures
            final(self).wf(),
            final(self).stream() == old(self).stream(),
            outcome(r, final(self).pos()) == parse_expression(old(self).stream(), old(self).pos()),
            r is Ok ==> advances(old(self).stream(), old(self).pos(), final(self).pos()),
        decreases old(self).stream().len() - old(self).pos(), 5int,
    {
        self.term()
    }

    fn term(&mut self) -> (r: Result<Expr, ParseError>)
        requires
            old(self).wf(),
        ensures
            final(self).wf(),
            final(self).stream() == old(self).stream(),
            outcome(r, final(self).pos()) == parse_term(old(self).stream(), old(self).pos()),
            r is Ok ==> advances(old(self).stream(), old(self).pos(), final(self).pos()),
        decreases old(self).stream().len() - old(self).pos(), 4int,
    {
        let ghost t = self.stream();
        let ghost p0 = self.pos();
        let mut expr = match self.factor() {
            Ok(e) => e,
            Err(e) => {
                return Err(e);
            },
        };
        while self.check(&Token::Plus) || self.check(&Token::Minus)
            invariant
                self.wf(),
                self.stream() == t,
                t == old(self).stream(),
                p0 == old(self).pos(),
                advances(t, p0, self.pos()),
                term_rest(t, self.pos(), expr@) == parse_term(t, p0),
            decreases t.len() - self.current,
        {
            let operator = if self.check(&Token::Plus) {
                Token::Plus
            } else {
                Token::Minus
            };
            self.advance();
            let right = match self.factor() {
                Ok(e) => e,
                Err(e) => {
                    return Err(e);
                },
            };
            expr = Expr::Binary { left: Box::new(expr), operator, right: Box::new(right) };
        }
        Ok(expr)
    }

    fn factor(&mut self) -> (r: Result<Expr, ParseError>)
        requires
            old(self).wf(),
        ensures
            final(self).wf(),
            final(self).stream() == old(self).stream(),
            outcome(r, final(self).pos()) == parse_factor(old(self).stream(), old(self).pos()),
            r is Ok ==> advances(old(self).stream(), old(self).pos(), final(self).pos()),
        decreases old(self).stream().len() - old(self).pos(), 2int,
    {
        let ghost t = self.stream();
        let ghost p0 = self.pos();
        let mut expr = match self.unary() {
            Ok(e) => e,
            Err(e) => {
                return Err(e);
            },
        };
        while self.check(&Token::Star) || self.check(&Token::Slash)
            invariant
                self.wf(),
                self.stream() == t,
                t == old(self).stream(),
                p0 == old(self).pos(),
                advances(t, p0, self.pos()),
                factor_rest(t, self.pos(), expr@) == parse_factor(t, p0),
            decreases t.len() - self.current,
        {
            let operator = if self.check(&Token::Star) {
                Token::Star
            } else {
                Token::Slash
            };
            self.advance();
            let right = match self.unary() {
                Ok(e) => e,
                Err(e) => {
                    return Err(e);
                },
            };
            expr = Expr::Binary { left: Box::new(expr), operator, right: Box::new(right) };
        }
        Ok(expr)
    }

    fn unary(&mut self) -> (r: Result<Expr, ParseError>)
        requires
            old(self).wf(),
        ensures
            final(self).wf(),
            final(self).stream() == old(self).stream(),
            outcome(r, final(self).pos()) == parse_unary(old(self).stream(), old(self).pos()),
            r is Ok ==> advances(old(self).stream(), old(self).pos(), final(self).pos()),
        decreases old(self).stream().len() - old(self).pos(), 1int,
    {
        if self.match_token(&Token::Minus) {
            match self.unary() {
                Ok(right) => {
                    let zero = String::from_str("0");
                    proof {
                        reveal_strlit("0");
                        assert(zero@ =~= zero_numeral());
                    }
                    let left = Expr::Number(zero);
                    assert(left@ == Node::Number(zero_numeral()));
                    Ok(Expr::Binary {
                        left: Box::new(left),
                        operator: Token::Minus,
                        right: Box::new(right),
                    })
                },
                Err(e) => Err(e),
            }
        } else {
            self.primary()
        }
    }

    fn primary(&mut self) -> (r: Result<Expr, ParseError>)
        requires
            old(self).wf(),
        ensures
            final(self).wf(),
            final(self).stream() == old(self).stream(),
            outcome(r, final(self).pos()) == parse_primary(old(self).stream(), old(self).pos()),
            r is Ok ==> advances(old(self).stream(), old(self).pos(), final(self).pos()),
        decreases old(self).stream().len() - old(self).pos(), 0int,
    {
        if self.match_number() {
            if let Token::Number(value) = self.previous() {
                return Ok(Expr::Number(value.clone()));
            }
        }
        if self.match_string() {
            if let Token::String(value) = self.previous() {
                return Ok(Expr::String(value.clone()));
            }
        }
        if self.match_identifier() {
            if let Token::Identifier(name) = self.previous() {
                return Ok(Expr::Variable(name.clone()));
            }
        }
        if self.match_token(&Token::LParen) {
            let expr = match self.expression() {
                Ok(e) => e,
                Err(e) => {
                    return Err(e);
                },
            };
            return match self.consume(&Token::RParen) {
                Ok(()) => Ok(expr),
                Err(_) => Err(ParseError::ExpectedRightParen(self.current)),
            };
        }
        Err(ParseError::ExpectedExpression(self.current))
    }

    /// Consumes the lookahead token if it equals `token_type`.
    fn match_token(&mut self, token_type: &Token) -> (r: bool)
        requires
            old(self).wf(),
            !(token_type@ is EOF),
        ensures
            final(self).wf(),
            final(self).stream() == old(self).stream(),
            r == (tok_at(old(self).stream(), old(self).pos()) == token_type@),
            final(self).pos() == if r { old(self).pos() + 1 } else { old(self).pos() },
    {
        if self.check(token_type) {
            self.advance();
            true
        } else {
            false
        }
    }

    fn match_number(&mut self) -> (r: bool)
        requires
            old(self).wf(),
        ensures
            final(self).wf(),
            final(self).stream() == old(self).stream(),
            r == (tok_at(old(self).stream(), old(self).pos()) is Number),
            final(self).pos() == if r { old(self).pos() + 1 } else { old(self).pos() },
    {
        if self.check_number() {
            self.advance();
            true
        } else {
            false
        }
    }

    fn check_number(&self) -> (r: bool)
        requires
            self.wf(),
        ensures
            r == (tok_at(self.stream(), self.pos()) is Number),
    {
        match self.peek() {
            Token::Number(_) => true,
            _ => false,
        }
    }

    fn match_string(&mut self) -> (r: bool)
        requires
            old(self).wf(),
        ensures
            final(self).wf(),
            final(self).stream() == old(self).stream(),
            r == (tok_at(old(self).stream(), old(self).pos()) is Str),
            final(self).pos() == if r { old(self).pos() + 1 } else { old(self).pos() },
    {
        if self.check_string() {
            self.advance();
            true
        } else {
            false
        }
    }

    fn check_string(&self) -> (r: bool)
        requires
            self.wf(),
        ensures
            r == (tok_at(self.stream(), self.pos()) is Str),
    {
        match self.peek() {
            Token::String(_) => true,
            _ => false,
        }
    }

    fn match_identifier(&mut self) -> (r: bool)
        requires
            old(self).wf(),
        ensures
            final(self).wf(),
            final(self).stream() == old(self).stream(),
            r == (tok_at(old(self).stream(), old(self).pos()) is Identifier),
            final(self).pos() == if r { old(self).pos() + 1 } else { old(self).pos() },
    {
        if self.check_identifier() {
            self.advance();
            true
        } else {
            false
        }
    }

    fn check_identifier(&self) -> (r: bool)
        requires
            self.wf(),
        ensures
            r == (tok_at(self.stream(), self.pos()) is Identifier),
    {
        match self.peek() {
            Token::Identifier(_) => true,
            _ => false,
        }
    }

    /// The token just consumed.
    fn previous(&self) -> (r: &Token)
        requires
            self.wf(),
            self.current > 0,
        ensures
            r@ == tok_at(self.stream(), self.pos() - 1),
    {
        &self.tokens[self.current - 1]
    }

    fn check(&self, token_type: &Token) -> (r: bool)
        requires
            self.wf(),
            !(token_type@ is EOF),
        ensures
            r == (tok_at(self.stream(), self.pos()) == token_type@),
    {
        if self.is_at_end() {
            return false;
        }
        same_token(self.peek(), token_type)
    }

    fn check_type_declaration(&self) -> (r: bool)
        requires
            self.wf(),
        ensures
            r == (tok_at(self.stream(), self.pos()) is Int || tok_at(self.stream(), self.pos()) is StringType),
    {
        match self.peek() {
            Token::Int | Token::StringType => true,
            _ => false,
        }
    }

    /// Consumes a required token, or fails with what was expected there.
    fn consume(&mut self, token_type: &Token) -> (r: Result<(), ParseError>)
        requires
            old(self).wf(),
            token_type@ is Semicolon || token_type@ is RParen,
        ensures
            final(self).wf(),
            final(self).stream() == old(self).stream(),
            tok_at(old(self).stream(), old(self).pos()) == token_type@ ==> r is Ok && final(self).pos() == old(self).pos() + 1,
            tok_at(old(self).stream(), old(self).pos()) != token_type@ ==> final(self).pos() == old(self).pos() && r == Err::<(), ParseError>(
                if token_type@ is Semicolon {
                    ParseError::ExpectedSemicolon(old(self).current)
                } else {
                    ParseError::ExpectedRightParen(old(self).current)
                },
            ),
    {
        if self.check(token_type) {
            self.advance();
            Ok(())
        } else if let Token::Semicolon = token_type {
            Err(ParseError::ExpectedSemicolon(self.current))
        } else {
            Err(ParseError::ExpectedRightParen(self.current))
        }
    }

    /// Moves past the lookahead token, unless it is the end-of-input marker.
    fn advance(&mut self)
        requires
            old(self).wf(),
        ensures
            final(self).wf(),
            final(self).stream() == old(self).stream(),
            final(self).pos() == if tok_at(old(self).stream(), old(self).pos()) is EOF {
                old(self).pos()
            } else {
                old(self).pos() + 1
            },
    {
        if !self.is_at_end() {
            self.current = self.current + 1;
        }
    }

    fn is_at_end(&self) -> (r: bool)
        requires
            self.wf(),
        ensures
            r == (tok_at(self.stream(), self.pos()) is EOF),
    {
        match self.peek() {
            Token::EOF => true,
            _ => false,
        }
    }

    fn peek(&self) -> (r: &Token)
        requires
            self.wf(),
        ensures
            r@ == tok_at(self.stream(), self.pos()),
    {
        &self.tokens[self.current]
    }
}

} // verus!
