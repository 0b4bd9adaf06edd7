use vstd::prelude::*;
use crate::tokens::{Token, Tok, toks};

verus! {

/// Why scanning stopped.
#[derive(Debug, Clone, Copy, PartialEq, Eq, Structural)]
pub enum ScanError {
    /// A character that starts no token, and its position.
    UnexpectedCharacter(char, usize),
    /// A run of digits and dots that is no numeral (it has no digit, or more
    /// than one dot), and the position where it starts.
    MalformedNumber(usize),
}

/// Whether `char::is_alphanumeric` holds of a character (Unicode tables).
pub uninterp spec fn alphanumeric(c: char) -> bool;

/// Relies on char::is_alphanumeric, which takes ASCII letters and digits among others.
#[verifier::external_body]
fn is_alphanumeric(c: char) -> (r: bool)
    ensures
        r == alphanumeric(c),
        is_ascii_letter(c) || is_digit(c) ==> r,
{
    c.is_alphanumeric()
}

/// Relies on String::push: appends one character.
#[verifier::external_body]
pub(crate) fn push_char(s: &mut String, c: char)
    ensures
        final(s)@ == old(s)@.push(c),
{
    s.push(c)
}

/// Relies on str::chars: the characters of the text, in order.
#[verifier::external_body]
fn chars_of(s: &str) -> (r: Vec<char>)
    ensures
        r@ == s@,
{
    s.chars().collect()
}

pub open spec fn is_ascii_letter(c: char) -> bool {
    ('a' <= c && c <= 'z') || ('A' <= c && c <= 'Z')
}

pub open spec fn is_digit(c: char) -> bool {
    '0' <= c && c <= '9'
}

pub open spec fn is_whitespace(c: char) -> bool {
    c == ' ' || c == '\t' || c == '\n' || c == '\r'
}

pub open spec fn starts_number(c: char) -> bool {
    is_digit(c) || c == '.'
}

pub open spec fn starts_identifier(c: char) -> bool {
    is_ascii_letter(c) || c == '_'
}

pub open spec fn continues_identifier(c: char) -> bool {
    alphanumeric(c) || c == '_'
}

/// The token that a one-character symbol stands for.
pub open spec fn symbol(c: char) -> Option<Tok> {
    if c == '+' {
        Some(Tok::Plus)
    } else if c == '-' {
        Some(Tok::Minus)
    } else if c == '*' {
        Some(Tok::Star)
    } else if c == '/' {
        Some(Tok::Slash)
    } else if c == '=' {
        Some(Tok::Equals)
    } else if c == '(' {
        Some(Tok::LParen)
    } else if c == ')' {
        Some(Tok::RParen)
    } else if c == ';' {
        Some(Tok::Semicolon)
    } else {
        None
    }
}

/// End of the run of digits and dots that starts at `i`.
pub open spec fn number_end(s: Seq<char>, i: int) -> int
    decreases s.len() - i,
{
    if 0 <= i < s.len() && starts_number(s[i]) {
        number_end(s, i + 1)
    } else {
        i
    }
}

/// End of the run of identifier characters that starts at `i`.
pub open spec fn ident_end(s: Seq<char>, i: int) -> int
    decreases s.len() - i,
{
    if 0 <= i < s.len() && continues_identifier(s[i]) {
        ident_end(s, i + 1)
    } else {
        i
    }
}

/// Position of the first quote at or after `i`, or the length if there is none.
pub open spec fn quote_end(s: Seq<char>, i: int) -> int
    decreases s.len() - i,
{
    if 0 <= i < s.len() && s[i] != '"' {
        quote_end(s, i + 1)
    } else {
        i
    }
}

pub open spec fn count_dots(t: Seq<char>) -> nat
    decreases t.len(),
{
    if t.len() == 0 {
        0
    } else {
        count_dots(t.drop_last()) + if t.last() == '.' { 1nat } else { 0nat }
    }
}

/// A decimal numeral: at least one digit and at most one dot.
pub open spec fn valid_numeral(t: Seq<char>) -> bool {
    (exists|k: int| 0 <= k < t.len() && is_digit(t[k])) && count_dots(t) <= 1
}

/// A word is a keyword or else an identifier.
pub open spec fn keyword_or_identifier(w: Seq<char>) -> Tok {
    if w == seq!['p', 'r', 'i', 'n', 't'] {
        Tok::Print
    } else if w == seq!['i', 'n', 't'] {
        Tok::Int
    } else if w == seq!['s', 't', 'r', 'i', 'n', 'g'] {
        Tok::StringType
    } else {
        Tok::Identifier(w)
    }
}

pub open spec fn prepend(t: Tok, r: Result<Seq<Tok>, ScanError>) -> Result<Seq<Tok>, ScanError> {
    match r {
        Ok(ts) => Ok(seq![t] + ts),
        Err(e) => Err(e),
    }
}

pub open spec fn join(pre: Seq<Tok>, r: Result<Seq<Tok>, ScanError>) -> Result<Seq<Tok>, ScanError> {
    match r {
        Ok(ts) => Ok(pre + ts),
        Err(e) => Err(e),
    }
}

/// The tokens of `s` from position `i` on, ended by the end-of-input marker.
pub open spec fn scan_from(s: Seq<char>, i: int) -> Result<Seq<Tok>, ScanError>
    decreases s.len() - i,
    via scan_from_decreases
{
    if i < 0 || i >= s.len() {
        Ok(seq![Tok::EOF])
    } else {
        let c = s[i];
        if is_whitespace(c) {
            scan_from(s, i + 1)
        } else if symbol(c) is Some {
            prepend(symbol(c)->0, scan_from(s, i + 1))
        } else if c == '"' {
            let j = quote_end(s, i + 1);
            prepend(Tok::Str(s.subrange(i + 1, j)), scan_from(s, if j < s.len() { j + 1 } else { j }))
        } else if starts_number(c) {
            let j = number_end(s, i);
            if valid_numeral(s.subrange(i, j)) {
                prepend(Tok::Number(s.subrange(i, j)), scan_from(s, j))
            } else {
                Err(ScanError::MalformedNumber(i as usize))
            }
        } else if starts_identifier(c) {
            let j = ident_end(s, i + 1);
            prepend(keyword_or_identifier(s.subrange(i, j)), scan_from(s, j))
        } else {
            Err(ScanError::UnexpectedCharacter(c, i as usize))
        }
    }
}

#[via_fn]
proof fn scan_from_decreases(s: Seq<char>, i: int) {
    if 0 <= i < s.len() {
        lemma_quote_end(s, i + 1);
        lemma_number_end(s, i);
        lemma_ident_end(s, i + 1);
    }
}

/// The tokens of a whole text.
pub open spec fn scan(s: Seq<char>) -> Result<Seq<Tok>, ScanError> {
    scan_from(s, 0)
}

proof fn lemma_number_end(s: Seq<char>, i: int)
    requires
        0 <= i <= s.len(),
    ensures
        i <= number_end(s, i) <= s.len(),
        forall|k: int| i <= k < number_end(s, i) ==> starts_number(#[trigger] s[k]),
        number_end(s, i) < s.len() ==> !starts_number(s[number_end(s, i)]),
    decreases s.len() - i,
{
    if i < s.len() && starts_number(s[i]) {
        lemma_number_end(s, i + 1);
    }
}

proof fn lemma_ident_end(s: Seq<char>, i: int)
    requires
        0 <= i <= s.len(),
    ensures
        i <= ident_end(s, i) <= s.len(),
    decreases s.len() - i,
{
    if i < s.len() && continues_identifier(s[i]) {
        lemma_ident_end(s, i + 1);
    }
}

proof fn lemma_quote_end(s: Seq<char>, i: int)
    requires
        0 <= i <= s.len(),
    ensures
        i <= quote_end(s, i) <= s.len(),
    decreases s.len() - i,
{
    if i < s.len() && s[i] != '"' {
        lemma_quote_end(s, i + 1);
    }
}

proof fn lemma_join_prepend(pre: Seq<Tok>, t: Tok, r: Result<Seq<Tok>, ScanError>)
    ensures
        join(pre.push(t), r) == join(pre, prepend(t, r)),
{
    if let Ok(ts) = r {
        assert(pre.push(t) + ts =~= pre + (seq![t] + ts));
    }
}

/// A scanner over the characters of a source text.
pub struct Lexer {
    input: Vec<char>,
    position: usize,
}

impl Lexer {
    pub closed spec fn chars(&self) -> Seq<char> {
        self.input@
    }

    pub closed spec fn pos(&self) -> int {
        self.position as int
    }

    pub closed spec fn wf(&self) -> bool {
        self.position <= self.input.len()
    }

    pub fn new(input: &str) -> (r: Lexer)
        ensures
            r.wf(),
            r.chars() == input@,
            r.pos() == 0,
    {
        Lexer { input: chars_of(input), position: 0 }
    }

    fn next_char(&self) -> (r: Option<char>)
        requires
            self.wf(),
        ensures
            r == if self.position < self.input.len() {
                Some(self.input@[self.position as int])
            } else {
                None::<char>
            },
    {
        if self.position < self.input.len() {
            Some(self.input[self.position])
        } else {
            None
        }
    }

    fn advance(&mut self)
        requires
            old(self).wf(),
        ensures
            final(self).wf(),
            final(self).input@ == old(self).input@,
            final(self).position == if old(self).position < old(self).input.len() {
                old(self).position + 1
            } else {
                old(self).position as int
            },
    {
        if self.position < self.input.len() {
            self.position = self.position + 1;
        }
    }

    /// Scans the rest of the input into tokens, ended by the end-of-input marker.
    pub fn tokenize(&mut self) -> (r: Result<Vec<Token>, ScanError>)
        requires
            old(self).wf(),
        ensures
            scan_from(old(self).chars(), old(self).pos()) == match r {
                Ok(v) => Ok::<Seq<Tok>, ScanError>(toks(v@)),
                Err(e) => Err(e),
            },
    {
        let ghost s = self.input@;
        let ghost p0 = self.position as int;
        let mut tokens: Vec<Token> = Vec::new();
        while self.position < self.input.len()
            invariant
                self.wf(),
                self.input@ == s,
                s == old(self).chars(),
                p0 == old(self).pos(),
                scan_from(s, p0) == join(toks(tokens@), scan_from(s, self.position as int)),
            decreases s.len() - self.position,
        {
            let ghost pre = toks(tokens@);
            let ghost p = self.position as int;
            let current = self.input[self.position];
            proof {
                lemma_quote_end(s, p + 1);
                lemma_number_end(s, p);
                lemma_ident_end(s, p + 1);
            }
            let tok: Token;
            if current == ' ' || current == '\t' || current == '\n' || current == '\r' {
                self.advance();
                continue;
            } else if current == '+' {
                tok = Token::Plus;
                self.advance();
            } else if current == '-' {
                tok = Token::Minus;
                self.advance();
            } else if current == '*' {
                tok = Token::Star;
                self.advance();
            } else if current == '/' {
                tok = Token::Slash;
                self.advance();
            } else if current == '=' {
                tok = Token::Equals;
                self.advance();
            } else if current == '(' {
                tok = Token::LParen;
                self.advance();
            } else if current == ')' {
                tok = Token::RParen;
                self.advance();
            } else if current == ';' {
                tok = Token::Semicolon;
                self.advance();
            } else if current == '"' {
                tok = self.string();
            } else if ('0' <= current && current <= '9') || current == '.' {
                match self.number() {
                    Ok(t) => {
                        tok = t;
                    },
                    Err(e) => {
                        return Err(e);
                    },
                }
            } else if ('a' <= current && current <= 'z') || ('A' <= current && current <= 'Z')
                || current == '_' {
                let identifier = self.identifier();
                proof {
                    reveal_strlit("print");
                    reveal_strlit("int");
                    reveal_strlit("string");
                    assert("print"@ =~= seq!['p', 'r', 'i', 'n', 't']);
                    assert("int"@ =~= seq!['i', 'n', 't']);
                    assert("string"@ =~= seq!['s', 't', 'r', 'i', 'n', 'g']);
                }
                if identifier.eq(&String::from_str("print")) {
                    tok = Token::Print;
                } else if identifier.eq(&String::from_str("int")) {
                    tok = Token::Int;
                } else if identifier.eq(&String::from_str("string")) {
                    tok = Token::StringType;
                } else {
                    tok = Token::Identifier(identifier);
                }
            } else {
                return Err(ScanError::UnexpectedCharacter(current, self.position));
            }
            proof {
                lemma_join_prepend(pre, tok@, scan_from(s, self.position as int));
            }
            tokens.push(tok);
            assert(toks(tokens@) =~= pre.push(tok@));
        }
        let ghost pre = toks(tokens@);
        tokens.push(Token::EOF);
        assert(toks(tokens@) =~= pre + seq![Tok::EOF]);
        Ok(tokens)
    }

    fn number(&mut self) -> (r: Result<Token, ScanError>)
        requires
            old(self).wf(),
            old(self).position < old(self).input.len(),
            starts_number(old(self).input@[old(self).position as int]),
        ensures
            final(self).wf(),
            final(self).input@ == old(self).input@,
            ({
                let s = old(self).input@;
                let i = old(self).position as int;
                let j = number_end(s, i);
                if valid_numeral(s.subrange(i, j)) {
                    r matches Ok(t) && t@ == Tok::Number(s.subrange(i, j)) && final(self).position == j
                } else {
                    r == Err::<Token, ScanError>(ScanError::MalformedNumber(i as usize))
                }
            }),
    {
        let ghost s = self.input@;
        let start = self.position;
        proof {
            lemma_number_end(s, start as int);
        }
        let mut text = String::new();
        let mut dots: usize = 0;
        let mut digits: usize = 0;
        while self.position < self.input.len() && (('0' <= self.input[self.position]
            && self.input[self.position] <= '9') || self.input[self.position] == '.')
            invariant
                self.wf(),
                self.input@ == s,
                start <= self.position,
                number_end(s, start as int) == number_end(s, self.position as int),
                text@ == s.subrange(start as int, self.position as int),
                dots == count_dots(text@),
                dots <= self.position - start,
                digits <= self.position - start,
                (digits > 0) == (exists|k: int| 0 <= k < text@.len() && is_digit(text@[k])),
            decreases s.len() - self.position,
        {
            let c = self.input[self.position];
            let ghost before = text@;
            push_char(&mut text, c);
            assert(text@.drop_last() =~= before);
            if c == '.' {
                dots = dots + 1;
            } else {
                digits = digits + 1;
                assert(is_digit(text@[text@.len() - 1]));
            }
            proof {
                if digits > 0 && !is_digit(c) {
                    let k = choose|k: int| 0 <= k < before.len() && is_digit(before[k]);
                    assert(is_digit(text@[k]));
                }
                if exists|k: int| 0 <= k < text@.len() && is_digit(text@[k]) {
                    let k = choose|k: int| 0 <= k < text@.len() && is_digit(text@[k]);
                    if k < before.len() {
                        assert(is_digit(before[k]));
                    }
                }
            }
            self.advance();
            assert(text@ =~= s.subrange(start as int, self.position as int));
        }
        if digits > 0 && dots <= 1 {
            Ok(Token::Number(text))
        } else {
            Err(ScanError::MalformedNumber(start))
        }
    }

    fn string(&mut self) -> (r: Token)
        requires
            old(self).wf(),
            old(self).position < old(self).input.len(),
            old(self).input@[old(self).position as int] == '"',
        ensures
            final(self).wf(),
            final(self).input@ == old(self).input@,
            ({
                let s = old(self).input@;
                let j = quote_end(s, old(self).position + 1);
                r@ == Tok::Str(s.subrange(old(self).position + 1, j))
                    && final(self).position == if j < s.len() { j + 1 } else { j }
            }),
    {
        let ghost s = self.input@;
        self.advance();
        let start = self.position;
        proof {
            lemma_quote_end(s, start as int);
        }
        let mut text = String::new();
        while self.position < self.input.len() && self.input[self.position] != '"'
            invariant
                self.wf(),
                self.input@ == s,
                start <= self.position,
                quote_end(s, start as int) == quote_end(s, self.position as int),
                text@ == s.subrange(start as int, self.position as int),
            decreases s.len() - self.position,
        {
            push_char(&mut text, self.input[self.position]);
            self.advance();
            assert(text@ =~= s.subrange(start as int, self.position as int));
        }
        self.advance();
        Token::String(text)
    }

    /// Reads the identifier that starts at the current position.
    fn identifier(&mut self) -> (r: String)
        requires
            old(self).wf(),
            old(self).position < old(self).input.len(),
            starts_identifier(old(self).input@[old(self).position as int]),
        ensures
            final(self).wf(),
            final(self).input@ == old(self).input@,
            final(self).position == ident_end(old(self).input@, old(self).position + 1),
            r@ == old(self).input@.subrange(
                old(self).position as int,
                ident_end(old(self).input@, old(self).position + 1),
            ),
    {
        let ghost s = self.input@;
        let start = self.position;
        let mut text = String::new();
        push_char(&mut text, self.input[self.position]);
        self.advance();
        proof {
            lemma_ident_end(s, start + 1);
        }
        while self.position < self.input.len() && (is_alphanumeric(self.input[self.position])
            || self.input[self.position] == '_')
            invariant
                self.wf(),
                self.input@ == s,
                start < self.position,
                ident_end(s, start + 1) == ident_end(s, self.position as int),
                text@ == s.subrange(start as int, self.position as int),
            decreases s.len() - self.position,
        {
            push_char(&mut text, self.input[self.position]);
            self.advance();
            assert(text@ =~= s.subrange(start as int, self.position as int));
        }
        text
    }
}

} // verus!

verus! {

/// The positions that scanning moves to from `i` lie within the text.
pub proof fn lemma_scan_steps(s: Seq<char>, i: int)
    requires
        0 <= i < s.len(),
    ensures
        i < quote_end(s, i + 1) + 1 && quote_end(s, i + 1) <= s.len(),
        i < number_end(s, i) || !starts_number(s[i]),
        number_end(s, i) <= s.len(),
        i < ident_end(s, i + 1) <= s.len(),
{
    lemma_quote_end(s, i + 1);
    lemma_number_end(s, i);
    lemma_ident_end(s, i + 1);
}

} // verus!
