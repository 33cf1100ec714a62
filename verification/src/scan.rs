//! The bytecode path's scanner: hands the compiler one token at a time, each
//! carrying its text and source line. Only line comments exist on this path,
//! and two-character operators are taken whenever `=` follows `! = < >`.
//! What it hands back is exactly `spec_bscan` of the text.
use vstd::prelude::*;
use crate::scanner::{
    ident_end, is_alpha, is_digit, is_ident_char, lemma_ident_end, lemma_line_comment_end,
    lemma_move_through, lemma_number_end, lemma_string_end, line_comment_end, move_through,
    number_end, string_end,
};
use crate::text::{chars_of, string_of_range};

verus! {

/// The token kinds of the bytecode path.
#[derive(Debug, Clone, Copy, PartialEq, Eq, Structural)]
pub enum TokenType {
    LeftParen,
    RightParen,
    LeftBrace,
    RightBrace,
    Comma,
    Dot,
    Minus,
    Plus,
    Semicolon,
    Slash,
    Star,
    Bang,
    BangEqual,
    Equal,
    EqualEqual,
    Greater,
    GreaterEqual,
    Less,
    LessEqual,
    Identifier,
    String,
    Number,
    And,
    Class,
    Else,
    False,
    For,
    Fun,
    If,
    Nil,
    Or,
    Print,
    Return,
    Super,
    This,
    True,
    Var,
    While,
    Error,
    EoF,
}

/// One scanned token: its kind, its text, and the line it began on.
#[derive(Debug, PartialEq)]
pub struct Token {
    pub ttype: TokenType,
    pub lexeme: String,
    pub line: usize,
}

/// The mathematical picture of one token.
pub struct BTokM {
    pub ttype: TokenType,
    pub lexeme: Seq<char>,
    pub line: int,
}

/// What a token stands for.
pub open spec fn btok_view(t: Token) -> BTokM {
    BTokM { ttype: t.ttype, lexeme: t.lexeme@, line: t.line as int }
}

/// What a list of tokens stands for.
pub open spec fn btoks_view(ts: Seq<Token>) -> Seq<BTokM> {
    ts.map_values(|t: Token| btok_view(t))
}

/// Skipping spaces, tabs, carriage returns, newlines and line comments: the
/// position scanning resumes at, and the line it is on.
pub open spec fn spec_skip_ws(cs: Seq<char>, i: int, line: int) -> (int, int)
    decreases cs.len() - i,
        when 0 <= i <= cs.len()
{
    if i >= cs.len() {
        (i, line)
    } else {
        let c = cs[i];
        if c == ' ' || c == '\t' || c == '\r' {
            spec_skip_ws(cs, i + 1, line)
        } else if c == '\n' {
            spec_skip_ws(cs, i + 1, line + 1)
        } else if c == '/' && i + 1 < cs.len() && cs[i + 1] == '/' {
            proof {
                lemma_line_comment_end(cs, i + 2);
            }
            spec_skip_ws(cs, line_comment_end(cs, i + 2), line)
        } else {
            (i, line)
        }
    }
}

/// Skipping moves right and the line count keeps pace with the movement.
pub proof fn lemma_skip_ws(cs: Seq<char>, i: int, line: int)
    requires
        0 <= i <= cs.len(),
    ensures
        ({
            let (j, l) = spec_skip_ws(cs, i, line);
            i <= j <= cs.len() && line <= l <= line + (j - i)
        }),
    decreases cs.len() - i,
{
    if i < cs.len() {
        let c = cs[i];
        if c == ' ' || c == '\t' || c == '\r' {
            lemma_skip_ws(cs, i + 1, line);
        } else if c == '\n' {
            lemma_skip_ws(cs, i + 1, line + 1);
        } else if c == '/' && i + 1 < cs.len() && cs[i + 1] == '/' {
            lemma_line_comment_end(cs, i + 2);
            lemma_skip_ws(cs, line_comment_end(cs, i + 2), line);
        }
    }
}

/// The token kind an identifier's text scans as: a reserved word's kind, or
/// a plain identifier.
pub open spec fn bc_keyword(t: Seq<char>) -> TokenType {
    match crate::token::spec_keyword(t) {
        Some(k) => match k {
            crate::token::TokenType::And => TokenType::And,
            crate::token::TokenType::Class => TokenType::Class,
            crate::token::TokenType::Else => TokenType::Else,
            crate::token::TokenType::False => TokenType::False,
            crate::token::TokenType::For => TokenType::For,
            crate::token::TokenType::Fun => TokenType::Fun,
            crate::token::TokenType::If => TokenType::If,
            crate::token::TokenType::Nil => TokenType::Nil,
            crate::token::TokenType::Or => TokenType::Or,
            crate::token::TokenType::Print => TokenType::Print,
            crate::token::TokenType::Return => TokenType::Return,
            crate::token::TokenType::Super => TokenType::Super,
            crate::token::TokenType::This => TokenType::This,
            crate::token::TokenType::True => TokenType::True,
            crate::token::TokenType::Var => TokenType::Var,
            crate::token::TokenType::While => TokenType::While,
            _ => TokenType::Identifier,
        },
        None => TokenType::Identifier,
    }
}

/// What reading one token does: the token, the position scanning resumes at,
/// and the line there.
pub struct BStep {
    pub tok: BTokM,
    pub next: int,
    pub line2: int,
}

/// A one-character token at `j`.
pub open spec fn bc_one(cs: Seq<char>, j: int, t: TokenType, l: int) -> BStep {
    BStep { tok: BTokM { ttype: t, lexeme: cs.subrange(j, j + 1), line: l }, next: j + 1, line2: l }
}

/// A two-character token at `j`.
pub open spec fn bc_two(cs: Seq<char>, j: int, t: TokenType, l: int) -> BStep {
    BStep { tok: BTokM { ttype: t, lexeme: cs.subrange(j, j + 2), line: l }, next: j + 2, line2: l }
}

/// Reading one token at position `i` on line `line`: skip blank text, then
/// exactly what the lexical rules say about the character there. At the end
/// of the text the end-of-file token comes back.
pub open spec fn spec_scan_token(cs: Seq<char>, i: int, line: int) -> BStep {
    let (j, l) = spec_skip_ws(cs, i, line);
    if j >= cs.len() {
        BStep {
            tok: BTokM { ttype: TokenType::EoF, lexeme: Seq::empty(), line: l },
            next: j,
            line2: l,
        }
    } else {
        let c = cs[j];
        if c == '(' {
            bc_one(cs, j, TokenType::LeftParen, l)
        } else if c == ')' {
            bc_one(cs, j, TokenType::RightParen, l)
        } else if c == '{' {
            bc_one(cs, j, TokenType::LeftBrace, l)
        } else if c == '}' {
            bc_one(cs, j, TokenType::RightBrace, l)
        } else if c == ';' {
            bc_one(cs, j, TokenType::Semicolon, l)
        } else if c == ',' {
            bc_one(cs, j, TokenType::Comma, l)
        } else if c == '.' {
            bc_one(cs, j, TokenType::Dot, l)
        } else if c == '-' {
            bc_one(cs, j, TokenType::Minus, l)
        } else if c == '+' {
            bc_one(cs, j, TokenType::Plus, l)
        } else if c == '/' {
            bc_one(cs, j, TokenType::Slash, l)
        } else if c == '*' {
            bc_one(cs, j, TokenType::Star, l)
        } else if c == '!' {
            if j + 1 < cs.len() && cs[j + 1] == '=' {
                bc_two(cs, j, TokenType::BangEqual, l)
            } else {
                bc_one(cs, j, TokenType::Bang, l)
            }
        } else if c == '=' {
            if j + 1 < cs.len() && cs[j + 1] == '=' {
                bc_two(cs, j, TokenType::EqualEqual, l)
            } else {
                bc_one(cs, j, TokenType::Equal, l)
            }
        } else if c == '<' {
            if j + 1 < cs.len() && cs[j + 1] == '=' {
                bc_two(cs, j, TokenType::LessEqual, l)
            } else {
                bc_one(cs, j, TokenType::Less, l)
            }
        } else if c == '>' {
            if j + 1 < cs.len() && cs[j + 1] == '=' {
                bc_two(cs, j, TokenType::GreaterEqual, l)
            } else {
                bc_one(cs, j, TokenType::Greater, l)
            }
        } else if c == '"' {
            let e = string_end(cs, j + 1);
            let (nl, _) = move_through(cs, j + 1, e, 0, 0);
            if e >= cs.len() {
                BStep {
                    tok: BTokM {
                        ttype: TokenType::Error,
                        lexeme: "Unterminated string"@,
                        line: l + nl,
                    },
                    next: cs.len() as int,
                    line2: l + nl,
                }
            } else {
                BStep {
                    tok: BTokM {
                        ttype: TokenType::String,
                        lexeme: cs.subrange(j, e + 1),
                        line: l + nl,
                    },
                    next: e + 1,
                    line2: l + nl,
                }
            }
        } else if is_digit(c) {
            let e = number_end(cs, j + 1);
            BStep {
                tok: BTokM { ttype: TokenType::Number, lexeme: cs.subrange(j, e), line: l },
                next: e,
                line2: l,
            }
        } else if is_alpha(c) || c == '_' {
            let e = ident_end(cs, j + 1);
            let text = cs.subrange(j, e);
            BStep {
                tok: BTokM { ttype: bc_keyword(text), lexeme: text, line: l },
                next: e,
                line2: l,
            }
        } else {
            BStep {
                tok: BTokM { ttype: TokenType::Error, lexeme: "Unexpected character"@, line: l },
                next: j + 1,
                line2: l,
            }
        }
    }
}

/// One reading step moves right past the end-of-blank position, never gives
/// back an end-of-file token early, and keeps the line count in step.
pub proof fn lemma_bstep(cs: Seq<char>, i: int, line: int)
    requires
        0 <= i <= cs.len(),
        1 <= line <= i + 1,
    ensures
        ({
            let st = spec_scan_token(cs, i, line);
            i <= st.next <= cs.len() && 1 <= st.line2 <= st.next + 1 && (st.tok.ttype
                == TokenType::EoF ==> st.next == cs.len()) && (st.tok.ttype != TokenType::EoF
                ==> st.next > i)
        }),
{
    lemma_skip_ws(cs, i, line);
    let (j, l) = spec_skip_ws(cs, i, line);
    if j < cs.len() {
        let c = cs[j];
        lemma_number_end(cs, j + 1);
        lemma_ident_end(cs, j + 1);
        lemma_string_end(cs, j + 1);
        if c == '"' {
            let e = string_end(cs, j + 1);
            lemma_move_through(cs, j + 1, e, 0, 0);
        }
    }
}

/// The whole token stream of a text, from position `i` on line `line`: one
/// token per step, ending in the one end-of-file token.
pub open spec fn spec_bscan(cs: Seq<char>, i: int, line: int) -> Seq<BTokM>
    decreases cs.len() - i,
        when 0 <= i <= cs.len() && 1 <= line <= i + 1
{
    let st = spec_scan_token(cs, i, line);
    if st.tok.ttype == TokenType::EoF {
        seq![st.tok]
    } else {
        proof {
            lemma_bstep(cs, i, line);
        }
        seq![st.tok] + spec_bscan(cs, st.next, st.line2)
    }
}

/// The scanner: the characters, the token being read, and the line count.
pub struct Scanner {
    pub source: Vec<char>,
    pub start: usize,
    pub current: usize,
    pub line: usize,
}

impl Scanner {
    pub open spec fn inv(&self) -> bool {
        self.start <= self.current <= self.source@.len() && self.line >= 1 && self.line
            <= self.current + 1 && self.source@.len() + 8 <= usize::MAX
    }

    pub fn new(source: &str) -> (r: Self)
        requires
            source@.len() + 8 <= usize::MAX,
        ensures
            r.inv(),
            r.current == 0,
            r.line == 1,
            r.source@ == source@,
    {
        Scanner { source: chars_of(source), start: 0, current: 0, line: 1 }
    }

    fn is_at_end(&self) -> (r: bool)
        ensures
            r == (self.current == self.source@.len()),
            self.source@.len() <= usize::MAX,
    {
        self.current == self.source.len()
    }

    fn peek(&self) -> (r: char)
        requires
            self.current < self.source@.len(),
        ensures
            r == self.source@[self.current as int],
    {
        self.source[self.current]
    }

    /// Consumes the expected character exactly when it is next; the
    /// two-character operators take their `=` this way, so `!` `=` `<` `>`
    /// followed by `=` always yield the two-character token.
    fn match_advance(&mut self, c: char) -> (r: bool)
        requires
            old(self).inv(),
        ensures
            final(self).inv(),
            final(self).source@ == old(self).source@,
            final(self).start == old(self).start,
            final(self).line == old(self).line,
            r == (old(self).current < old(self).source@.len() && old(self).source@[old(
                self,
            ).current as int] == c),
            r ==> final(self).current == old(self).current + 1,
            !r ==> final(self).current == old(self).current,
    {
        let n = self.source.len();
        if self.current >= n {
            return false;
        }
        if self.peek() == c {
            self.current = self.current + 1;
            true
        } else {
            false
        }
    }

    fn make_token(&self, ttype: TokenType) -> (r: Token)
        requires
            self.inv(),
        ensures
            r.ttype == ttype,
            r.lexeme@ == self.source@.subrange(self.start as int, self.current as int),
            r.line == self.line,
    {
        Token {
            ttype,
            lexeme: string_of_range(&self.source, self.start, self.current),
            line: self.line,
        }
    }

    /// Skips spaces, tabs, carriage returns, newlines and line comments.
    fn skip_whitespace(&mut self)
        requires
            old(self).inv(),
        ensures
            final(self).inv(),
            final(self).source@ == old(self).source@,
            final(self).start == old(self).start,
            final(self).current >= old(self).current,
            (final(self).current as int, final(self).line as int) == spec_skip_ws(
                old(self).source@,
                old(self).current as int,
                old(self).line as int,
            ),
    {
        loop
            invariant
                self.inv(),
                self.source@ == old(self).source@,
                self.start == old(self).start,
                self.current >= old(self).current,
                spec_skip_ws(self.source@, old(self).current as int, old(self).line as int)
                    == spec_skip_ws(self.source@, self.current as int, self.line as int),
            decreases self.source@.len() - self.current,
        {
            let n = self.source.len();
            if self.current >= n {
                return ;
            }
            let c = self.peek();
            if c == ' ' || c == '\t' || c == '\r' {
                self.current = self.current + 1;
            } else if c == '\n' {
                self.line = self.line + 1;
                self.current = self.current + 1;
            } else if c == '/' {
                if n - self.current > 1 && self.source[self.current + 1] == '/' {
                    let ghost cstart = self.current as int;
                    let ghost lcur = self.line;
                    self.current = self.current + 2;
                    let ghost c0 = self.current as int;
                    while self.current < self.source.len() && self.source[self.current] != '\n'
                        invariant
                            self.inv(),
                            self.source@ == old(self).source@,
                            self.start == old(self).start,
                            self.line == lcur,
                            0 <= c0 <= self.current as int,
                            self.current >= old(self).current,
                            line_comment_end(self.source@, c0) == line_comment_end(
                                self.source@,
                                self.current as int,
                            ),
                        decreases self.source@.len() - self.current,
                    {
                        self.current = self.current + 1;
                    }
                    proof {
                        assert(self.current as int == line_comment_end(self.source@, c0));
                        assert(spec_skip_ws(self.source@, cstart, lcur as int) == spec_skip_ws(
                            self.source@,
                            self.current as int,
                            self.line as int,
                        ));
                    }
                } else {
                    return ;
                }
            } else {
                return ;
            }
        }
    }

    /// Reads the rest of a number whose first digit is already behind the
    /// cursor: digits, then one optional fraction.
    fn number(&mut self) -> (r: Token)
        requires
            old(self).inv(),
        ensures
            final(self).inv(),
            final(self).source@ == old(self).source@,
            final(self).start == old(self).start,
            final(self).line == old(self).line,
            final(self).current as int == number_end(old(self).source@, old(self).current as int),
            r.ttype == TokenType::Number,
            r.lexeme@ == final(self).source@.subrange(
                final(self).start as int,
                final(self).current as int,
            ),
            r.line == final(self).line,
    {
        let ghost c0 = self.current as int;
        while self.current < self.source.len() && crate::scanner::digit(
            self.source[self.current],
        )
            invariant
                self.inv(),
                self.source@ == old(self).source@,
                self.start == old(self).start,
                self.current >= old(self).current,
                self.line == old(self).line,
                crate::scanner::digits_end(self.source@, c0) == crate::scanner::digits_end(
                    self.source@,
                    self.current as int,
                ),
            decreases self.source@.len() - self.current,
        {
            self.current = self.current + 1;
        }
        let n = self.source.len();
        if self.current < n && n - self.current > 1 && self.source[self.current] == '.'
            && crate::scanner::digit(self.source[self.current + 1]) {
            self.current = self.current + 2;
            let ghost d2 = self.current as int;
            while self.current < self.source.len() && crate::scanner::digit(
                self.source[self.current],
            )
                invariant
                    self.inv(),
                    self.source@ == old(self).source@,
                    self.start == old(self).start,
                    self.current >= old(self).current,
                    self.line == old(self).line,
                    crate::scanner::digits_end(self.source@, d2) == crate::scanner::digits_end(
                        self.source@,
                        self.current as int,
                    ),
                decreases self.source@.len() - self.current,
            {
                self.current = self.current + 1;
            }
        }
        self.make_token(TokenType::Number)
    }

    /// Reads the rest of a string whose opening quote is already behind the
    /// cursor, crossing newlines; an unterminated one is an error token.
    fn string(&mut self) -> (r: Token)
        requires
            old(self).inv(),
        ensures
            final(self).inv(),
            final(self).source@ == old(self).source@,
            final(self).start == old(self).start,
            final(self).current >= old(self).current,
            ({
                let e = string_end(old(self).source@, old(self).current as int);
                let (nl, _) = move_through(old(self).source@, old(self).current as int, e, 0, 0);
                final(self).line as int == old(self).line + nl && (if e
                    >= old(self).source@.len() {
                    final(self).current as int == e && r.ttype == TokenType::Error && r.lexeme@
                        == "Unterminated string"@ && r.line == final(self).line
                } else {
                    final(self).current as int == e + 1 && r.ttype == TokenType::String
                        && r.lexeme@ == final(self).source@.subrange(
                        final(self).start as int,
                        e + 1,
                    ) && r.line == final(self).line
                })
            }),
    {
        let ghost c0 = self.current as int;
        let ghost l0 = self.line as int;
        let ghost cs = self.source@;
        let ghost e = string_end(cs, c0);
        proof {
            lemma_string_end(cs, c0);
        }
        let mut gincr: Ghost<int> = Ghost(0);
        while self.current < self.source.len() && self.source[self.current] != '"'
            invariant
                self.inv(),
                self.source@ == cs,
                self.start == old(self).start,
                0 <= c0 <= self.current as int <= e,
                1 <= l0,
                e == string_end(cs, c0),
                e <= cs.len(),
                string_end(cs, self.current as int) == e,
                self.line as int >= l0,
                gincr@ >= 0,
                move_through(cs, c0, e, 0, 0) == move_through(
                    cs,
                    self.current as int,
                    e,
                    self.line as int - l0,
                    gincr@,
                ),
            decreases self.source@.len() - self.current,
        {
            proof {
                assert(string_end(cs, self.current as int) == string_end(
                    cs,
                    self.current as int + 1,
                ));
                lemma_string_end(cs, self.current as int + 1);
            }
            if self.source[self.current] == '\n' {
                self.line = self.line + 1;
                gincr = Ghost(0);
            } else {
                gincr = Ghost(gincr@ + 1);
            }
            self.current = self.current + 1;
        }
        proof {
            assert(self.current as int == e);
            assert(move_through(cs, c0, e, 0, 0) == (self.line as int - l0, gincr@));
        }
        if self.is_at_end() {
            Token {
                ttype: TokenType::Error,
                lexeme: <String as vstd::string::StringExecFns>::from_str("Unterminated string"),
                line: self.line,
            }
        } else {
            self.current = self.current + 1;
            self.make_token(TokenType::String)
        }
    }

    /// Reads the rest of an identifier whose first character is already
    /// behind the cursor, mapping reserved words to their kinds.
    fn identifier(&mut self) -> (r: Token)
        requires
            old(self).inv(),
            old(self).start < old(self).current,
        ensures
            final(self).inv(),
            final(self).source@ == old(self).source@,
            final(self).start == old(self).start,
            final(self).line == old(self).line,
            final(self).current as int == ident_end(old(self).source@, old(self).current as int),
            r.lexeme@ == final(self).source@.subrange(
                final(self).start as int,
                final(self).current as int,
            ),
            r.ttype == bc_keyword(r.lexeme@),
            r.line == final(self).line,
    {
        let ghost c0 = self.current as int;
        while self.current < self.source.len() && crate::scanner::ident_char(
            self.source[self.current],
        )
            invariant
                self.inv(),
                self.source@ == old(self).source@,
                self.current >= old(self).current,
                self.line == old(self).line,
                self.start == old(self).start,
                self.start < self.current,
                ident_end(self.source@, c0) == ident_end(self.source@, self.current as int),
            decreases self.source@.len() - self.current,
        {
            self.current = self.current + 1;
        }
        let text = string_of_range(&self.source, self.start, self.current);
        let ttype = match crate::token::TokenType::from_string(text.as_str()) {
            Some(crate::token::TokenType::And) => TokenType::And,
            Some(crate::token::TokenType::Class) => TokenType::Class,
            Some(crate::token::TokenType::Else) => TokenType::Else,
            Some(crate::token::TokenType::False) => TokenType::False,
            Some(crate::token::TokenType::For) => TokenType::For,
            Some(crate::token::TokenType::Fun) => TokenType::Fun,
            Some(crate::token::TokenType::If) => TokenType::If,
            Some(crate::token::TokenType::Nil) => TokenType::Nil,
            Some(crate::token::TokenType::Or) => TokenType::Or,
            Some(crate::token::TokenType::Print) => TokenType::Print,
            Some(crate::token::TokenType::Return) => TokenType::Return,
            Some(crate::token::TokenType::Super) => TokenType::Super,
            Some(crate::token::TokenType::This) => TokenType::This,
            Some(crate::token::TokenType::True) => TokenType::True,
            Some(crate::token::TokenType::Var) => TokenType::Var,
            Some(crate::token::TokenType::While) => TokenType::While,
            _ => TokenType::Identifier,
        };
        Token { ttype, lexeme: text, line: self.line }
    }

    /// Reads the next token: exactly one step of `spec_scan_token`. At the
    /// text's end the end-of-file token comes back, and reading any other
    /// token moves the scanner forward.
    pub fn scan_token(&mut self) -> (r: Token)
        requires
            old(self).inv(),
        ensures
            final(self).inv(),
            final(self).source@ == old(self).source@,
            final(self).current >= old(self).current,
            r.ttype == TokenType::EoF ==> final(self).current == final(self).source@.len(),
            r.ttype != TokenType::EoF ==> final(self).current > old(self).current,
            ({
                let st = spec_scan_token(
                    old(self).source@,
                    old(self).current as int,
                    old(self).line as int,
                );
                btok_view(r) == st.tok && final(self).current as int == st.next
                    && final(self).line as int == st.line2
            }),
    {
        proof {
            lemma_skip_ws(self.source@, self.current as int, self.line as int);
            lemma_bstep(self.source@, self.current as int, self.line as int);
        }
        self.skip_whitespace();
        self.start = self.current;
        let n = self.source.len();
        if self.current >= n {
            let r = self.make_token(TokenType::EoF);
            proof {
                assert(r.lexeme@ =~= Seq::<char>::empty());
            }
            return r;
        }
        let c = self.peek();
        self.current = self.current + 1;
        if c == '(' {
            self.make_token(TokenType::LeftParen)
        } else if c == ')' {
            self.make_token(TokenType::RightParen)
        } else if c == '{' {
            self.make_token(TokenType::LeftBrace)
        } else if c == '}' {
            self.make_token(TokenType::RightBrace)
        } else if c == ';' {
            self.make_token(TokenType::Semicolon)
        } else if c == ',' {
            self.make_token(TokenType::Comma)
        } else if c == '.' {
            self.make_token(TokenType::Dot)
        } else if c == '-' {
            self.make_token(TokenType::Minus)
        } else if c == '+' {
            self.make_token(TokenType::Plus)
        } else if c == '/' {
            self.make_token(TokenType::Slash)
        } else if c == '*' {
            self.make_token(TokenType::Star)
        } else if c == '!' {
            if self.match_advance('=') {
                self.make_token(TokenType::BangEqual)
            } else {
                self.make_token(TokenType::Bang)
            }
        } else if c == '=' {
            if self.match_advance('=') {
                self.make_token(TokenType::EqualEqual)
            } else {
                self.make_token(TokenType::Equal)
            }
        } else if c == '<' {
            if self.match_advance('=') {
                self.make_token(TokenType::LessEqual)
            } else {
                self.make_token(TokenType::Less)
            }
        } else if c == '>' {
            if self.match_advance('=') {
                self.make_token(TokenType::GreaterEqual)
            } else {
                self.make_token(TokenType::Greater)
            }
        } else if c == '"' {
            self.string()
        } else if crate::scanner::digit(c) {
            self.number()
        } else if crate::scanner::alpha(c) || c == '_' {
            self.identifier()
        } else {
            Token {
                ttype: TokenType::Error,
                lexeme: <String as vstd::string::StringExecFns>::from_str("Unexpected character"),
                line: self.line,
            }
        }
    }
}

/// The token kinds that end a scan.
pub open spec fn scan_tokens_wf(ts: Seq<Token>) -> bool {
    ts.len() >= 1 && ts.last().ttype == TokenType::EoF && (forall|i: int|
        0 <= i < ts.len() - 1 ==> (#[trigger] ts[i].ttype) != TokenType::EoF)
}

/// Scans a whole text into its token stream: exactly `spec_bscan` of the
/// text, which ends in the one end-of-file token.
pub fn scan_all(source: &str) -> (r: Vec<Token>)
    requires
        source@.len() + 8 <= usize::MAX,
    ensures
        scan_tokens_wf(r@),
        btoks_view(r@) == spec_bscan(source@, 0, 1),
{
    let mut sc = Scanner::new(source);
    let mut tokens: Vec<Token> = Vec::new();
    proof {
        assert(btoks_view(tokens@) =~= Seq::<BTokM>::empty());
    }
    loop
        invariant_except_break
            sc.inv(),
            sc.source@ == source@,
            forall|i: int| 0 <= i < tokens@.len() ==> (#[trigger] tokens@[i].ttype)
                != TokenType::EoF,
            spec_bscan(source@, 0, 1) =~= btoks_view(tokens@) + spec_bscan(
                source@,
                sc.current as int,
                sc.line as int,
            ),
        ensures
            scan_tokens_wf(tokens@),
            btoks_view(tokens@) =~= spec_bscan(source@, 0, 1),
        decreases sc.source@.len() - sc.current,
    {
        let ghost pre = tokens@;
        let ghost st = spec_scan_token(source@, sc.current as int, sc.line as int);
        let ghost rest = spec_bscan(source@, st.next, st.line2);
        let t = sc.scan_token();
        let eof = matches!(t.ttype, TokenType::EoF);
        tokens.push(t);
        proof {
            assert(btoks_view(tokens@) =~= btoks_view(pre).push(st.tok));
        }
        if eof {
            proof {
                assert(spec_bscan(source@, 0, 1) =~= btoks_view(tokens@));
            }
            break ;
        }
        proof {
            assert(btoks_view(pre) + (seq![st.tok] + rest) =~= btoks_view(tokens@) + rest);
        }
    }
    tokens
}

} // verus!
