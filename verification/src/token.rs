//! Tokens of the tree-walking path: the token kinds, the literal values some
//! tokens carry, and the token items the scanner hands to the parser.
use vstd::prelude::*;
use std::rc::Rc;

verus! {

/// A literal or runtime value of the language. Numbers carry their IEEE
/// double encoding; function values pair the shared body with the
/// environment frame they closed over.
#[derive(Debug, PartialEq)]
pub enum Literal {
    Function { params: Vec<String>, body: Rc<crate::ast::Stmt>, closure: usize },
    String(String),
    Number(u64),
    True,
    False,
    Nil,
}

impl Literal {
    /// Copies a value; a function value keeps sharing its body and its
    /// captured frame.
    pub fn dup(&self) -> (r: Literal)
        ensures
            crate::ast::lit_view(r) == crate::ast::lit_view(*self),
    {
        match self {
            Literal::Function { params, body, closure } => Literal::Function {
                params: crate::text::clone_strings(params),
                body: crate::ast::share_body(body),
                closure: *closure,
            },
            Literal::String(s) => Literal::String(s.clone()),
            Literal::Number(b) => Literal::Number(*b),
            Literal::True => Literal::True,
            Literal::False => Literal::False,
            Literal::Nil => Literal::Nil,
        }
    }

    /// Everything is truthy but `nil` and `false`.
    pub fn is_truthy(&self) -> (r: bool)
        ensures
            r == spec_truthy(crate::ast::lit_view(*self)),
    {
        !(matches!(self, Literal::Nil | Literal::False))
    }
}

/// Everything is truthy but `nil` and `false`.
pub open spec fn spec_truthy(v: crate::ast::ValueM) -> bool {
    !(v is VNil || v is VFalse)
}

/// The closed set of token kinds.
#[derive(Debug, Clone, Copy, PartialEq, Eq, Structural)]
pub enum TokenType {
    LeftParen,
    RightParen,
    LeftBrace,
    RightBrace,
    Comma,
    Dot,
    Minus,
    Plus,
    Semicolon,
    Slash,
    Star,
    Bang,
    BangEq,
    Equal,
    EqualEq,
    Greater,
    GreaterEq,
    Less,
    LessEq,
    And,
    Class,
    Else,
    False,
    Fun,
    For,
    If,
    Nil,
    Or,
    Print,
    Return,
    Super,
    This,
    True,
    Var,
    While,
    String,
    Number,
    Identifier,
    EoF,
}

/// The token kind of a reserved word, if the text is one.
pub open spec fn spec_keyword(t: Seq<char>) -> Option<TokenType> {
    if t == "and"@ {
        Some(TokenType::And)
    } else if t == "class"@ {
        Some(TokenType::Class)
    } else if t == "else"@ {
        Some(TokenType::Else)
    } else if t == "false"@ {
        Some(TokenType::False)
    } else if t == "fun"@ {
        Some(TokenType::Fun)
    } else if t == "for"@ {
        Some(TokenType::For)
    } else if t == "if"@ {
        Some(TokenType::If)
    } else if t == "nil"@ {
        Some(TokenType::Nil)
    } else if t == "or"@ {
        Some(TokenType::Or)
    } else if t == "print"@ {
        Some(TokenType::Print)
    } else if t == "return"@ {
        Some(TokenType::Return)
    } else if t == "super"@ {
        Some(TokenType::Super)
    } else if t == "this"@ {
        Some(TokenType::This)
    } else if t == "true"@ {
        Some(TokenType::True)
    } else if t == "var"@ {
        Some(TokenType::Var)
    } else if t == "while"@ {
        Some(TokenType::While)
    } else {
        None
    }
}

impl TokenType {
    /// Maps reserved words to their token kinds; all other text is none.
    pub fn from_string(s: &str) -> (r: Option<TokenType>)
        ensures
            r == spec_keyword(s@),
    {
        if crate::text::str_eq(s, "and") {
            Some(TokenType::And)
        } else if crate::text::str_eq(s, "class") {
            Some(TokenType::Class)
        } else if crate::text::str_eq(s, "else") {
            Some(TokenType::Else)
        } else if crate::text::str_eq(s, "false") {
            Some(TokenType::False)
        } else if crate::text::str_eq(s, "fun") {
            Some(TokenType::Fun)
        } else if crate::text::str_eq(s, "for") {
            Some(TokenType::For)
        } else if crate::text::str_eq(s, "if") {
            Some(TokenType::If)
        } else if crate::text::str_eq(s, "nil") {
            Some(TokenType::Nil)
        } else if crate::text::str_eq(s, "or") {
            Some(TokenType::Or)
        } else if crate::text::str_eq(s, "print") {
            Some(TokenType::Print)
        } else if crate::text::str_eq(s, "return") {
            Some(TokenType::Return)
        } else if crate::text::str_eq(s, "super") {
            Some(TokenType::Super)
        } else if crate::text::str_eq(s, "this") {
            Some(TokenType::This)
        } else if crate::text::str_eq(s, "true") {
            Some(TokenType::True)
        } else if crate::text::str_eq(s, "var") {
            Some(TokenType::Var)
        } else if crate::text::str_eq(s, "while") {
            Some(TokenType::While)
        } else {
            None
        }
    }
}

/// One scanned token: its kind, its text, the literal value it carries if
/// any, and where it begins.
#[derive(Debug, PartialEq)]
pub struct TokenItem {
    pub ttype: TokenType,
    pub lexeme: String,
    pub literal: Option<Literal>,
    pub location: crate::location::SourceLocation,
}

/// The mathematical picture of one token.
pub struct TokenM {
    pub ttype: TokenType,
    pub lexeme: Seq<char>,
    pub literal: Option<crate::ast::ValueM>,
    pub location: crate::location::SourceLocation,
}

/// What a token stands for.
pub open spec fn token_view(t: TokenItem) -> TokenM {
    TokenM {
        ttype: t.ttype,
        lexeme: t.lexeme@,
        literal: match t.literal {
            Some(l) => Some(crate::ast::lit_view(l)),
            None => None,
        },
        location: t.location,
    }
}

/// What a list of tokens stands for.
pub open spec fn tokens_view(ts: Seq<TokenItem>) -> Seq<TokenM> {
    ts.map_values(|t: TokenItem| token_view(t))
}

} // verus!
