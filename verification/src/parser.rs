//! The tree-walking path's parser: recursive descent with precedence
//! climbing over the scanned tokens, producing the syntax tree. On an error
//! it records the failure, synchronizes to the next plausible statement
//! boundary, and goes on, so one pass reports every error.
//!
//! The success contracts are stated against the grammar relations below:
//! `stmt_rep(ts, c, s, c2)` says that `s` is exactly the tree this grammar
//! reads from `ts[c..c2)`, greedily, with `for` loops already desugared into
//! their `while` form.
use vstd::prelude::*;
use crate::ast::{Expr, Stmt};
use crate::location::SourceLocation;
use crate::token::{Literal, TokenItem, TokenType};

verus! {

/// A parsing failure, with where it happened.
#[derive(Debug)]
pub enum Error {
    UnterminatedParen { location: SourceLocation },
    ExpectedSemicolon { location: SourceLocation },
    UnterminatedBrace { location: SourceLocation },
    ExpectedToken { expected: String, stmt_type: String, location: SourceLocation },
    InvalidAssignmentTarget { location: SourceLocation },
    UnexpectedToken { lexeme: String, location: SourceLocation },
    TooManyArguments { location: SourceLocation },
    TooManyParameters { location: SourceLocation },
    ExpectedParameterName { location: SourceLocation },
}

impl Error {
    /// Where the failure was noticed.
    pub fn location(&self) -> (r: SourceLocation)
        ensures
            true,
    {
        match self {
            Error::UnterminatedParen { location } => *location,
            Error::ExpectedSemicolon { location } => *location,
            Error::UnterminatedBrace { location } => *location,
            Error::ExpectedToken { location, .. } => *location,
            Error::InvalidAssignmentTarget { location } => *location,
            Error::UnexpectedToken { location, .. } => *location,
            Error::TooManyArguments { location } => *location,
            Error::TooManyParameters { location } => *location,
            Error::ExpectedParameterName { location } => *location,
        }
    }
}

/// A token stream the parser can walk: it ends in the one end-of-file token
/// the scanner promises, and in no other.
pub open spec fn tokens_wf(ts: Seq<TokenItem>) -> bool {
    &&& ts.len() >= 1
    &&& ts.last().ttype == TokenType::EoF
    &&& forall|i: int| 0 <= i < ts.len() - 1 ==> (#[trigger] ts[i].ttype) != TokenType::EoF
}

/// The binary operators of each precedence level, outermost first: equality,
/// comparison, additive, multiplicative.
pub open spec fn level_op(lv: int, t: TokenType) -> bool {
    if lv == 0 {
        t == TokenType::BangEq || t == TokenType::EqualEq
    } else if lv == 1 {
        t == TokenType::Greater || t == TokenType::GreaterEq || t == TokenType::Less || t
            == TokenType::LessEq
    } else if lv == 2 {
        t == TokenType::Minus || t == TokenType::Plus
    } else {
        t == TokenType::Slash || t == TokenType::Star
    }
}

/// The expression grammar, as a relation: `e` is exactly what this parser
/// reads from `ts[c..c2)` at precedence `level` — 8 for a full expression
/// (assignment), 7 down to 4 for the binary levels, 3 for unary, 2 for
/// calls and primaries. Greedy: the token at `c2` cannot extend the parse.
/// Each level admits its own production or anything the next level derives,
/// so a parenthesized form carries no mark of its parentheses.
pub open spec fn expr_rep(ts: Seq<TokenItem>, c: int, level: int, e: Expr, c2: int) -> bool
    decreases c2 - c, level, 1int,
        when c <= c2 && 2 <= level <= 8
{
    if level >= 8 {
        assign_case(ts, c, e, c2) || (expr_rep(ts, c, 7, e, c2) && ts[c2].ttype
            != TokenType::Equal)
    } else if level >= 4 {
        binary_core(ts, c, level, e, c2) && !level_op(7 - level, ts[c2].ttype)
    } else if level == 3 {
        unary_case(ts, c, e, c2) || expr_rep(ts, c, 2, e, c2)
    } else {
        (!(ts[c2].ttype == TokenType::LeftParen && c2 < ts.len() - 1)) && call_core(ts, c, e, c2)
    }
}

/// An assignment: an identifier, `=`, and a full expression.
pub open spec fn assign_case(ts: Seq<TokenItem>, c: int, e: Expr, c2: int) -> bool
    decreases c2 - c, 7int, 0int,
        when c <= c2
{
    match e {
        Expr::Assignment { location, name, value } => ts[c].ttype == TokenType::Identifier
            && ts[c + 1].ttype == TokenType::Equal && name@ == ts[c].lexeme@ && location
            == ts[c].location && c + 2 < c2 && expr_rep(ts, c + 2, 8, *value, c2),
        _ => false,
    }
}

/// A unary operator applied to a unary parse.
pub open spec fn unary_case(ts: Seq<TokenItem>, c: int, e: Expr, c2: int) -> bool
    decreases c2 - c, 2int, 1int,
        when c <= c2
{
    match e {
        Expr::Unary { location, operator, right } => (ts[c].ttype == TokenType::Bang || ts[c].ttype
            == TokenType::Minus) && operator == ts[c].ttype && location == ts[c].location && c + 1
            < c2 && expr_rep(ts, c + 1, 3, *right, c2),
        _ => false,
    }
}

/// A left-associative chain at one binary level: either a parse of the next
/// level, or a chain, the operator, and a next-level parse.
pub open spec fn binary_core(ts: Seq<TokenItem>, c: int, level: int, e: Expr, c2: int) -> bool
    decreases c2 - c, level, 0int,
        when c <= c2 && 4 <= level <= 7
{
    (match e {
        Expr::Binary { location, left, operator, right } => level_op(7 - level, operator) && (
        exists|cm: int|
            c < cm && cm + 1 < c2 && (#[trigger] ts[cm].ttype) == operator && binary_core(
                ts,
                c,
                level,
                *left,
                cm,
            ) && expr_rep(ts, cm + 1, level - 1, *right, c2) && location == ts[c2].location),
        _ => false,
    }) || expr_rep(ts, c, level - 1, e, c2)
}

/// A call chain: a primary, or a chain applied to an argument list whose
/// closing parenthesis sits just before `c2`.
pub open spec fn call_core(ts: Seq<TokenItem>, c: int, e: Expr, c2: int) -> bool
    decreases c2 - c, 2int, 0int,
        when c <= c2
{
    (match e {
        Expr::Call { location, callee, arguments } => ts[c2 - 1].ttype == TokenType::RightParen
            && location == ts[c2 - 1].location && (exists|cm: int|
            c < cm && cm + 1 <= c2 - 1 && (#[trigger] ts[cm].ttype) == TokenType::LeftParen
                && call_core(ts, c, *callee, cm) && args_rep(ts, cm + 1, arguments@, c2 - 1)),
        _ => false,
    }) || primary_rep(ts, c, e, c2)
}

/// An argument list covering `ts[c..c2)`, the closing parenthesis sitting at
/// `c2`: empty, or full expressions separated by commas.
pub open spec fn args_rep(ts: Seq<TokenItem>, c: int, es: Seq<Expr>, c2: int) -> bool
    decreases c2 - c, 9int, 0int,
        when c <= c2
{
    if es.len() == 0 {
        c == c2
    } else if es.len() == 1 {
        c < c2 && expr_rep(ts, c, 8, es[0], c2)
    } else {
        exists|cm: int|
            c < cm && cm + 1 < c2 && (#[trigger] ts[cm].ttype) == TokenType::Comma && expr_rep(
                ts,
                c,
                8,
                es[0],
                cm,
            ) && args_rep(ts, cm + 1, es.drop_first(), c2)
    }
}

/// A primary: a literal, a variable, or a parenthesized expression, which
/// derives whatever stands between its parentheses.
pub open spec fn primary_rep(ts: Seq<TokenItem>, c: int, e: Expr, c2: int) -> bool
    decreases c2 - c, 1int, 0int,
        when c <= c2
{
    (match e {
        Expr::Literal { location, value } => c2 == c + 1 && location == ts[c].location && (ts[c].ttype
            == TokenType::Number || ts[c].ttype == TokenType::String || ts[c].ttype
            == TokenType::True || ts[c].ttype == TokenType::False || ts[c].ttype == TokenType::Nil)
            && ts[c].literal is Some && crate::ast::lit_view(value) == crate::ast::lit_view(
            ts[c].literal->0,
        ),
        Expr::Variable { location, name } => c2 == c + 1 && ts[c].ttype == TokenType::Identifier
            && name@ == ts[c].lexeme@ && location == ts[c].location,
        _ => false,
    }) || (ts[c].ttype == TokenType::LeftParen && ts[c2 - 1].ttype == TokenType::RightParen && c
        + 1 < c2 - 1 && expr_rep(ts, c + 1, 7, e, c2 - 1))
}


/// The parser's walk, as a function of the cursor alone: where each
/// production ends, or nothing where the parse fails. Together with the
/// grammar relations this pins each parsing function completely: it
/// succeeds exactly where the walk says, and its tree satisfies the
/// grammar. Precedences run 8 (assignment) down to 1 (primary) as in
/// `expr_rep`.
pub open spec fn tp_expr(ts: Seq<TokenItem>, c: int, level: int) -> Option<int>
    decreases ts.len() - c, level, 1int,
        when 0 <= c <= ts.len() && 2 <= level <= 8
{
    if level >= 8 {
        // assignment
        match tp_expr(ts, c, 7) {
            Some(n) => {
                if !(n < ts.len() && ts[n].ttype == TokenType::Equal) {
                    Some(n)
                } else {
                    match (if c <= n && n + 1 <= ts.len() {
                        tp_expr(ts, n + 1, 8)
                    } else {
                        None
                    }) {
                        Some(n2) => {
                            if ts[c].ttype == TokenType::Identifier && n == c + 1 {
                                Some(n2)
                            } else {
                                None
                            }
                        },
                        None => None,
                    }
                }
            },
            None => None,
        }
    } else if level >= 4 {
        match tp_expr(ts, c, level - 1) {
            Some(n) => {
                if c < n <= ts.len() {
                    tp_binary_chain(ts, n, level)
                } else {
                    None
                }
            },
            None => None,
        }
    } else if level == 3 {
        if c < ts.len() && (ts[c].ttype == TokenType::Bang || ts[c].ttype == TokenType::Minus) {
            tp_expr(ts, c + 1, 3)
        } else {
            tp_postfix(ts, c)
        }
    } else {
        tp_primary(ts, c)
    }
}

/// The rest of one binary level: operators of the level, each followed by a
/// parse one level down.
pub open spec fn tp_binary_chain(ts: Seq<TokenItem>, c: int, level: int) -> Option<int>
    decreases ts.len() - c, level, 0int,
        when 0 <= c <= ts.len() && 4 <= level <= 8
{
    if c < ts.len() && level_op(7 - level, ts[c].ttype) {
        match (if c + 1 <= ts.len() {
            tp_expr(ts, c + 1, level - 1)
        } else {
            Option::<int>::None
        }) {
            Some(n) => {
                if c < n <= ts.len() {
                    tp_binary_chain(ts, n, level)
                } else {
                    None
                }
            },
            None => None,
        }
    } else {
        Some(c)
    }
}

/// A primary followed by its call argument lists.
pub open spec fn tp_postfix(ts: Seq<TokenItem>, c: int) -> Option<int>
    decreases ts.len() - c, 2int, 1int,
        when 0 <= c <= ts.len()
{
    match tp_primary(ts, c) {
        Some(n) => {
            if c < n <= ts.len() {
                tp_calls(ts, n)
            } else {
                None
            }
        },
        None => None,
    }
}

/// The call chains after a callee: argument lists while a `(` follows (and
/// is not the last token before the end marker).
pub open spec fn tp_calls(ts: Seq<TokenItem>, c: int) -> Option<int>
    decreases ts.len() - c, 2int, 0int,
        when 0 <= c <= ts.len()
{
    if c + 1 < ts.len() && ts[c].ttype == TokenType::LeftParen {
        if ts[c + 1].ttype == TokenType::RightParen {
            tp_calls(ts, c + 2)
        } else {
            match tp_args(ts, c + 1, 1) {
                Some(n) => {
                    if c + 1 < n && n < ts.len() && ts[n].ttype == TokenType::RightParen {
                        tp_calls(ts, n + 1)
                    } else {
                        None
                    }
                },
                None => None,
            }
        }
    } else {
        Some(c)
    }
}

/// One or more comma-separated arguments; more than 255 fail.
pub open spec fn tp_args(ts: Seq<TokenItem>, c: int, count: int) -> Option<int>
    decreases ts.len() - c, 9int, 0int,
        when 0 <= c <= ts.len()
{
    match tp_expr(ts, c, 8) {
        Some(n) => {
            if c < n && n < ts.len() {
                tp_args_cont(ts, n, count)
            } else {
                None
            }
        },
        None => None,
    }
}

/// The rest of an argument list, one argument already behind.
pub open spec fn tp_args_cont(ts: Seq<TokenItem>, n: int, count: int) -> Option<int>
    decreases ts.len() - n, 9int, 1int,
        when 0 <= n < ts.len()
{
    if ts[n].ttype == TokenType::Comma {
        if count >= 255 {
            None
        } else {
            tp_args(ts, n + 1, count + 1)
        }
    } else {
        Some(n)
    }
}

/// A primary: a carried literal, a name, or a parenthesized equality.
pub open spec fn tp_primary(ts: Seq<TokenItem>, c: int) -> Option<int>
    decreases ts.len() - c, 1int, 0int,
        when 0 <= c <= ts.len()
{
    if c >= ts.len() {
        None
    } else {
        let t = ts[c].ttype;
        if t == TokenType::Number || t == TokenType::String || t == TokenType::True || t
            == TokenType::False || t == TokenType::Nil {
            if ts[c].literal is Some {
                Some(c + 1)
            } else {
                None
            }
        } else if t == TokenType::Identifier {
            Some(c + 1)
        } else if t == TokenType::LeftParen {
            match tp_expr(ts, c + 1, 7) {
                Some(n) => {
                    if n < ts.len() && ts[n].ttype == TokenType::RightParen {
                        Some(n + 1)
                    } else {
                        None
                    }
                },
                None => None,
            }
        } else {
            None
        }
    }
}


/// Where one statement ends, dispatching on its leading token, or nothing
/// where it fails.
pub open spec fn tp_stmt(ts: Seq<TokenItem>, c: int) -> Option<int>
    decreases ts.len() - c, 22int, 0int,
        when 0 <= c < ts.len()
{
    let t = ts[c].ttype;
    if t == TokenType::Print {
        tp_closed(ts, c + 1, 7)
    } else if t == TokenType::Var {
        tp_var(ts, c)
    } else if t == TokenType::LeftBrace {
        tp_block(ts, c + 1)
    } else if t == TokenType::If {
        tp_if(ts, c)
    } else if t == TokenType::While {
        tp_while(ts, c)
    } else if t == TokenType::For {
        tp_for(ts, c)
    } else if t == TokenType::Fun {
        tp_fun(ts, c)
    } else if t == TokenType::Return {
        tp_return(ts, c)
    } else {
        tp_closed(ts, c, 8)
    }
}

/// An expression at the given precedence, closed by a semicolon.
pub open spec fn tp_closed(ts: Seq<TokenItem>, c: int, level: int) -> Option<int>
    decreases ts.len() - c, 19int, 0int,
        when 0 <= c <= ts.len() && 2 <= level <= 8
{
    match tp_expr(ts, c, level) {
        Some(n) => {
            if n < ts.len() && ts[n].ttype == TokenType::Semicolon {
                Some(n + 1)
            } else {
                None
            }
        },
        None => None,
    }
}

/// A return statement: a bare semicolon, or a closed expression.
pub open spec fn tp_return(ts: Seq<TokenItem>, c: int) -> Option<int>
    decreases ts.len() - c, 19int, 1int,
        when 0 <= c < ts.len()
{
    if c + 1 < ts.len() && ts[c + 1].ttype == TokenType::Semicolon {
        Some(c + 2)
    } else {
        tp_closed(ts, c + 1, 8)
    }
}

/// A variable declaration from its `var`.
pub open spec fn tp_var(ts: Seq<TokenItem>, c: int) -> Option<int>
    decreases ts.len() - c, 19int, 1int,
        when 0 <= c < ts.len()
{
    if !(c + 1 < ts.len() && ts[c + 1].ttype == TokenType::Identifier) {
        None
    } else if c + 2 < ts.len() && ts[c + 2].ttype == TokenType::Semicolon {
        Some(c + 3)
    } else if c + 2 < ts.len() && ts[c + 2].ttype == TokenType::Equal {
        tp_closed(ts, c + 3, 8)
    } else {
        None
    }
}

/// An if statement from its `if`.
pub open spec fn tp_if(ts: Seq<TokenItem>, c: int) -> Option<int>
    decreases ts.len() - c, 21int, 0int,
        when 0 <= c < ts.len()
{
    if !(c + 1 < ts.len() && ts[c + 1].ttype == TokenType::LeftParen) {
        None
    } else {
        match tp_expr(ts, c + 2, 8) {
            Some(n) => {
                if !(c + 2 <= n && n < ts.len() && ts[n].ttype == TokenType::RightParen) {
                    None
                } else {
                    match tp_stmt(ts, n + 1) {
                        Some(n2) => {
                            if !(n + 1 < n2 && n2 < ts.len()) {
                                None
                            } else if ts[n2].ttype == TokenType::Else {
                                if n2 + 1 < ts.len() {
                                    tp_stmt(ts, n2 + 1)
                                } else {
                                    None
                                }
                            } else {
                                Some(n2)
                            }
                        },
                        None => None,
                    }
                }
            },
            None => None,
        }
    }
}

/// A while statement from its `while`.
pub open spec fn tp_while(ts: Seq<TokenItem>, c: int) -> Option<int>
    decreases ts.len() - c, 21int, 0int,
        when 0 <= c < ts.len()
{
    if !(c + 1 < ts.len() && ts[c + 1].ttype == TokenType::LeftParen) {
        None
    } else {
        match tp_expr(ts, c + 2, 8) {
            Some(n) => {
                if c + 2 <= n && n < ts.len() && ts[n].ttype == TokenType::RightParen {
                    tp_stmt(ts, n + 1)
                } else {
                    None
                }
            },
            None => None,
        }
    }
}

/// A for statement from its `for`: the header's three clauses, then the
/// body.
pub open spec fn tp_for(ts: Seq<TokenItem>, c: int) -> Option<int>
    decreases ts.len() - c, 21int, 0int,
        when 0 <= c < ts.len()
{
    if !(c + 1 < ts.len() && ts[c + 1].ttype == TokenType::LeftParen) {
        None
    } else if c + 2 >= ts.len() {
        None
    } else {
        let init = if ts[c + 2].ttype == TokenType::Semicolon {
            Some(c + 3)
        } else if ts[c + 2].ttype == TokenType::Var {
            tp_var(ts, c + 2)
        } else {
            tp_closed(ts, c + 2, 8)
        };
        match init {
            Some(ci) => {
                if !(c + 2 < ci && ci < ts.len()) {
                    None
                } else {
                    let cond = if ts[ci].ttype == TokenType::Semicolon {
                        Some(ci + 1)
                    } else {
                        tp_closed(ts, ci, 8)
                    };
                    match cond {
                        Some(cc) => {
                            if !(ci < cc && cc < ts.len()) {
                                None
                            } else {
                                let inc = if ts[cc].ttype == TokenType::RightParen {
                                    Some(cc + 1)
                                } else {
                                    match tp_expr(ts, cc, 8) {
                                        Some(cp) => {
                                            if cc <= cp && cp < ts.len() && ts[cp].ttype
                                                == TokenType::RightParen {
                                                Some(cp + 1)
                                            } else {
                                                None
                                            }
                                        },
                                        None => None,
                                    }
                                };
                                match inc {
                                    Some(cb) => {
                                        if cc < cb && cb < ts.len() {
                                            tp_stmt(ts, cb)
                                        } else {
                                            None
                                        }
                                    },
                                    None => None,
                                }
                            }
                        },
                        None => None,
                    }
                }
            },
            None => None,
        }
    }
}

/// A function declaration from its `fun`.
pub open spec fn tp_fun(ts: Seq<TokenItem>, c: int) -> Option<int>
    decreases ts.len() - c, 21int, 0int,
        when 0 <= c < ts.len()
{
    if !(c + 1 < ts.len() && ts[c + 1].ttype == TokenType::Identifier) {
        None
    } else if !(c + 2 < ts.len() && ts[c + 2].ttype == TokenType::LeftParen) {
        None
    } else if c + 3 >= ts.len() {
        None
    } else {
        let after = if ts[c + 3].ttype == TokenType::RightParen {
            Some(c + 3)
        } else {
            tp_params(ts, c + 3, 1)
        };
        match after {
            Some(cp) => {
                if !(c + 3 <= cp && cp < ts.len() && ts[cp].ttype == TokenType::RightParen) {
                    None
                } else if !(cp + 1 < ts.len() && ts[cp + 1].ttype == TokenType::LeftBrace) {
                    None
                } else {
                    tp_block(ts, cp + 2)
                }
            },
            None => None,
        }
    }
}

/// Parameter names separated by commas; more than 255 fail.
pub open spec fn tp_params(ts: Seq<TokenItem>, c: int, count: int) -> Option<int>
    decreases ts.len() - c, 19int, 0int,
        when 0 <= c <= ts.len()
{
    if !(c < ts.len() && ts[c].ttype == TokenType::Identifier) {
        None
    } else {
        tp_params_cont(ts, c + 1, count)
    }
}

/// The rest of a parameter list, one name already behind.
pub open spec fn tp_params_cont(ts: Seq<TokenItem>, m: int, count: int) -> Option<int>
    decreases ts.len() - m, 19int, 1int,
        when 0 <= m <= ts.len()
{
    if m < ts.len() && ts[m].ttype == TokenType::Comma {
        if count >= 255 {
            None
        } else {
            tp_params(ts, m + 1, count + 1)
        }
    } else {
        Some(m)
    }
}

/// A block's statements from just after its `{`, up past its `}`.
pub open spec fn tp_block(ts: Seq<TokenItem>, c: int) -> Option<int>
    decreases ts.len() - c, 23int, 0int,
        when 0 <= c <= ts.len()
{
    if c >= ts.len() {
        None
    } else if ts[c].ttype == TokenType::RightBrace {
        Some(c + 1)
    } else if ts[c].ttype == TokenType::EoF {
        None
    } else {
        match tp_stmt(ts, c) {
            Some(n) => {
                if c < n && n <= ts.len() {
                    tp_block(ts, n)
                } else {
                    None
                }
            },
            None => None,
        }
    }
}

/// Whether a whole program parses cleanly: statements in order up to the
/// end-of-file token.
pub open spec fn tp_program(ts: Seq<TokenItem>, c: int) -> bool
    decreases ts.len() - c,
        when 0 <= c <= ts.len()
{
    if c >= ts.len() || ts[c].ttype == TokenType::EoF {
        true
    } else {
        match tp_stmt(ts, c) {
            Some(n) => {
                if c < n && n <= ts.len() {
                    tp_program(ts, n)
                } else {
                    false
                }
            },
            None => false,
        }
    }
}

/// An expression statement: a full expression closed by a semicolon.
pub open spec fn expr_stmt_rep(ts: Seq<TokenItem>, c: int, s: Stmt, c2: int) -> bool
    decreases c2 - c, 19int, 0int,
        when c <= c2
{
    match s {
        Stmt::Expression(e) => exists|cm: int|
            c <= cm && cm + 1 == c2 && (#[trigger] ts[cm].ttype) == TokenType::Semicolon
                && expr_rep(ts, c, 8, e, cm),
        _ => false,
    }
}

/// The statement grammar, as a relation dispatching on the leading token,
/// with `for` loops related to their desugared `while` form.
pub open spec fn stmt_rep(ts: Seq<TokenItem>, c: int, s: Stmt, c2: int) -> bool
    decreases c2 - c, 22int, 0int,
        when c <= c2
{
    let t = ts[c].ttype;
    if t == TokenType::Print {
        match s {
            Stmt::Print(e) => exists|cm: int|
                c + 1 <= cm && cm + 1 == c2 && (#[trigger] ts[cm].ttype) == TokenType::Semicolon
                    && expr_rep(ts, c + 1, 7, e, cm),
            _ => false,
        }
    } else if t == TokenType::Var {
        var_rep(ts, c, s, c2)
    } else if t == TokenType::LeftBrace {
        match s {
            Stmt::Block(v) => exists|cm: int|
                c + 1 <= cm && cm + 1 == c2 && (#[trigger] ts[cm].ttype) == TokenType::RightBrace
                    && stmts_chain(ts, c + 1, v@, cm),
            _ => false,
        }
    } else if t == TokenType::If {
        match s {
            Stmt::If { condition, then_branch, else_branch } => ts[c + 1].ttype
                == TokenType::LeftParen && (exists|c3: int, c4: int|
                #![trigger ts[c3].ttype, ts[c4].ttype]
                c + 2 <= c3 && c3 + 1 <= c4 <= c2 && ts[c3].ttype
                    == TokenType::RightParen && expr_rep(ts, c + 2, 8, condition, c3) && stmt_rep(
                    ts,
                    c3 + 1,
                    *then_branch,
                    c4,
                ) && (match else_branch {
                    Some(el) => ts[c4].ttype == TokenType::Else && c4 + 1 <= c2 && stmt_rep(
                        ts,
                        c4 + 1,
                        *el,
                        c2,
                    ),
                    None => c4 == c2 && ts[c4].ttype != TokenType::Else,
                })),
            _ => false,
        }
    } else if t == TokenType::While {
        match s {
            Stmt::While { condition, body } => ts[c + 1].ttype == TokenType::LeftParen && (exists|
                c3: int,
            |
                c + 2 <= c3 && c3 + 1 <= c2 && (#[trigger] ts[c3].ttype) == TokenType::RightParen
                    && expr_rep(ts, c + 2, 8, condition, c3) && stmt_rep(ts, c3 + 1, *body, c2)),
            _ => false,
        }
    } else if t == TokenType::For {
        for_rep(ts, c, s, c2)
    } else if t == TokenType::Fun {
        match s {
            Stmt::FunDecl { name, params, body } => ts[c + 1].ttype == TokenType::Identifier
                && name@ == ts[c + 1].lexeme@ && ts[c + 2].ttype == TokenType::LeftParen && (exists|
                cp: int,
                cm: int,
            |
                #![trigger ts[cp].ttype, ts[cm].ttype]
                c + 3 <= cp && cp + 2 <= cm && cm + 1 == c2 && ts[cp].ttype
                    == TokenType::RightParen && ts[cp + 1].ttype == TokenType::LeftBrace
                    && ts[cm].ttype == TokenType::RightBrace && params.deep_view().len() <= 255
                    && params_rep(ts, c + 3, params.deep_view(), cp) && (match *body {
                    Stmt::Block(v) => stmts_chain(ts, cp + 2, v@, cm),
                    _ => false,
                })),
            _ => false,
        }
    } else if t == TokenType::Return {
        match s {
            Stmt::Return(e) => if ts[c + 1].ttype == TokenType::Semicolon {
                c2 == c + 2 && e == (Expr::Literal {
                    location: ts[c + 1].location,
                    value: Literal::Nil,
                })
            } else {
                exists|cm: int|
                    c + 1 <= cm && cm + 1 == c2 && (#[trigger] ts[cm].ttype)
                        == TokenType::Semicolon && expr_rep(ts, c + 1, 8, e, cm)
            },
            _ => false,
        }
    } else {
        expr_stmt_rep(ts, c, s, c2)
    }
}

/// A variable declaration: the name, an optional initializer (a full
/// expression), the semicolon.
pub open spec fn var_rep(ts: Seq<TokenItem>, c: int, s: Stmt, c2: int) -> bool
    decreases c2 - c, 19int, 0int,
        when c <= c2
{
    match s {
        Stmt::VarDecl { name, location, initializer } => ts[c + 1].ttype == TokenType::Identifier
            && name@ == ts[c + 1].lexeme@ && (match initializer {
            None => ts[c + 2].ttype == TokenType::Semicolon && location == ts[c + 2].location && c2
                == c + 3,
            Some(e) => ts[c + 2].ttype == TokenType::Equal && (exists|cm: int|
                c + 3 <= cm && cm + 1 == c2 && (#[trigger] ts[cm].ttype) == TokenType::Semicolon
                    && location == ts[cm].location && expr_rep(ts, c + 3, 8, e, cm)),
        }),
        _ => false,
    }
}

/// A `for` statement, already desugared: the initializer (if any) wraps a
/// `while` loop whose body appends the increment (if any).
pub open spec fn for_rep(ts: Seq<TokenItem>, c: int, s: Stmt, c2: int) -> bool
    decreases c2 - c, 21int, 0int,
        when c <= c2
{
    ts[c + 1].ttype == TokenType::LeftParen && (exists|ci: int, cc: int, cp: int|
        c + 2 <= ci <= cc <= cp && cp + 1 <= c2 && #[trigger] for_mark(ci, cc, cp) && (match s {
            Stmt::Block(v) => v@.len() == 2 && init_rep(ts, c + 2, Some(v@[0]), ci) && loop_rep(
                ts,
                ci,
                cc,
                cp,
                v@[1],
                c2,
            ),
            _ => init_rep(ts, c + 2, None, ci) && loop_rep(ts, ci, cc, cp, s, c2),
        }))
}

/// A marker used to pick the three cursors of a `for` header together.
pub open spec fn for_mark(a: int, b: int, d: int) -> bool {
    true
}

/// A marker used to pick where one statement of a chain ends.
pub open spec fn chain_mark(a: int) -> bool {
    true
}

/// The initializer clause of a `for` header: nothing (a bare semicolon), a
/// variable declaration, or an expression statement.
pub open spec fn init_rep(ts: Seq<TokenItem>, c: int, s: Option<Stmt>, c2: int) -> bool
    decreases c2 - c, 20int, 0int,
        when c <= c2
{
    match s {
        None => ts[c].ttype == TokenType::Semicolon && c2 == c + 1,
        Some(st) => if ts[c].ttype == TokenType::Var {
            var_rep(ts, c, st, c2)
        } else {
            ts[c].ttype != TokenType::Semicolon && expr_stmt_rep(ts, c, st, c2)
        },
    }
}

/// The condition, increment and body of a desugared `for`: `w` must be the
/// `while` loop built from them.
pub open spec fn loop_rep(ts: Seq<TokenItem>, ci: int, cc: int, cp: int, w: Stmt, c2: int) -> bool
    decreases c2 - ci, 20int, 0int,
        when ci <= cc <= cp && cp < c2
{
    match w {
        Stmt::While { condition, body } => cond_rep(ts, ci, condition, cc) && (if ts[cc].ttype
            == TokenType::RightParen {
            // no increment: the body is the loop body itself
            cp == cc && cp + 1 <= c2 && stmt_rep(ts, cp + 1, *body, c2)
        } else {
            // an increment: the body is a block of the real body then it
            match *body {
                Stmt::Block(v) => v@.len() == 2 && (match v@[1] {
                    Stmt::Expression(inc) => ci < cc <= cp && expr_rep(ts, cc, 8, inc, cp)
                        && ts[cp].ttype == TokenType::RightParen && cp + 1 <= c2 && stmt_rep(
                        ts,
                        cp + 1,
                        v@[0],
                        c2,
                    ),
                    _ => false,
                }),
                _ => false,
            }
        }),
        _ => false,
    }
}

/// The condition slot of a `for` header: a bare semicolon stands for the
/// literal `true`, written with the location of the token after it.
pub open spec fn cond_rep(ts: Seq<TokenItem>, ci: int, e: Expr, cc: int) -> bool
    decreases cc - ci, 19int, 0int,
        when ci <= cc
{
    if ts[ci].ttype == TokenType::Semicolon {
        cc == ci + 1 && e == (Expr::Literal { location: ts[cc].location, value: Literal::True })
    } else {
        exists|cm: int|
            ci <= cm && cm + 1 == cc && (#[trigger] ts[cm].ttype) == TokenType::Semicolon
                && expr_rep(ts, ci, 8, e, cm)
    }
}

/// A whole program: statements covering the tokens from the first up to the
/// end-of-file token.
pub open spec fn program_rep(ts: Seq<TokenItem>, ss: Seq<Stmt>) -> bool {
    exists|c: int|
        0 <= c < ts.len() && #[trigger] stmts_chain(ts, 0, ss, c) && ts[c].ttype == TokenType::EoF
}

/// Statements following one another, covering `ts[c..c2)` exactly.
pub open spec fn stmts_chain(ts: Seq<TokenItem>, c: int, ss: Seq<Stmt>, c2: int) -> bool
    decreases c2 - c, 23int, 0int,
        when c <= c2
{
    if ss.len() == 0 {
        c == c2
    } else {
        exists|cm: int|
            c < cm <= c2 && #[trigger] chain_mark(cm) && stmt_rep(ts, c, ss[0], cm)
                && stmts_chain(ts, cm, ss.drop_first(), c2)
    }
}

/// Parameter names separated by commas, ending before the `)` at `c2`.
pub open spec fn params_rep(ts: Seq<TokenItem>, c: int, ps: Seq<Seq<char>>, c2: int) -> bool
    decreases c2 - c, 19int, 0int,
        when c <= c2
{
    if ps.len() == 0 {
        c == c2
    } else if ps.len() == 1 {
        c2 == c + 1 && ts[c].ttype == TokenType::Identifier && ps[0] == ts[c].lexeme@
    } else {
        ts[c].ttype == TokenType::Identifier && ps[0] == ts[c].lexeme@ && ts[c + 1].ttype
            == TokenType::Comma && c + 2 <= c2 && params_rep(ts, c + 2, ps.drop_first(), c2)
    }
}

/// A token that is not the end-of-file token sits strictly before it.
proof fn lemma_non_eof(ts: Seq<TokenItem>, i: int)
    requires
        tokens_wf(ts),
        0 <= i < ts.len(),
        ts[i].ttype != TokenType::EoF,
    ensures
        i < ts.len() - 1,
{
    if i == ts.len() - 1 {
        assert(ts[i] == ts.last());
    }
}


/// A one-token parse of an identifier is a variable read: every other form
/// either needs more tokens or another leading token.
proof fn lemma_span_one(ts: Seq<TokenItem>, c: int, e: Expr)
    requires
        0 <= c,
        c + 1 <= ts.len(),
        expr_rep(ts, c, 7, e, c + 1),
        ts[c].ttype == TokenType::Identifier,
    ensures
        e is Variable,
{
    match e {
        Expr::Variable { .. } => {},
        _ => {
            assert(binary_core(ts, c, 7, e, c + 1));
            assert(expr_rep(ts, c, 6, e, c + 1));
            assert(binary_core(ts, c, 6, e, c + 1));
            assert(expr_rep(ts, c, 5, e, c + 1));
            assert(binary_core(ts, c, 5, e, c + 1));
            assert(expr_rep(ts, c, 4, e, c + 1));
            assert(binary_core(ts, c, 4, e, c + 1));
            assert(expr_rep(ts, c, 3, e, c + 1));
            assert(!unary_case(ts, c, e, c + 1));
            assert(expr_rep(ts, c, 2, e, c + 1));
            assert(call_core(ts, c, e, c + 1));
            assert(primary_rep(ts, c, e, c + 1));
            assert(false);
        },
    }
}

/// Appending one more comma-separated argument extends an argument list.
proof fn lemma_args_snoc(ts: Seq<TokenItem>, a: int, es: Seq<Expr>, b: int, e: Expr, c2: int)
    requires
        a <= b,
        es.len() >= 1,
        args_rep(ts, a, es, b),
        ts[b].ttype == TokenType::Comma,
        b + 1 < c2,
        expr_rep(ts, b + 1, 8, e, c2),
    ensures
        args_rep(ts, a, es.push(e), c2),
    decreases es.len(),
{
    if es.len() == 1 {
        assert(a < b);
        assert(es.push(e)[0] == es[0]);
        assert(es.push(e).drop_first() =~= seq![e]);
        assert(args_rep(ts, b + 1, es.push(e).drop_first(), c2));
        assert(args_rep(ts, a, es.push(e), c2));
    } else {
        let cm = choose|cm: int|
            a < cm && cm + 1 < b && (#[trigger] ts[cm].ttype) == TokenType::Comma && expr_rep(
                ts,
                a,
                8,
                es[0],
                cm,
            ) && args_rep(ts, cm + 1, es.drop_first(), b);
        lemma_args_snoc(ts, cm + 1, es.drop_first(), b, e, c2);
        assert(es.push(e).drop_first() =~= es.drop_first().push(e));
        assert(es.push(e)[0] == es[0]);
        assert(args_rep(ts, a, es.push(e), c2));
    }
}


/// Appending one more statement extends a chain.
proof fn lemma_chain_snoc(ts: Seq<TokenItem>, a: int, ss: Seq<Stmt>, b: int, s: Stmt, c2: int)
    requires
        a <= b,
        stmts_chain(ts, a, ss, b),
        b < c2,
        stmt_rep(ts, b, s, c2),
    ensures
        stmts_chain(ts, a, ss.push(s), c2),
    decreases ss.len(),
{
    if ss.len() == 0 {
        assert(a == b);
        assert(ss.push(s)[0] == s);
        assert(ss.push(s).drop_first() =~= Seq::<Stmt>::empty());
        assert(chain_mark(c2));
        assert(stmts_chain(ts, c2, ss.push(s).drop_first(), c2));
        assert(stmts_chain(ts, a, ss.push(s), c2));
    } else {
        let cm = choose|cm: int|
            a < cm <= b && #[trigger] chain_mark(cm) && stmt_rep(ts, a, ss[0], cm)
                && stmts_chain(ts, cm, ss.drop_first(), b);
        lemma_chain_snoc(ts, cm, ss.drop_first(), b, s, c2);
        assert(ss.push(s).drop_first() =~= ss.drop_first().push(s));
        assert(ss.push(s)[0] == ss[0]);
        assert(stmts_chain(ts, a, ss.push(s), c2));
    }
}

/// Appending one more comma-separated name extends a parameter list.
proof fn lemma_params_snoc(ts: Seq<TokenItem>, a: int, ps: Seq<Seq<char>>, b: int, c2: int)
    requires
        a <= b,
        ps.len() >= 1,
        params_rep(ts, a, ps, b),
        ts[b].ttype == TokenType::Comma,
        ts[b + 1].ttype == TokenType::Identifier,
        c2 == b + 2,
    ensures
        params_rep(ts, a, ps.push(ts[b + 1].lexeme@), c2),
    decreases ps.len(),
{
    let ps2 = ps.push(ts[b + 1].lexeme@);
    if ps.len() == 1 {
        assert(b == a + 1 && ts[a].ttype == TokenType::Identifier && ps[0] == ts[a].lexeme@);
        assert(ps2[0] == ps[0]);
        assert(ps2.drop_first() =~= seq![ts[b + 1].lexeme@]);
        assert(ps2.drop_first().len() == 1);
        assert(ps2.drop_first()[0] == ts[b + 1].lexeme@);
        assert(params_rep(ts, b + 1, ps2.drop_first(), c2));
        assert(params_rep(ts, a, ps2, c2));
    } else {
        lemma_params_snoc(ts, a + 2, ps.drop_first(), b, c2);
        assert(ps2.drop_first() =~= ps.drop_first().push(ts[b + 1].lexeme@));
        assert(ps2[0] == ps[0]);
        assert(params_rep(ts, a, ps2, c2));
    }
}

/// A function declaration assembles into the statement the grammar says.
#[verifier::rlimit(60)]
#[verifier::spinoff_prover]
proof fn lemma_fun_stmt(ts: Seq<TokenItem>, c: int, cp: int, c2: int, res: Stmt)
    requires
        tokens_wf(ts),
        0 <= c,
        c + 3 <= cp,
        cp + 2 <= c2,
        c2 <= ts.len(),
        ts[c].ttype == TokenType::Fun,
        ts[c + 1].ttype == TokenType::Identifier,
        ts[c + 2].ttype == TokenType::LeftParen,
        ts[cp].ttype == TokenType::RightParen,
        ts[cp + 1].ttype == TokenType::LeftBrace,
        match res {
            Stmt::FunDecl { name, params, body } => name@ == ts[c + 1].lexeme@
                && params.deep_view().len() <= 255 && params_rep(ts, c + 3, params.deep_view(), cp)
                && stmt_rep(ts, cp + 1, *body, c2),
            _ => false,
        },
    ensures
        stmt_rep(ts, c, res, c2),
{
    match res {
        Stmt::FunDecl { name, params, body } => {
            assert(stmt_rep(ts, cp + 1, *body, c2));
            match *body {
                Stmt::Block(v) => {
                    let cm = choose|cm: int|
                        cp + 2 <= cm && cm + 1 == c2 && (#[trigger] ts[cm].ttype)
                            == TokenType::RightBrace && stmts_chain(ts, cp + 2, v@, cm);
                    assert(ts[cp].ttype == TokenType::RightParen);
                    assert(ts[cm].ttype == TokenType::RightBrace);
                    assert(stmt_rep(ts, c, res, c2));
                },
                _ => {
                    assert(false);
                },
            }
        },
        _ => {},
    }
}

/// The parser; one use parses one token stream.
pub struct Parser {}

impl Parser {
    pub fn new() -> (r: Self)
        ensures
            true,
    {
        Parser {  }
    }

    fn primary(&self, tokens: &Vec<TokenItem>, cursor: usize) -> (r: (Result<Expr, Error>, usize))
        requires
            tokens_wf(tokens@),
            cursor < tokens@.len(),
        ensures
            cursor <= r.1 < tokens@.len(),
            r.0 is Ok ==> primary_rep(tokens@, cursor as int, r.0->Ok_0, r.1 as int) && cursor
                < r.1,
            r.0 is Ok ==> tp_primary(tokens@, cursor as int) == Some(r.1 as int),
            r.0 is Err ==> tp_primary(tokens@, cursor as int) is None,
        decreases tokens@.len() - cursor, 1int,
    {
        let n = tokens.len();
        match tokens[cursor].ttype {
            TokenType::Number | TokenType::String | TokenType::True | TokenType::False
                | TokenType::Nil => {
                match &tokens[cursor].literal {
                    Some(v) => {
                        let value = v.dup();
                        let location = tokens[cursor].location;
                        proof {
                            lemma_non_eof(tokens@, cursor as int);
                        }
                        (Ok(Expr::Literal { location, value }), cursor + 1)
                    },
                    None => (
                        Err(
                            Error::UnexpectedToken {
                                lexeme: tokens[cursor].lexeme.clone(),
                                location: tokens[cursor].location,
                            },
                        ),
                        cursor,
                    ),
                }
            },
            TokenType::Identifier => {
                let name = tokens[cursor].lexeme.clone();
                let location = tokens[cursor].location;
                proof {
                    lemma_non_eof(tokens@, cursor as int);
                }
                (Ok(Expr::Variable { location, name }), cursor + 1)
            },
            TokenType::LeftParen => {
                proof {
                    lemma_non_eof(tokens@, cursor as int);
                }
                let (try_e, nc) = self.binary(tokens, cursor + 1, 7);
                match try_e {
                    Ok(e) => {
                        if matches!(tokens[nc].ttype, TokenType::RightParen) {
                            proof {
                                lemma_non_eof(tokens@, nc as int);
                            }
                            (Ok(e), nc + 1)
                        } else {
                            (
                                Err(
                                    Error::UnterminatedParen {
                                        location: tokens[cursor].location,
                                    },
                                ),
                                nc,
                            )
                        }
                    },
                    Err(er) => (Err(er), nc),
                }
            },
            _ => (
                Err(
                    Error::UnexpectedToken {
                        lexeme: tokens[cursor].lexeme.clone(),
                        location: tokens[cursor].location,
                    },
                ),
                cursor,
            ),
        }
    }

    fn call(&self, tokens: &Vec<TokenItem>, cursor: usize) -> (r: (Result<Expr, Error>, usize))
        requires
            tokens_wf(tokens@),
            cursor < tokens@.len(),
        ensures
            cursor <= r.1 < tokens@.len(),
            r.0 is Ok ==> expr_rep(tokens@, cursor as int, 2, r.0->Ok_0, r.1 as int) && cursor
                < r.1,
            r.0 is Ok ==> tp_postfix(tokens@, cursor as int) == Some(r.1 as int),
            r.0 is Err ==> tp_postfix(tokens@, cursor as int) is None,
        decreases tokens@.len() - cursor, 2int,
    {
        let n = tokens.len();
        let (try_callee, next_cursor) = self.primary(tokens, cursor);
        let mut callee = match try_callee {
            Ok(c) => c,
            Err(er) => {
                return (Err(er), next_cursor);
            },
        };
        let mut cur = next_cursor;
        while cur + 1 < n && matches!(tokens[cur].ttype, TokenType::LeftParen)
            invariant
                tokens_wf(tokens@),
                n == tokens@.len(),
                cursor < cur < tokens@.len(),
                call_core(tokens@, cursor as int, callee, cur as int),
                tp_postfix(tokens@, cursor as int) == tp_calls(tokens@, cur as int),
            ensures
                cursor < cur < tokens@.len(),
                call_core(tokens@, cursor as int, callee, cur as int),
                !(tokens@[cur as int].ttype == TokenType::LeftParen && cur < tokens@.len() - 1),
                tp_postfix(tokens@, cursor as int) == tp_calls(tokens@, cur as int),
            decreases tokens@.len() - cur,
        {
            let ghost lp = cur as int;
            let ghost old_callee = callee;
            let mut arguments: Vec<Expr> = Vec::new();
            let mut cur2 = cur + 1;
            if !matches!(tokens[cur2].ttype, TokenType::RightParen) {
                let (try_arg, nc) = self.expression(tokens, cur2);
                match try_arg {
                    Ok(a) => {
                        arguments.push(a);
                        cur2 = nc;
                        proof {
                            assert(tp_args(tokens@, lp + 1, 1) == tp_args_cont(
                                tokens@,
                                nc as int,
                                1,
                            ));
                        }
                    },
                    Err(er) => {
                        proof {
                            assert(tp_args(tokens@, lp + 1, 1) is None);
                            assert(tp_calls(tokens@, lp) is None);
                        }
                        return (Err(er), nc);
                    },
                }
                while matches!(tokens[cur2].ttype, TokenType::Comma)
                    invariant
                        tokens_wf(tokens@),
                        n == tokens@.len(),
                        (cursor as int) < lp,
                        lp < cur2 < tokens@.len(),
                        arguments@.len() >= 1,
                        args_rep(tokens@, lp + 1, arguments@, cur2 as int),
                        tokens@[lp].ttype == TokenType::LeftParen,
                        lp + 1 < tokens@.len(),
                        tokens@[lp + 1].ttype != TokenType::RightParen,
                        tp_postfix(tokens@, cursor as int) == tp_calls(tokens@, lp),
                        tp_args(tokens@, lp + 1, 1) == tp_args_cont(
                            tokens@,
                            cur2 as int,
                            arguments@.len() as int,
                        ),
                    ensures
                        lp < cur2 < tokens@.len(),
                        arguments@.len() >= 1,
                        args_rep(tokens@, lp + 1, arguments@, cur2 as int),
                        tokens@[cur2 as int].ttype != TokenType::Comma,
                        tp_args(tokens@, lp + 1, 1) == tp_args_cont(
                            tokens@,
                            cur2 as int,
                            arguments@.len() as int,
                        ),
                    decreases tokens@.len() - cur2,
                {
                    if arguments.len() >= 255 {
                        proof {
                            assert(tp_args_cont(
                                tokens@,
                                cur2 as int,
                                arguments@.len() as int,
                            ) is None);
                            assert(tp_calls(tokens@, lp) is None);
                        }
                        return (
                            (
                                Err(
                                    Error::TooManyArguments {
                                        location: tokens[cur2].location,
                                    },
                                ),
                                cur2,
                            )
                        );
                    }
                    proof {
                        lemma_non_eof(tokens@, cur2 as int);
                    }
                    let ghost b = cur2 as int;
                    let ghost pre_args = arguments@;
                    let (try_arg, nc) = self.expression(tokens, cur2 + 1);
                    match try_arg {
                        Ok(a) => {
                            proof {
                                lemma_args_snoc(
                                    tokens@,
                                    lp + 1,
                                    pre_args,
                                    b,
                                    a,
                                    nc as int,
                                );
                                assert(tp_args_cont(tokens@, b, pre_args.len() as int)
                                    == tp_args(tokens@, b + 1, pre_args.len() as int + 1));
                                assert(tp_args(tokens@, b + 1, pre_args.len() as int + 1)
                                    == tp_args_cont(tokens@, nc as int, pre_args.len() as int + 1));
                            }
                            arguments.push(a);
                            cur2 = nc;
                        },
                        Err(er) => {
                            proof {
                                assert(tp_args(
                                    tokens@,
                                    b + 1,
                                    pre_args.len() as int + 1,
                                ) is None);
                                assert(tp_args_cont(tokens@, b, pre_args.len() as int) is None);
                                assert(tp_calls(tokens@, lp) is None);
                            }
                            return (Err(er), nc);
                        },
                    }
                }
            }
            if !matches!(tokens[cur2].ttype, TokenType::RightParen) {
                proof {
                    assert(tokens@[lp + 1].ttype != TokenType::RightParen);
                    assert(tp_args(tokens@, lp + 1, 1) == Some(cur2 as int));
                    assert(tp_calls(tokens@, lp) is None);
                }
                return (
                    (Err(Error::UnterminatedParen { location: tokens[cur2].location }), cur2)
                );
            }
            proof {
                lemma_non_eof(tokens@, cur2 as int);
                if arguments@.len() == 0 {
                    assert(args_rep(tokens@, lp + 1, arguments@, cur2 as int));
                }
            }
            let location = tokens[cur2].location;
            callee = Expr::Call { callee: Box::new(callee), location, arguments };
            cur = cur2 + 1;
            proof {
                assert(call_core(tokens@, cursor as int, old_callee, lp));
                assert(tokens@[lp].ttype == TokenType::LeftParen);
                assert(call_core(tokens@, cursor as int, callee, cur as int));
                if tokens@[lp + 1].ttype == TokenType::RightParen {
                    assert(tp_calls(tokens@, lp) == tp_calls(tokens@, lp + 2));
                } else {
                    assert(tp_args(tokens@, lp + 1, 1) == Some(cur2 as int));
                    assert(tp_calls(tokens@, lp) == tp_calls(tokens@, cur2 + 1));
                }
            }
        }
        (Ok(callee), cur)
    }

    fn unary(&self, tokens: &Vec<TokenItem>, cursor: usize) -> (r: (Result<Expr, Error>, usize))
        requires
            tokens_wf(tokens@),
            cursor < tokens@.len(),
        ensures
            cursor <= r.1 < tokens@.len(),
            r.0 is Ok ==> expr_rep(tokens@, cursor as int, 3, r.0->Ok_0, r.1 as int) && cursor
                < r.1,
            r.0 is Ok ==> tp_expr(tokens@, cursor as int, 3) == Some(r.1 as int),
            r.0 is Err ==> tp_expr(tokens@, cursor as int, 3) is None,
        decreases tokens@.len() - cursor, 3int,
    {
        let n = tokens.len();
        if matches!(tokens[cursor].ttype, TokenType::Bang | TokenType::Minus) {
            let operator = tokens[cursor].ttype;
            proof {
                lemma_non_eof(tokens@, cursor as int);
            }
            let (try_right, nc) = self.unary(tokens, cursor + 1);
            match try_right {
                Ok(right) => {
                    let res = Expr::Unary {
                        location: tokens[cursor].location,
                        operator,
                        right: Box::new(right),
                    };
                    proof {
                        assert(unary_case(tokens@, cursor as int, res, nc as int));
                    }
                    (Ok(res), nc)
                },
                Err(er) => (Err(er), nc),
            }
        } else {
            self.call(tokens, cursor)
        }
    }

    fn binary(&self, tokens: &Vec<TokenItem>, cursor: usize, level: u8) -> (r: (
        Result<Expr, Error>,
        usize,
    ))
        requires
            tokens_wf(tokens@),
            cursor < tokens@.len(),
            4 <= level <= 7,
        ensures
            cursor <= r.1 < tokens@.len(),
            r.0 is Ok ==> expr_rep(tokens@, cursor as int, level as int, r.0->Ok_0, r.1 as int)
                && cursor < r.1,
            r.0 is Ok ==> tp_expr(tokens@, cursor as int, level as int) == Some(r.1 as int),
            r.0 is Err ==> tp_expr(tokens@, cursor as int, level as int) is None,
        decreases tokens@.len() - cursor, level as int,
    {
        let n = tokens.len();
        let (try_left, nc) = if level == 4 {
            self.unary(tokens, cursor)
        } else {
            self.binary(tokens, cursor, level - 1)
        };
        let mut left = match try_left {
            Ok(l) => l,
            Err(er) => {
                return (Err(er), nc);
            },
        };
        let mut cur = nc;
        while self.is_level_op(tokens[cur].ttype, level)
            invariant
                tokens_wf(tokens@),
                n == tokens@.len(),
                4 <= level <= 7,
                cursor < cur < tokens@.len(),
                binary_core(tokens@, cursor as int, level as int, left, cur as int),
                tp_expr(tokens@, cursor as int, level as int) == tp_binary_chain(
                    tokens@,
                    cur as int,
                    level as int,
                ),
            ensures
                cursor < cur < tokens@.len(),
                binary_core(tokens@, cursor as int, level as int, left, cur as int),
                !level_op(7 - level as int, tokens@[cur as int].ttype),
                tp_expr(tokens@, cursor as int, level as int) == tp_binary_chain(
                    tokens@,
                    cur as int,
                    level as int,
                ),
            decreases tokens@.len() - cur,
        {
            let operator = tokens[cur].ttype;
            proof {
                lemma_non_eof(tokens@, cur as int);
            }
            let ghost op_pos = cur as int;
            let ghost old_left = left;
            let (try_right, nc2) = if level == 4 {
                self.unary(tokens, cur + 1)
            } else {
                self.binary(tokens, cur + 1, level - 1)
            };
            let right = match try_right {
                Ok(rr) => rr,
                Err(er) => {
                    return (Err(er), nc2);
                },
            };
            left = Expr::Binary {
                location: tokens[nc2].location,
                left: Box::new(left),
                operator,
                right: Box::new(right),
            };
            cur = nc2;
            proof {
                assert(tokens@[op_pos].ttype == operator);
                assert(binary_core(tokens@, cursor as int, level as int, left, cur as int));
            }
        }
        (Ok(left), cur)
    }

    fn is_level_op(&self, t: TokenType, level: u8) -> (r: bool)
        requires
            4 <= level <= 7,
        ensures
            r == level_op(7 - level as int, t),
    {
        if level == 7 {
            matches!(t, TokenType::BangEq | TokenType::EqualEq)
        } else if level == 6 {
            matches!(
                t,
                TokenType::Greater | TokenType::GreaterEq | TokenType::Less | TokenType::LessEq
            )
        } else if level == 5 {
            matches!(t, TokenType::Minus | TokenType::Plus)
        } else {
            matches!(t, TokenType::Slash | TokenType::Star)
        }
    }

    fn assignment(&self, tokens: &Vec<TokenItem>, cursor: usize) -> (r: (
        Result<Expr, Error>,
        usize,
    ))
        requires
            tokens_wf(tokens@),
            cursor < tokens@.len(),
        ensures
            cursor <= r.1 < tokens@.len(),
            r.0 is Ok ==> expr_rep(tokens@, cursor as int, 8, r.0->Ok_0, r.1 as int) && cursor
                < r.1,
            r.0 is Ok ==> tp_expr(tokens@, cursor as int, 8) == Some(r.1 as int),
            r.0 is Err ==> tp_expr(tokens@, cursor as int, 8) is None,
        decreases tokens@.len() - cursor, 9int,
    {
        let n = tokens.len();
        let (try_e, nc) = self.binary(tokens, cursor, 7);
        let e = match try_e {
            Ok(e) => e,
            Err(er) => {
                return (Err(er), nc);
            },
        };
        if !matches!(tokens[nc].ttype, TokenType::Equal) {
            proof {
                assert(expr_rep(tokens@, cursor as int, 8, e, nc as int));
            }
            return (Ok(e), nc);
        }
        let ghost e0 = e;
        let assignment_location = tokens[nc].location;
        proof {
            lemma_non_eof(tokens@, nc as int);
        }
        let (try_v, nc2) = self.expression(tokens, nc + 1);
        let value = match try_v {
            Ok(v) => v,
            Err(er) => {
                return (Err(er), nc2);
            },
        };
        match e {
            Expr::Variable { name, location } => {
                if cursor + 1 == nc {
                    proof {
                        let ts = tokens@;
                        let c = cursor as int;
                        assert(expr_rep(ts, c, 7, e0, nc as int));
                        assert(binary_core(ts, c, 7, e0, nc as int));
                        assert(expr_rep(ts, c, 6, e0, nc as int));
                        assert(binary_core(ts, c, 6, e0, nc as int));
                        assert(expr_rep(ts, c, 5, e0, nc as int));
                        assert(binary_core(ts, c, 5, e0, nc as int));
                        assert(expr_rep(ts, c, 4, e0, nc as int));
                        assert(binary_core(ts, c, 4, e0, nc as int));
                        assert(expr_rep(ts, c, 3, e0, nc as int));
                        assert(!unary_case(ts, c, e0, nc as int));
                        assert(expr_rep(ts, c, 2, e0, nc as int));
                        assert(call_core(ts, c, e0, nc as int));
                        assert(primary_rep(ts, c, e0, nc as int));
                    }
                    let res = Expr::Assignment { location, name, value: Box::new(value) };
                    proof {
                        assert(assign_case(tokens@, cursor as int, res, nc2 as int));
                    }
                    (Ok(res), nc2)
                } else {
                    proof {
                        assert(nc != cursor + 1);
                        assert(tp_expr(tokens@, cursor as int, 8) is None);
                    }
                    (
                        Err(Error::InvalidAssignmentTarget { location: assignment_location }),
                        nc2,
                    )
                }
            },
            _ => {
                proof {
                    if tokens@[cursor as int].ttype == TokenType::Identifier && nc == cursor
                        + 1 {
                        lemma_span_one(tokens@, cursor as int, e0);
                        assert(false);
                    }
                    assert(tp_expr(tokens@, cursor as int, 8) is None);
                }
                (Err(Error::InvalidAssignmentTarget { location: assignment_location }), nc2)
            },
        }
    }

    fn expression(&self, tokens: &Vec<TokenItem>, cursor: usize) -> (r: (
        Result<Expr, Error>,
        usize,
    ))
        requires
            tokens_wf(tokens@),
            cursor < tokens@.len(),
        ensures
            cursor <= r.1 < tokens@.len(),
            r.0 is Ok ==> expr_rep(tokens@, cursor as int, 8, r.0->Ok_0, r.1 as int) && cursor
                < r.1,
            r.0 is Ok ==> tp_expr(tokens@, cursor as int, 8) == Some(r.1 as int),
            r.0 is Err ==> tp_expr(tokens@, cursor as int, 8) is None,
        decreases tokens@.len() - cursor, 10int,
    {
        self.assignment(tokens, cursor)
    }
}


impl Parser {
    fn expr_stmt(&self, tokens: &Vec<TokenItem>, cursor: usize) -> (r: (
        Result<Stmt, Error>,
        usize,
    ))
        requires
            tokens_wf(tokens@),
            cursor < tokens@.len(),
        ensures
            cursor <= r.1 < tokens@.len(),
            r.0 is Ok ==> expr_stmt_rep(tokens@, cursor as int, r.0->Ok_0, r.1 as int) && cursor
                < r.1,
            r.0 is Ok ==> tp_closed(tokens@, cursor as int, 8) == Some(r.1 as int),
            r.0 is Err ==> tp_closed(tokens@, cursor as int, 8) is None,
        decreases tokens@.len() - cursor, 19int,
    {
        let n = tokens.len();
        let (try_e, cm) = self.expression(tokens, cursor);
        let e = match try_e {
            Ok(e) => e,
            Err(er) => {
                return (Err(er), cm);
            },
        };
        if matches!(tokens[cm].ttype, TokenType::Semicolon) {
            proof {
                lemma_non_eof(tokens@, cm as int);
            }
            let res = Stmt::Expression(e);
            proof {
                assert(expr_stmt_rep(tokens@, cursor as int, res, cm + 1));
            }
            (Ok(res), cm + 1)
        } else {
            (Err(Error::ExpectedSemicolon { location: tokens[cm].location }), cm)
        }
    }

    fn print_stmt(&self, tokens: &Vec<TokenItem>, cursor: usize) -> (r: (
        Result<Stmt, Error>,
        usize,
    ))
        requires
            tokens_wf(tokens@),
            cursor < tokens@.len(),
            tokens@[cursor as int].ttype == TokenType::Print,
        ensures
            cursor <= r.1 < tokens@.len(),
            r.0 is Ok ==> stmt_rep(tokens@, cursor as int, r.0->Ok_0, r.1 as int) && cursor < r.1,
            r.0 is Ok ==> tp_closed(tokens@, cursor + 1, 7) == Some(r.1 as int),
            r.0 is Err ==> tp_closed(tokens@, cursor + 1, 7) is None,
        decreases tokens@.len() - cursor, 25int,
    {
        let n = tokens.len();
        proof {
            lemma_non_eof(tokens@, cursor as int);
        }
        let (try_e, cm) = self.binary(tokens, cursor + 1, 7);
        let e = match try_e {
            Ok(e) => e,
            Err(er) => {
                return (Err(er), cm);
            },
        };
        if matches!(tokens[cm].ttype, TokenType::Semicolon) {
            proof {
                lemma_non_eof(tokens@, cm as int);
            }
            let res = Stmt::Print(e);
            proof {
                assert(stmt_rep(tokens@, cursor as int, res, cm + 1));
            }
            (Ok(res), cm + 1)
        } else {
            (Err(Error::ExpectedSemicolon { location: tokens[cm].location }), cm)
        }
    }

    fn return_stmt(&self, tokens: &Vec<TokenItem>, cursor: usize) -> (r: (
        Result<Stmt, Error>,
        usize,
    ))
        requires
            tokens_wf(tokens@),
            cursor < tokens@.len(),
            tokens@[cursor as int].ttype == TokenType::Return,
        ensures
            cursor <= r.1 < tokens@.len(),
            r.0 is Ok ==> stmt_rep(tokens@, cursor as int, r.0->Ok_0, r.1 as int) && cursor < r.1,
            r.0 is Ok ==> tp_return(tokens@, cursor as int) == Some(r.1 as int),
            r.0 is Err ==> tp_return(tokens@, cursor as int) is None,
        decreases tokens@.len() - cursor, 25int,
    {
        let n = tokens.len();
        proof {
            lemma_non_eof(tokens@, cursor as int);
        }
        if matches!(tokens[cursor + 1].ttype, TokenType::Semicolon) {
            proof {
                lemma_non_eof(tokens@, cursor + 1);
            }
            let res = Stmt::Return(
                Expr::Literal { location: tokens[cursor + 1].location, value: Literal::Nil },
            );
            proof {
                assert(stmt_rep(tokens@, cursor as int, res, cursor + 2));
            }
            return (Ok(res), cursor + 2);
        }
        let (try_e, cm) = self.expression(tokens, cursor + 1);
        let e = match try_e {
            Ok(e) => e,
            Err(er) => {
                return (Err(er), cm);
            },
        };
        if matches!(tokens[cm].ttype, TokenType::Semicolon) {
            proof {
                lemma_non_eof(tokens@, cm as int);
            }
            let res = Stmt::Return(e);
            proof {
                assert(stmt_rep(tokens@, cursor as int, res, cm + 1));
            }
            (Ok(res), cm + 1)
        } else {
            (Err(Error::ExpectedSemicolon { location: tokens[cm].location }), cm)
        }
    }

    fn var_decl(&self, tokens: &Vec<TokenItem>, cursor: usize) -> (r: (
        Result<Stmt, Error>,
        usize,
    ))
        requires
            tokens_wf(tokens@),
            cursor < tokens@.len(),
            tokens@[cursor as int].ttype == TokenType::Var,
        ensures
            cursor <= r.1 < tokens@.len(),
            r.0 is Ok ==> stmt_rep(tokens@, cursor as int, r.0->Ok_0, r.1 as int) && cursor < r.1,
            r.0 is Ok ==> tp_var(tokens@, cursor as int) == Some(r.1 as int),
            r.0 is Err ==> tp_var(tokens@, cursor as int) is None,
        decreases tokens@.len() - cursor, 25int,
    {
        let n = tokens.len();
        proof {
            lemma_non_eof(tokens@, cursor as int);
        }
        if !matches!(tokens[cursor + 1].ttype, TokenType::Identifier) {
            return (
                (
                    Err(
                        Error::UnexpectedToken {
                            lexeme: tokens[cursor + 1].lexeme.clone(),
                            location: tokens[cursor + 1].location,
                        },
                    ),
                    cursor + 1,
                )
            );
        }
        proof {
            lemma_non_eof(tokens@, cursor + 1);
        }
        let name = tokens[cursor + 1].lexeme.clone();
        match tokens[cursor + 2].ttype {
            TokenType::Semicolon => {
                proof {
                    lemma_non_eof(tokens@, cursor + 2);
                }
                let res = Stmt::VarDecl {
                    name,
                    location: tokens[cursor + 2].location,
                    initializer: None,
                };
                proof {
                    assert(var_rep(tokens@, cursor as int, res, cursor + 3));
                    assert(stmt_rep(tokens@, cursor as int, res, cursor + 3));
                }
                (Ok(res), cursor + 3)
            },
            TokenType::Equal => {
                proof {
                    lemma_non_eof(tokens@, cursor + 2);
                }
                let (try_e, cm) = self.expression(tokens, cursor + 3);
                let e = match try_e {
                    Ok(e) => e,
                    Err(er) => {
                        return (Err(er), cm);
                    },
                };
                if matches!(tokens[cm].ttype, TokenType::Semicolon) {
                    proof {
                        lemma_non_eof(tokens@, cm as int);
                    }
                    let res = Stmt::VarDecl {
                        name,
                        location: tokens[cm].location,
                        initializer: Some(e),
                    };
                    proof {
                        assert(var_rep(tokens@, cursor as int, res, cm + 1));
                        assert(stmt_rep(tokens@, cursor as int, res, cm + 1));
                    }
                    (Ok(res), cm + 1)
                } else {
                    (Err(Error::ExpectedSemicolon { location: tokens[cm].location }), cm)
                }
            },
            _ => (
                Err(
                    Error::UnexpectedToken {
                        lexeme: tokens[cursor + 2].lexeme.clone(),
                        location: tokens[cursor + 2].location,
                    },
                ),
                cursor + 2,
            ),
        }
    }

    fn if_stmt(&self, tokens: &Vec<TokenItem>, cursor: usize) -> (r: (Result<Stmt, Error>, usize))
        requires
            tokens_wf(tokens@),
            cursor < tokens@.len(),
            tokens@[cursor as int].ttype == TokenType::If,
        ensures
            cursor <= r.1 < tokens@.len(),
            r.0 is Ok ==> stmt_rep(tokens@, cursor as int, r.0->Ok_0, r.1 as int) && cursor < r.1,
            r.0 is Ok ==> tp_if(tokens@, cursor as int) == Some(r.1 as int),
            r.0 is Err ==> tp_if(tokens@, cursor as int) is None,
        decreases tokens@.len() - cursor, 25int,
    {
        let n = tokens.len();
        proof {
            lemma_non_eof(tokens@, cursor as int);
        }
        if !matches!(tokens[cursor + 1].ttype, TokenType::LeftParen) {
            return (
                (
                    Err(
                        Error::ExpectedToken {
                            expected: <String as vstd::string::StringExecFns>::from_str("("),
                            stmt_type: <String as vstd::string::StringExecFns>::from_str("if"),
                            location: tokens[cursor + 1].location,
                        },
                    ),
                    cursor + 1,
                )
            );
        }
        proof {
            lemma_non_eof(tokens@, cursor + 1);
        }
        let (try_c, c3) = self.expression(tokens, cursor + 2);
        let condition = match try_c {
            Ok(c) => c,
            Err(er) => {
                return (Err(er), c3);
            },
        };
        if !matches!(tokens[c3].ttype, TokenType::RightParen) {
            return (
                (
                    Err(
                        Error::ExpectedToken {
                            expected: <String as vstd::string::StringExecFns>::from_str(")"),
                            stmt_type: <String as vstd::string::StringExecFns>::from_str("if"),
                            location: tokens[c3].location,
                        },
                    ),
                    c3,
                )
            );
        }
        proof {
            lemma_non_eof(tokens@, c3 as int);
        }
        let (try_t, c4) = self.statement(tokens, c3 + 1);
        let then_branch = match try_t {
            Ok(t) => t,
            Err(er) => {
                return (Err(er), c4);
            },
        };
        if matches!(tokens[c4].ttype, TokenType::Else) {
            proof {
                lemma_non_eof(tokens@, c4 as int);
            }
            let (try_el, c5) = self.statement(tokens, c4 + 1);
            match try_el {
                Ok(el) => {
                    let res = Stmt::If {
                        condition,
                        then_branch: Box::new(then_branch),
                        else_branch: Some(Box::new(el)),
                    };
                    proof {
                        assert(tokens@[c3 as int].ttype == TokenType::RightParen);
                        assert(tokens@[c4 as int].ttype == TokenType::Else);
                        assert(stmt_rep(tokens@, cursor as int, res, c5 as int));
                    }
                    (Ok(res), c5)
                },
                Err(er) => (Err(er), c5),
            }
        } else {
            let res = Stmt::If {
                condition,
                then_branch: Box::new(then_branch),
                else_branch: None,
            };
            proof {
                assert(tokens@[c3 as int].ttype == TokenType::RightParen);
                assert(tokens@[c4 as int].ttype != TokenType::Else);
                assert(stmt_rep(tokens@, cursor as int, res, c4 as int));
            }
            (Ok(res), c4)
        }
    }

    fn while_stmt(&self, tokens: &Vec<TokenItem>, cursor: usize) -> (r: (
        Result<Stmt, Error>,
        usize,
    ))
        requires
            tokens_wf(tokens@),
            cursor < tokens@.len(),
            tokens@[cursor as int].ttype == TokenType::While,
        ensures
            cursor <= r.1 < tokens@.len(),
            r.0 is Ok ==> stmt_rep(tokens@, cursor as int, r.0->Ok_0, r.1 as int) && cursor < r.1,
            r.0 is Ok ==> tp_while(tokens@, cursor as int) == Some(r.1 as int),
            r.0 is Err ==> tp_while(tokens@, cursor as int) is None,
        decreases tokens@.len() - cursor, 25int,
    {
        let n = tokens.len();
        proof {
            lemma_non_eof(tokens@, cursor as int);
        }
        if !matches!(tokens[cursor + 1].ttype, TokenType::LeftParen) {
            return (
                (
                    Err(
                        Error::ExpectedToken {
                            expected: <String as vstd::string::StringExecFns>::from_str("("),
                            stmt_type: <String as vstd::string::StringExecFns>::from_str("while"),
                            location: tokens[cursor + 1].location,
                        },
                    ),
                    cursor + 1,
                )
            );
        }
        proof {
            lemma_non_eof(tokens@, cursor + 1);
        }
        let (try_c, c3) = self.expression(tokens, cursor + 2);
        let condition = match try_c {
            Ok(c) => c,
            Err(er) => {
                return (Err(er), c3);
            },
        };
        if !matches!(tokens[c3].ttype, TokenType::RightParen) {
            return (
                (
                    Err(
                        Error::ExpectedToken {
                            expected: <String as vstd::string::StringExecFns>::from_str(")"),
                            stmt_type: <String as vstd::string::StringExecFns>::from_str("while"),
                            location: tokens[c3].location,
                        },
                    ),
                    c3,
                )
            );
        }
        proof {
            lemma_non_eof(tokens@, c3 as int);
        }
        let (try_b, c2) = self.statement(tokens, c3 + 1);
        match try_b {
            Ok(b) => {
                let res = Stmt::While { condition, body: Box::new(b) };
                proof {
                    assert(tokens@[c3 as int].ttype == TokenType::RightParen);
                    assert(stmt_rep(tokens@, cursor as int, res, c2 as int));
                }
                (Ok(res), c2)
            },
            Err(er) => (Err(er), c2),
        }
    }

    fn block(&self, tokens: &Vec<TokenItem>, cursor: usize) -> (r: (Result<Stmt, Error>, usize))
        requires
            tokens_wf(tokens@),
            cursor < tokens@.len(),
            tokens@[cursor as int].ttype == TokenType::LeftBrace,
        ensures
            cursor <= r.1 < tokens@.len(),
            r.0 is Ok ==> stmt_rep(tokens@, cursor as int, r.0->Ok_0, r.1 as int) && cursor < r.1,
            r.0 is Ok ==> tp_block(tokens@, cursor + 1) == Some(r.1 as int),
            r.0 is Err ==> tp_block(tokens@, cursor + 1) is None,
        decreases tokens@.len() - cursor, 25int,
    {
        let n = tokens.len();
        proof {
            lemma_non_eof(tokens@, cursor as int);
        }
        let mut stmts: Vec<Stmt> = Vec::new();
        let mut cur = cursor + 1;
        while !matches!(tokens[cur].ttype, TokenType::RightBrace | TokenType::EoF)
            invariant
                tokens_wf(tokens@),
                n == tokens@.len(),
                cursor < cur < tokens@.len(),
                stmts_chain(tokens@, cursor + 1, stmts@, cur as int),
                tp_block(tokens@, cursor + 1) == tp_block(tokens@, cur as int),
            ensures
                cursor < cur < tokens@.len(),
                stmts_chain(tokens@, cursor + 1, stmts@, cur as int),
                tp_block(tokens@, cursor + 1) == tp_block(tokens@, cur as int),
                tokens@[cur as int].ttype == TokenType::RightBrace || tokens@[cur as int].ttype
                    == TokenType::EoF,
            decreases tokens@.len() - cur,
        {
            let ghost pre = stmts@;
            let ghost b = cur as int;
            let (try_s, nc) = self.statement(tokens, cur);
            match try_s {
                Ok(st) => {
                    proof {
                        lemma_chain_snoc(tokens@, cursor + 1, pre, b, st, nc as int);
                    }
                    stmts.push(st);
                    cur = nc;
                },
                Err(er) => {
                    return (Err(er), nc);
                },
            }
        }
        if matches!(tokens[cur].ttype, TokenType::RightBrace) {
            let res = Stmt::Block(stmts);
            proof {
                lemma_non_eof(tokens@, cur as int);
                assert(stmt_rep(tokens@, cursor as int, res, cur + 1));
            }
            (Ok(res), cur + 1)
        } else {
            (Err(Error::UnterminatedBrace { location: tokens[cur].location }), cur)
        }
    }

    #[verifier::rlimit(60)]
    fn fun_stmt(&self, tokens: &Vec<TokenItem>, cursor: usize) -> (r: (
        Result<Stmt, Error>,
        usize,
    ))
        requires
            tokens_wf(tokens@),
            cursor < tokens@.len(),
            tokens@[cursor as int].ttype == TokenType::Fun,
        ensures
            cursor <= r.1 < tokens@.len(),
            r.0 is Ok ==> stmt_rep(tokens@, cursor as int, r.0->Ok_0, r.1 as int) && cursor < r.1,
            r.0 is Ok ==> tp_fun(tokens@, cursor as int) == Some(r.1 as int),
            r.0 is Err ==> tp_fun(tokens@, cursor as int) is None,
        decreases tokens@.len() - cursor, 25int,
    {
        let n = tokens.len();
        proof {
            lemma_non_eof(tokens@, cursor as int);
        }
        if !matches!(tokens[cursor + 1].ttype, TokenType::Identifier) {
            return (
                (
                    Err(
                        Error::UnexpectedToken {
                            lexeme: tokens[cursor + 1].lexeme.clone(),
                            location: tokens[cursor + 1].location,
                        },
                    ),
                    cursor + 1,
                )
            );
        }
        let name = tokens[cursor + 1].lexeme.clone();
        proof {
            lemma_non_eof(tokens@, cursor + 1);
        }
        if !matches!(tokens[cursor + 2].ttype, TokenType::LeftParen) {
            return (
                (
                    Err(
                        Error::UnexpectedToken {
                            lexeme: tokens[cursor + 2].lexeme.clone(),
                            location: tokens[cursor + 2].location,
                        },
                    ),
                    cursor + 2,
                )
            );
        }
        proof {
            lemma_non_eof(tokens@, cursor + 2);
        }
        let mut params: Vec<String> = Vec::new();
        let mut cur = cursor + 3;
        if !matches!(tokens[cur].ttype, TokenType::RightParen) {
            if matches!(tokens[cur].ttype, TokenType::Identifier) {
                params.push(tokens[cur].lexeme.clone());
                proof {
                    lemma_non_eof(tokens@, cur as int);
                    assert(params.deep_view() =~= seq![tokens@[cur as int].lexeme@]);
                }
                cur = cur + 1;
            } else {
                return (
                    (Err(Error::ExpectedParameterName { location: tokens[cur].location }), cur)
                );
            }
            while matches!(tokens[cur].ttype, TokenType::Comma)
                invariant
                    tokens_wf(tokens@),
                    n == tokens@.len(),
                    cursor + 3 < cur < tokens@.len(),
                    1 <= params.deep_view().len() <= 255,
                    params_rep(tokens@, cursor + 3, params.deep_view(), cur as int),
                    tokens@[cursor + 1].ttype == TokenType::Identifier,
                    tokens@[cursor + 2].ttype == TokenType::LeftParen,
                    tokens@[cursor + 3].ttype == TokenType::Identifier,
                    tokens@[cursor + 3].ttype != TokenType::RightParen,
                    tp_params(tokens@, cursor + 3, 1) == tp_params_cont(
                        tokens@,
                        cur as int,
                        params.deep_view().len() as int,
                    ),
                ensures
                    cursor + 3 < cur < tokens@.len(),
                    1 <= params.deep_view().len() <= 255,
                    params_rep(tokens@, cursor + 3, params.deep_view(), cur as int),
                    tokens@[cur as int].ttype != TokenType::Comma,
                    tp_params(tokens@, cursor + 3, 1) == tp_params_cont(
                        tokens@,
                        cur as int,
                        params.deep_view().len() as int,
                    ),
                decreases tokens@.len() - cur,
            {
                if params.len() >= 255 {
                    proof {
                        assert(tp_params_cont(
                            tokens@,
                            cur as int,
                            params.deep_view().len() as int,
                        ) is None);
                        assert(tp_fun(tokens@, cursor as int) is None);
                    }
                    return (
                        (
                            Err(
                                Error::TooManyParameters {
                                    location: tokens[cur].location,
                                },
                            ),
                            cur,
                        )
                    );
                }
                proof {
                    lemma_non_eof(tokens@, cur as int);
                }
                if matches!(tokens[cur + 1].ttype, TokenType::Identifier) {
                    let ghost pre = params.deep_view();
                    let ghost b = cur as int;
                    proof {
                        lemma_params_snoc(tokens@, cursor + 3, pre, b, b + 2);
                        lemma_non_eof(tokens@, cur + 1);
                    }
                    params.push(tokens[cur + 1].lexeme.clone());
                    proof {
                        assert(params.deep_view() =~= pre.push(tokens@[b + 1].lexeme@));
                    }
                    cur = cur + 2;
                } else {
                    proof {
                        assert(tp_params(
                            tokens@,
                            cur as int + 1,
                            params.deep_view().len() as int + 1,
                        ) is None);
                        assert(tp_params_cont(
                            tokens@,
                            cur as int,
                            params.deep_view().len() as int,
                        ) is None);
                        assert(tp_fun(tokens@, cursor as int) is None);
                    }
                    return (
                        (
                            Err(
                                Error::ExpectedParameterName {
                                    location: tokens[cur + 1].location,
                                },
                            ),
                            cur + 1,
                        )
                    );
                }
            }
        }
        if !matches!(tokens[cur].ttype, TokenType::RightParen) {
            return (
                (
                    Err(
                        Error::ExpectedToken {
                            expected: <String as vstd::string::StringExecFns>::from_str(")"),
                            stmt_type: <String as vstd::string::StringExecFns>::from_str(
                                "function",
                            ),
                            location: tokens[cur].location,
                        },
                    ),
                    cur,
                )
            );
        }
        proof {
            lemma_non_eof(tokens@, cur as int);
        }
        if !matches!(tokens[cur + 1].ttype, TokenType::LeftBrace) {
            return (
                (
                    Err(
                        Error::ExpectedToken {
                            expected: <String as vstd::string::StringExecFns>::from_str("{"),
                            stmt_type: <String as vstd::string::StringExecFns>::from_str(
                                "function",
                            ),
                            location: tokens[cur + 1].location,
                        },
                    ),
                    cur + 1,
                )
            );
        }
        let ghost cp = cur as int;
        let (try_b, c2) = self.block(tokens, cur + 1);
        match try_b {
            Ok(b) => {
                if params.len() > 255 {
                    return (
                        (
                            Err(
                                Error::TooManyParameters {
                                    location: tokens[cur].location,
                                },
                            ),
                            c2,
                        )
                    );
                }
                let res = Stmt::FunDecl { name, params, body: std::rc::Rc::new(b) };
                proof {
                    lemma_fun_stmt(tokens@, cursor as int, cp, c2 as int, res);
                }
                (Ok(res), c2)
            },
            Err(er) => (Err(er), c2),
        }
    }

    /// Parses one statement, dispatching on the leading token.
    fn statement(&self, tokens: &Vec<TokenItem>, cursor: usize) -> (r: (
        Result<Stmt, Error>,
        usize,
    ))
        requires
            tokens_wf(tokens@),
            cursor < tokens@.len(),
        ensures
            cursor <= r.1 < tokens@.len(),
            r.0 is Ok ==> stmt_rep(tokens@, cursor as int, r.0->Ok_0, r.1 as int) && cursor < r.1,
            r.0 is Ok ==> tp_stmt(tokens@, cursor as int) == Some(r.1 as int),
            r.0 is Err ==> tp_stmt(tokens@, cursor as int) is None,
        decreases tokens@.len() - cursor, 30int,
    {
        match tokens[cursor].ttype {
            TokenType::Print => self.print_stmt(tokens, cursor),
            TokenType::Var => self.var_decl(tokens, cursor),
            TokenType::LeftBrace => self.block(tokens, cursor),
            TokenType::If => self.if_stmt(tokens, cursor),
            TokenType::While => self.while_stmt(tokens, cursor),
            TokenType::For => self.for_stmt(tokens, cursor),
            TokenType::Fun => self.fun_stmt(tokens, cursor),
            TokenType::Return => self.return_stmt(tokens, cursor),
            _ => self.expr_stmt(tokens, cursor),
        }
    }
}


impl Parser {
    /// Parses a `for` statement and desugars it into its `while` form.
    #[verifier::rlimit(100)]
    fn for_stmt(&self, tokens: &Vec<TokenItem>, cursor: usize) -> (r: (
        Result<Stmt, Error>,
        usize,
    ))
        requires
            tokens_wf(tokens@),
            cursor < tokens@.len(),
            tokens@[cursor as int].ttype == TokenType::For,
        ensures
            cursor <= r.1 < tokens@.len(),
            r.0 is Ok ==> stmt_rep(tokens@, cursor as int, r.0->Ok_0, r.1 as int) && cursor < r.1,
            r.0 is Ok ==> tp_for(tokens@, cursor as int) == Some(r.1 as int),
            r.0 is Err ==> tp_for(tokens@, cursor as int) is None,
        decreases tokens@.len() - cursor, 25int,
    {
        let n = tokens.len();
        proof {
            lemma_non_eof(tokens@, cursor as int);
        }
        if !matches!(tokens[cursor + 1].ttype, TokenType::LeftParen) {
            return (
                (
                    Err(
                        Error::ExpectedToken {
                            expected: <String as vstd::string::StringExecFns>::from_str("("),
                            stmt_type: <String as vstd::string::StringExecFns>::from_str("for"),
                            location: tokens[cursor + 1].location,
                        },
                    ),
                    cursor + 1,
                )
            );
        }
        proof {
            lemma_non_eof(tokens@, cursor + 1);
        }
        // initializer
        let (initializer, ci) = match tokens[cursor + 2].ttype {
            TokenType::Semicolon => {
                proof {
                    lemma_non_eof(tokens@, cursor + 2);
                }
                (None, cursor + 3)
            },
            TokenType::Var => {
                let (try_vd, nc) = self.var_decl(tokens, cursor + 2);
                match try_vd {
                    Ok(vd) => (Some(vd), nc),
                    Err(er) => {
                        return (Err(er), nc);
                    },
                }
            },
            _ => {
                let (try_es, nc) = self.expr_stmt(tokens, cursor + 2);
                match try_es {
                    Ok(es) => (Some(es), nc),
                    Err(er) => {
                        return (Err(er), nc);
                    },
                }
            },
        };
        proof {
            assert(init_rep(tokens@, cursor + 2, initializer, ci as int));
        }
        // condition
        let (condition, cc) = if matches!(tokens[ci].ttype, TokenType::Semicolon) {
            proof {
                lemma_non_eof(tokens@, ci as int);
            }
            (
                Expr::Literal { location: tokens[ci + 1].location, value: Literal::True },
                ci + 1,
            )
        } else {
            let (try_c, cm) = self.expression(tokens, ci);
            let c = match try_c {
                Ok(c) => c,
                Err(er) => {
                    return (Err(er), cm);
                },
            };
            if !matches!(tokens[cm].ttype, TokenType::Semicolon) {
                return (
                    (Err(Error::ExpectedSemicolon { location: tokens[cm].location }), cm)
                );
            }
            proof {
                lemma_non_eof(tokens@, cm as int);
            }
            (c, cm + 1)
        };
        let ghost gcond = condition;
        proof {
            assert(cond_rep(tokens@, ci as int, gcond, cc as int));
        }
        // increment
        let (increment, cp) = if matches!(tokens[cc].ttype, TokenType::RightParen) {
            (None, cc)
        } else {
            let (try_i, cm) = self.expression(tokens, cc);
            let inc = match try_i {
                Ok(i) => i,
                Err(er) => {
                    return (Err(er), cm);
                },
            };
            if !matches!(tokens[cm].ttype, TokenType::RightParen) {
                return (
                    (
                        Err(
                            Error::ExpectedToken {
                                expected: <String as vstd::string::StringExecFns>::from_str(")"),
                                stmt_type: <String as vstd::string::StringExecFns>::from_str(
                                    "for",
                                ),
                                location: tokens[cm].location,
                            },
                        ),
                        cm,
                    )
                );
            }
            (Some(inc), cm)
        };
        proof {
            lemma_non_eof(tokens@, cp as int);
        }
        // body
        let (try_b, c2) = self.statement(tokens, cp + 1);
        let body = match try_b {
            Ok(b) => b,
            Err(er) => {
                return (Err(er), c2);
            },
        };
        let ghost gbody = body;
        let looped = match increment {
            Some(inc) => {
                let ghost ginc = inc;
                let mut v: Vec<Stmt> = Vec::new();
                v.push(body);
                v.push(Stmt::Expression(inc));
                proof {
                    assert(v@ =~= seq![gbody, Stmt::Expression(ginc)]);
                }
                Stmt::While {
                    condition,
                    body: Box::new(Stmt::Block(v)),
                }
            },
            None => Stmt::While { condition, body: Box::new(body) },
        };
        let ghost glooped = looped;
        proof {
            assert(loop_rep(tokens@, ci as int, cc as int, cp as int, glooped, c2 as int));
        }
        match initializer {
            Some(init) => {
                let ghost ginit = init;
                let mut v: Vec<Stmt> = Vec::new();
                v.push(init);
                v.push(looped);
                proof {
                    assert(v@ =~= seq![ginit, glooped]);
                }
                let res = Stmt::Block(v);
                proof {
                    assert(for_mark(ci as int, cc as int, cp as int));
                    assert(for_rep(tokens@, cursor as int, res, c2 as int));
                    assert(stmt_rep(tokens@, cursor as int, res, c2 as int));
                }
                (Ok(res), c2)
            },
            None => {
                proof {
                    assert(for_mark(ci as int, cc as int, cp as int));
                    assert(for_rep(tokens@, cursor as int, glooped, c2 as int));
                    assert(stmt_rep(tokens@, cursor as int, glooped, c2 as int));
                }
                (Ok(looped), c2)
            },
        }
    }

    /// Discards tokens up to the next plausible statement boundary: just past
    /// a semicolon, or at a keyword that begins a statement.
    fn synchronize(&self, tokens: &Vec<TokenItem>, cursor: usize) -> (r: usize)
        requires
            tokens_wf(tokens@),
            cursor <= tokens@.len(),
        ensures
            cursor <= r <= tokens@.len(),
    {
        let n = tokens.len();
        let mut cur = cursor;
        while cur < n
            invariant
                n == tokens@.len(),
                cursor <= cur <= tokens@.len(),
            ensures
                cursor <= cur <= tokens@.len(),
            decreases tokens@.len() - cur,
        {
            match tokens[cur].ttype {
                TokenType::Semicolon => {
                    return cur + 1;
                },
                TokenType::Class | TokenType::Fun | TokenType::Var | TokenType::For
                    | TokenType::If | TokenType::While | TokenType::Print | TokenType::Return => {
                    return cur;
                },
                _ => {
                    cur = cur + 1;
                },
            }
        }
        cur
    }

    /// Parses a whole program. On success the statements cover the tokens
    /// exactly, from the first token to the end-of-file token; otherwise the
    /// errors come back, in the order they were found, after synchronizing
    /// past each one.
    pub fn parse(self, source: Vec<TokenItem>) -> (r: Result<Vec<Stmt>, Vec<Error>>)
        requires
            tokens_wf(source@),
        ensures
            r is Ok ==> program_rep(source@, r->Ok_0@),
            r is Err ==> r->Err_0@.len() > 0,
            r is Ok <==> tp_program(source@, 0),
    {
        let n = source.len();
        let mut statements: Vec<Stmt> = Vec::new();
        let mut errors: Vec<Error> = Vec::new();
        let mut cursor: usize = 0;
        while cursor < n && !matches!(source[cursor].ttype, TokenType::EoF)
            invariant
                tokens_wf(source@),
                n == source@.len(),
                cursor <= source@.len(),
                errors@.len() == 0 ==> stmts_chain(source@, 0, statements@, cursor as int) && cursor
                    < source@.len(),
                errors@.len() == 0 ==> tp_program(source@, 0) == tp_program(
                    source@,
                    cursor as int,
                ),
                errors@.len() > 0 ==> !tp_program(source@, 0),
            ensures
                cursor <= source@.len(),
                errors@.len() == 0 ==> stmts_chain(source@, 0, statements@, cursor as int) && cursor
                    < source@.len(),
                errors@.len() == 0 ==> tp_program(source@, 0) == tp_program(
                    source@,
                    cursor as int,
                ),
                errors@.len() > 0 ==> !tp_program(source@, 0),
                cursor >= source@.len() || source@[cursor as int].ttype == TokenType::EoF,
            decreases source@.len() - cursor,
        {
            let ghost pre = statements@;
            let ghost b = cursor as int;
            let (try_s, nc) = self.statement(&source, cursor);
            match try_s {
                Ok(st) => {
                    proof {
                        if errors@.len() == 0 {
                            lemma_chain_snoc(source@, 0, pre, b, st, nc as int);
                        }
                    }
                    statements.push(st);
                    cursor = nc;
                },
                Err(er) => {
                    errors.push(er);
                    cursor = self.synchronize(&source, nc + 1);
                },
            }
        }
        if errors.len() == 0 {
            proof {
                assert(stmts_chain(source@, 0, statements@, cursor as int));
                assert(source@[cursor as int].ttype == TokenType::EoF);
                assert(program_rep(source@, statements@));
            }
            Ok(statements)
        } else {
            Err(errors)
        }
    }
}

} // verus!
