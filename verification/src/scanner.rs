//! The tree-walking path's scanner: source text in, token items out. Errors
//! are collected and scanning continues, so one pass reports them all.
use vstd::prelude::*;
use crate::location::{spec_merge, SourceLocation};
use crate::token::{token_view, tokens_view, Literal, TokenItem, TokenM, TokenType};
use crate::ast::ValueM;
use crate::number::f64_of_dec;
use crate::text::{chars_of, string_of_range};

verus! {

/// A scanning failure; scanning goes on after each one.
#[derive(Debug, Clone, Copy, PartialEq, Eq, Structural)]
pub enum Error {
    UnexpectedCharacter { c: char, location: SourceLocation },
    UnterminatedString { location: SourceLocation },
    UnterminatedComment { location: SourceLocation },
}

/// A decimal digit.
pub open spec fn is_digit(c: char) -> bool {
    '0' as u32 <= c as u32 && c as u32 <= '9' as u32
}

/// An ASCII letter.
pub open spec fn is_alpha(c: char) -> bool {
    ('a' as u32 <= c as u32 && c as u32 <= 'z' as u32) || ('A' as u32 <= c as u32 && c as u32
        <= 'Z' as u32)
}

/// A character that may continue an identifier.
pub open spec fn is_ident_char(c: char) -> bool {
    is_digit(c) || is_alpha(c) || c == '_'
}

/// Decides whether a character may continue an identifier.
pub fn ident_char(c: char) -> (r: bool)
    ensures
        r == is_ident_char(c),
{
    digit(c) || alpha(c) || c == '_'
}

pub fn digit(c: char) -> (r: bool)
    ensures
        r == is_digit(c),
{
    '0' as u32 <= c as u32 && c as u32 <= '9' as u32
}

pub fn alpha(c: char) -> (r: bool)
    ensures
        r == is_alpha(c),
{
    ('a' as u32 <= c as u32 && c as u32 <= 'z' as u32) || ('A' as u32 <= c as u32 && c as u32
        <= 'Z' as u32)
}

/// The first position at or after `j` that does not hold a digit.
pub open spec fn digits_end(cs: Seq<char>, j: int) -> int
    decreases cs.len() - j,
        when 0 <= j <= cs.len()
{
    if j < cs.len() && is_digit(cs[j]) {
        digits_end(cs, j + 1)
    } else {
        j
    }
}

pub proof fn lemma_digits_end(cs: Seq<char>, j: int)
    requires
        0 <= j <= cs.len(),
    ensures
        j <= digits_end(cs, j) <= cs.len(),
    decreases cs.len() - j,
{
    if j < cs.len() && is_digit(cs[j]) {
        lemma_digits_end(cs, j + 1);
    }
}

/// Where a number that began just before `j` ends: digits, then one optional
/// fraction of a dot followed by at least one digit. A trailing dot is left
/// for the next token.
pub open spec fn number_end(cs: Seq<char>, j: int) -> int
    decreases cs.len() - j,
        when 0 <= j <= cs.len()
{
    let d = digits_end(cs, j);
    if d + 1 < cs.len() && cs[d] == '.' && is_digit(cs[d + 1]) {
        digits_end(cs, d + 2)
    } else {
        d
    }
}

pub proof fn lemma_number_end(cs: Seq<char>, j: int)
    requires
        0 <= j <= cs.len(),
    ensures
        j <= number_end(cs, j) <= cs.len(),
{
    lemma_digits_end(cs, j);
    let d = digits_end(cs, j);
    if d + 1 < cs.len() && cs[d] == '.' && is_digit(cs[d + 1]) {
        lemma_digits_end(cs, d + 2);
    }
}

/// The first position at or after `j` that does not continue an identifier.
pub open spec fn ident_end(cs: Seq<char>, j: int) -> int
    decreases cs.len() - j,
        when 0 <= j <= cs.len()
{
    if j < cs.len() && is_ident_char(cs[j]) {
        ident_end(cs, j + 1)
    } else {
        j
    }
}

pub proof fn lemma_ident_end(cs: Seq<char>, j: int)
    requires
        0 <= j <= cs.len(),
    ensures
        j <= ident_end(cs, j) <= cs.len(),
    decreases cs.len() - j,
{
    if j < cs.len() && is_ident_char(cs[j]) {
        lemma_ident_end(cs, j + 1);
    }
}

/// The position of the closing quote at or after `j`, or the text's end if
/// the string never closes.
pub open spec fn string_end(cs: Seq<char>, j: int) -> int
    decreases cs.len() - j,
        when 0 <= j <= cs.len()
{
    if j >= cs.len() {
        j
    } else if cs[j] == '"' {
        j
    } else {
        string_end(cs, j + 1)
    }
}

pub proof fn lemma_string_end(cs: Seq<char>, j: int)
    requires
        0 <= j <= cs.len(),
    ensures
        j <= string_end(cs, j) <= cs.len(),
    decreases cs.len() - j,
{
    if j < cs.len() && cs[j] != '"' {
        lemma_string_end(cs, j + 1);
    }
}

/// The first position at or after `j` holding a newline, or the text's end.
pub open spec fn line_comment_end(cs: Seq<char>, j: int) -> int
    decreases cs.len() - j,
        when 0 <= j <= cs.len()
{
    if j < cs.len() && cs[j] != '\n' {
        line_comment_end(cs, j + 1)
    } else {
        j
    }
}

pub proof fn lemma_line_comment_end(cs: Seq<char>, j: int)
    requires
        0 <= j <= cs.len(),
    ensures
        j <= line_comment_end(cs, j) <= cs.len(),
    decreases cs.len() - j,
{
    if j < cs.len() && cs[j] != '\n' {
        lemma_line_comment_end(cs, j + 1);
    }
}

/// The relative movement a piece of text inside a string causes: lines
/// crossed, and the running count the closing quote will add one to.
pub open spec fn move_through(cs: Seq<char>, j: int, end: int, line: int, incr: int) -> (
    int,
    int,
)
    decreases end - j,
        when 0 <= j <= end <= cs.len()
{
    if j >= end {
        (line, incr)
    } else if cs[j] == '\n' {
        move_through(cs, j + 1, end, line + 1, 0)
    } else {
        move_through(cs, j + 1, end, line, incr + 1)
    }
}

pub proof fn lemma_move_through(cs: Seq<char>, j: int, end: int, line: int, incr: int)
    requires
        0 <= j <= end <= cs.len(),
        0 <= line,
        0 <= incr,
    ensures
        ({
            let (l2, i2) = move_through(cs, j, end, line, incr);
            line <= l2 <= line + (end - j) && 0 <= i2 <= incr + (end - j)
        }),
    decreases end - j,
{
    if j < end {
        if cs[j] == '\n' {
            lemma_move_through(cs, j + 1, end, line + 1, 0);
        } else {
            lemma_move_through(cs, j + 1, end, line, incr + 1);
        }
    }
}

/// Walking a block comment from just after its opening `/*`: whether a
/// matching close was found, where scanning resumes, the lines crossed, and
/// the column movement. Block comments nest.
pub open spec fn comment_scan(cs: Seq<char>, j: int, level: int, line: int, incr: int) -> (
    bool,
    int,
    int,
    int,
)
    decreases cs.len() - j,
        when 0 <= j <= cs.len()
{
    if j >= cs.len() {
        (false, j, line, incr)
    } else if cs[j] == '/' && j + 1 < cs.len() && cs[j + 1] == '*' {
        comment_scan(cs, j + 2, level + 1, line, incr + 2)
    } else if cs[j] == '*' && j + 1 < cs.len() && cs[j + 1] == '/' {
        if level == 1 {
            (true, j + 2, line, incr + 2)
        } else {
            comment_scan(cs, j + 2, level - 1, line, incr + 2)
        }
    } else if cs[j] == '\n' {
        comment_scan(cs, j + 1, level, line + 1, 0)
    } else {
        comment_scan(cs, j + 1, level, line, incr + 1)
    }
}

proof fn lemma_comment_scan(cs: Seq<char>, j: int, level: int, line: int, incr: int)
    requires
        0 <= j <= cs.len(),
        0 <= line,
        0 <= incr,
    ensures
        ({
            let (found, end, l2, i2) = comment_scan(cs, j, level, line, incr);
            j <= end <= cs.len() && line <= l2 <= line + (end - j) && 0 <= i2 <= incr + (end - j)
        }),
    decreases cs.len() - j,
{
    if j >= cs.len() {
    } else if cs[j] == '/' && j + 1 < cs.len() && cs[j + 1] == '*' {
        lemma_comment_scan(cs, j + 2, level + 1, line, incr + 2);
    } else if cs[j] == '*' && j + 1 < cs.len() && cs[j + 1] == '/' {
        if level != 1 {
            lemma_comment_scan(cs, j + 2, level - 1, line, incr + 2);
        }
    } else if cs[j] == '\n' {
        lemma_comment_scan(cs, j + 1, level, line + 1, 0);
    } else {
        lemma_comment_scan(cs, j + 1, level, line, incr + 1);
    }
}

/// What one scanning step produces: at most one token or one error, the
/// position scanning resumes at, and the location there.
pub struct StepM {
    pub tok: Option<TokenM>,
    pub err: Option<Error>,
    pub next: int,
    pub loc: SourceLocation,
}

/// A token of the given kind spanning `[i, end)`.
pub open spec fn basic_tok(
    cs: Seq<char>,
    i: int,
    end: int,
    t: TokenType,
    loc: SourceLocation,
) -> TokenM {
    TokenM { ttype: t, lexeme: cs.subrange(i, end), literal: None, location: loc }
}

/// The location `loc` moved right by `n` columns.
pub open spec fn loc_right(loc: SourceLocation, n: int) -> SourceLocation {
    SourceLocation { line: loc.line, pos: (loc.pos + n) as usize }
}

/// One scanning step at position `i` (which must be in range): exactly what
/// the language's lexical rules say about the character there.
pub open spec fn spec_step(cs: Seq<char>, i: int, loc: SourceLocation) -> StepM {
    let c = cs[i];
    if c == '(' {
        StepM {
            tok: Some(basic_tok(cs, i, i + 1, TokenType::LeftParen, loc)),
            err: None,
            next: i + 1,
            loc: loc_right(loc, 1),
        }
    } else if c == ')' {
        StepM {
            tok: Some(basic_tok(cs, i, i + 1, TokenType::RightParen, loc)),
            err: None,
            next: i + 1,
            loc: loc_right(loc, 1),
        }
    } else if c == '{' {
        StepM {
            tok: Some(basic_tok(cs, i, i + 1, TokenType::LeftBrace, loc)),
            err: None,
            next: i + 1,
            loc: loc_right(loc, 1),
        }
    } else if c == '}' {
        StepM {
            tok: Some(basic_tok(cs, i, i + 1, TokenType::RightBrace, loc)),
            err: None,
            next: i + 1,
            loc: loc_right(loc, 1),
        }
    } else if c == ',' {
        StepM {
            tok: Some(basic_tok(cs, i, i + 1, TokenType::Comma, loc)),
            err: None,
            next: i + 1,
            loc: loc_right(loc, 1),
        }
    } else if c == '.' {
        StepM {
            tok: Some(basic_tok(cs, i, i + 1, TokenType::Dot, loc)),
            err: None,
            next: i + 1,
            loc: loc_right(loc, 1),
        }
    } else if c == '-' {
        StepM {
            tok: Some(basic_tok(cs, i, i + 1, TokenType::Minus, loc)),
            err: None,
            next: i + 1,
            loc: loc_right(loc, 1),
        }
    } else if c == '+' {
        StepM {
            tok: Some(basic_tok(cs, i, i + 1, TokenType::Plus, loc)),
            err: None,
            next: i + 1,
            loc: loc_right(loc, 1),
        }
    } else if c == ';' {
        StepM {
            tok: Some(basic_tok(cs, i, i + 1, TokenType::Semicolon, loc)),
            err: None,
            next: i + 1,
            loc: loc_right(loc, 1),
        }
    } else if c == '*' {
        StepM {
            tok: Some(basic_tok(cs, i, i + 1, TokenType::Star, loc)),
            err: None,
            next: i + 1,
            loc: loc_right(loc, 1),
        }
    } else if c == '!' || c == '=' || c == '>' || c == '<' {
        if i + 1 < cs.len() && cs[i + 1] == '=' {
            let t = if c == '!' {
                TokenType::BangEq
            } else if c == '=' {
                TokenType::EqualEq
            } else if c == '>' {
                TokenType::GreaterEq
            } else {
                TokenType::LessEq
            };
            StepM {
                tok: Some(basic_tok(cs, i, i + 2, t, loc)),
                err: None,
                next: i + 2,
                loc: loc_right(loc, 2),
            }
        } else {
            let t = if c == '!' {
                TokenType::Bang
            } else if c == '=' {
                TokenType::Equal
            } else if c == '>' {
                TokenType::Greater
            } else {
                TokenType::Less
            };
            StepM {
                tok: Some(basic_tok(cs, i, i + 1, t, loc)),
                err: None,
                next: i + 1,
                loc: loc_right(loc, 1),
            }
        }
    } else if c == '/' {
        if i + 1 < cs.len() && cs[i + 1] == '/' {
            let e = line_comment_end(cs, i + 1);
            StepM { tok: None, err: None, next: e, loc: loc_right(loc, e - i) }
        } else if i + 1 < cs.len() && cs[i + 1] == '*' {
            let (found, e, lines, incr) = comment_scan(cs, i + 1, 1, 0, 1);
            if found {
                StepM {
                    tok: None,
                    err: None,
                    next: e,
                    loc: spec_merge(loc, SourceLocation { line: lines as usize, pos: incr as usize }),
                }
            } else {
                StepM {
                    tok: None,
                    err: Some(Error::UnterminatedComment { location: loc }),
                    next: cs.len() as int,
                    loc: loc_right(loc, 1),
                }
            }
        } else {
            StepM {
                tok: Some(basic_tok(cs, i, i + 1, TokenType::Slash, loc)),
                err: None,
                next: i + 1,
                loc: loc_right(loc, 1),
            }
        }
    } else if c == '"' {
        let e = string_end(cs, i + 1);
        if e >= cs.len() {
            StepM {
                tok: None,
                err: Some(Error::UnterminatedString { location: loc }),
                next: cs.len() as int,
                loc: loc_right(loc, 1),
            }
        } else {
            let (lines, incr) = move_through(cs, i + 1, e, 0, 1);
            StepM {
                tok: Some(
                    TokenM {
                        ttype: TokenType::String,
                        lexeme: cs.subrange(i, e + 1),
                        literal: Some(ValueM::VStr(cs.subrange(i + 1, e))),
                        location: loc,
                    },
                ),
                err: None,
                next: e + 1,
                loc: spec_merge(
                    loc,
                    SourceLocation { line: lines as usize, pos: (incr + 1) as usize },
                ),
            }
        }
    } else if is_digit(c) {
        let e = number_end(cs, i + 1);
        StepM {
            tok: Some(
                TokenM {
                    ttype: TokenType::Number,
                    lexeme: cs.subrange(i, e),
                    literal: Some(ValueM::VNum(f64_of_dec(cs.subrange(i, e)))),
                    location: loc,
                },
            ),
            err: None,
            next: e,
            loc: loc_right(loc, e - i),
        }
    } else if is_alpha(c) || c == '_' {
        let e = ident_end(cs, i + 1);
        let text = cs.subrange(i, e);
        let (t, lit) = match crate::token::spec_keyword(text) {
            Some(TokenType::True) => (TokenType::True, Some(ValueM::VTrue)),
            Some(TokenType::False) => (TokenType::False, Some(ValueM::VFalse)),
            Some(TokenType::Nil) => (TokenType::Nil, Some(ValueM::VNil)),
            Some(k) => (k, None),
            None => (TokenType::Identifier, None),
        };
        StepM {
            tok: Some(TokenM { ttype: t, lexeme: text, literal: lit, location: loc }),
            err: None,
            next: e,
            loc: loc_right(loc, e - i),
        }
    } else if c == '\n' {
        StepM {
            tok: None,
            err: None,
            next: i + 1,
            loc: SourceLocation { line: (loc.line + 1) as usize, pos: 0 },
        }
    } else if c == ' ' || c == '\r' || c == '\t' {
        StepM { tok: None, err: None, next: i + 1, loc: loc_right(loc, 1) }
    } else {
        StepM {
            tok: None,
            err: Some(Error::UnexpectedCharacter { c, location: loc }),
            next: i + 1,
            loc: loc_right(loc, 1),
        }
    }
}

/// Everything scanning from position `i` at location `loc` produces: the
/// tokens (ending in the one end-of-file token) and the errors, in order.
pub struct ScanM {
    pub toks: Seq<TokenM>,
    pub errs: Seq<Error>,
}

/// The whole scan from position `i` on.
pub open spec fn spec_scan(cs: Seq<char>, i: int, loc: SourceLocation) -> ScanM
    decreases cs.len() - i,
        when 0 <= i <= cs.len() && scan_invariant(cs, i, loc)
{
    if i >= cs.len() {
        ScanM {
            toks: seq![
                TokenM {
                    ttype: TokenType::EoF,
                    lexeme: Seq::empty(),
                    literal: None,
                    location: loc,
                },
            ],
            errs: Seq::empty(),
        }
    } else {
        let st = spec_step(cs, i, loc);
        proof {
            lemma_step_sane(cs, i, loc);
        }
        let rest = spec_scan(cs, st.next, st.loc);
        ScanM {
            toks: (match st.tok {
                Some(t) => seq![t] + rest.toks,
                None => rest.toks,
            }),
            errs: (match st.err {
                Some(e) => seq![e] + rest.errs,
                None => rest.errs,
            }),
        }
    }
}

/// The bookkeeping facts that keep scanning positions and locations sane:
/// the column never runs ahead of the position, and the line count never
/// runs ahead of it either.
pub open spec fn scan_invariant(cs: Seq<char>, i: int, loc: SourceLocation) -> bool {
    loc.pos <= i && loc.line <= i + 1 && cs.len() + 2 <= usize::MAX
}

/// One scanning step behaves exactly as `spec_step` says, keeps positions
/// moving right, and keeps the bookkeeping facts.
pub proof fn lemma_step_sane(cs: Seq<char>, i: int, loc: SourceLocation)
    requires
        0 <= i < cs.len(),
        scan_invariant(cs, i, loc),
    ensures
        ({
            let st = spec_step(cs, i, loc);
            i < st.next <= cs.len() && scan_invariant(cs, st.next, st.loc) && (st.tok is Some
                ==> (st.tok->0.ttype != TokenType::EoF && st.tok->0.lexeme.len() <= st.next - i))
        }),
{
    let c = cs[i];
    lemma_digits_end(cs, i + 1);
    lemma_number_end(cs, i + 1);
    lemma_ident_end(cs, i + 1);
    lemma_string_end(cs, i + 1);
    lemma_line_comment_end(cs, i + 1);
    lemma_comment_scan(cs, i + 1, 1, 0, 1);
    if c == '"' {
        let e = string_end(cs, i + 1);
        if e < cs.len() {
            lemma_move_through(cs, i + 1, e, 0, 1);
        }
    }
}

/// The characters all the lexemes of a token list cover, counted together.
pub open spec fn lexeme_total(ts: Seq<TokenM>) -> nat
    decreases ts.len(),
{
    if ts.len() == 0 {
        0
    } else {
        ts[0].lexeme.len() + lexeme_total(ts.drop_first())
    }
}

/// SCANNER SHAPE. Whatever the text, the scan's token list ends in exactly
/// one end-of-file token, and the lexemes taken together never cover more
/// characters than the text holds.
pub proof fn law_scan_shape(cs: Seq<char>, i: int, loc: SourceLocation)
    requires
        0 <= i <= cs.len(),
        scan_invariant(cs, i, loc),
    ensures
        ({
            let o = spec_scan(cs, i, loc);
            o.toks.len() >= 1 && o.toks.last().ttype == TokenType::EoF && (forall|j: int|
                0 <= j < o.toks.len() - 1 ==> o.toks[j].ttype != TokenType::EoF) && lexeme_total(
                o.toks,
            ) <= cs.len() - i
        }),
    decreases cs.len() - i,
{
    let o = spec_scan(cs, i, loc);
    if i >= cs.len() {
        assert(o.toks.drop_first() =~= Seq::empty());
        assert(lexeme_total(o.toks.drop_first()) == 0);
        assert(o.toks[0].lexeme.len() == 0);
        assert(lexeme_total(o.toks) == 0);
    } else {
        let st = spec_step(cs, i, loc);
        lemma_step_sane(cs, i, loc);
        law_scan_shape(cs, st.next, st.loc);
        let rest = spec_scan(cs, st.next, st.loc);
        match st.tok {
            Some(t) => {
                assert(o.toks == seq![t] + rest.toks);
                assert(o.toks.drop_first() =~= rest.toks);
                assert(o.toks.last() == rest.toks.last());
                assert(lexeme_total(o.toks) == t.lexeme.len() + lexeme_total(rest.toks));
                assert(t.lexeme.len() <= st.next - i);
                assert(lexeme_total(rest.toks) <= cs.len() - st.next);
                assert forall|j: int| 0 <= j < o.toks.len() - 1 implies o.toks[j].ttype
                    != TokenType::EoF by {
                    if j > 0 {
                        assert(o.toks[j] == rest.toks[j - 1]);
                    }
                }
            },
            None => {
                assert(o.toks == rest.toks);
                assert(lexeme_total(o.toks) <= cs.len() - st.next);
            },
        }
    }
}

fn digits_end_x(cs: &Vec<char>, j: usize) -> (r: usize)
    requires
        j <= cs@.len(),
    ensures
        r as int == digits_end(cs@, j as int),
        j <= r <= cs@.len(),
{
    let mut k = j;
    while k < cs.len() && digit(cs[k])
        invariant
            j <= k <= cs@.len(),
            digits_end(cs@, j as int) == digits_end(cs@, k as int),
        decreases cs@.len() - k,
    {
        k = k + 1;
    }
    k
}

fn ident_end_x(cs: &Vec<char>, j: usize) -> (r: usize)
    requires
        j <= cs@.len(),
    ensures
        r as int == ident_end(cs@, j as int),
        j <= r <= cs@.len(),
{
    let mut k = j;
    while k < cs.len() && (digit(cs[k]) || alpha(cs[k]) || cs[k] == '_')
        invariant
            j <= k <= cs@.len(),
            ident_end(cs@, j as int) == ident_end(cs@, k as int),
        decreases cs@.len() - k,
    {
        k = k + 1;
    }
    k
}

fn number_end_x(cs: &Vec<char>, j: usize) -> (r: usize)
    requires
        j <= cs@.len(),
        cs@.len() + 8 <= usize::MAX,
    ensures
        r as int == number_end(cs@, j as int),
        j <= r <= cs@.len(),
{
    let d = digits_end_x(cs, j);
    if d + 1 < cs.len() && cs[d] == '.' && digit(cs[d + 1]) {
        digits_end_x(cs, d + 2)
    } else {
        d
    }
}

fn string_end_x(cs: &Vec<char>, j: usize) -> (r: usize)
    requires
        j <= cs@.len(),
    ensures
        r as int == string_end(cs@, j as int),
        j <= r <= cs@.len(),
{
    let mut k = j;
    while k < cs.len() && cs[k] != '"'
        invariant
            j <= k <= cs@.len(),
            string_end(cs@, j as int) == string_end(cs@, k as int),
        decreases cs@.len() - k,
    {
        k = k + 1;
    }
    k
}

fn line_comment_end_x(cs: &Vec<char>, j: usize) -> (r: usize)
    requires
        j <= cs@.len(),
    ensures
        r as int == line_comment_end(cs@, j as int),
        j <= r <= cs@.len(),
{
    let mut k = j;
    while k < cs.len() && cs[k] != '\n'
        invariant
            j <= k <= cs@.len(),
            line_comment_end(cs@, j as int) == line_comment_end(cs@, k as int),
        decreases cs@.len() - k,
    {
        k = k + 1;
    }
    k
}

fn move_through_x(cs: &Vec<char>, j: usize, end: usize) -> (r: (usize, usize))
    requires
        j <= end <= cs@.len(),
        cs@.len() + 8 <= usize::MAX,
    ensures
        ({
            let (l, n) = move_through(cs@, j as int, end as int, 0, 1);
            r.0 == l && r.1 == n
        }),
{
    let mut k = j;
    let mut line: usize = 0;
    let mut incr: usize = 1;
    while k < end
        invariant
            j <= k <= end <= cs@.len(),
            cs@.len() + 8 <= usize::MAX,
            line <= k,
            incr <= 1 + k - j,
            move_through(cs@, j as int, end as int, 0, 1) == move_through(
                cs@,
                k as int,
                end as int,
                line as int,
                incr as int,
            ),
        decreases end - k,
    {
        if cs[k] == '\n' {
            line = line + 1;
            incr = 0;
        } else {
            incr = incr + 1;
        }
        k = k + 1;
    }
    (line, incr)
}

fn comment_scan_x(cs: &Vec<char>, j: usize) -> (r: (bool, usize, usize, usize))
    requires
        j <= cs@.len(),
        cs@.len() + 8 <= usize::MAX,
    ensures
        ({
            let (f, e, l, n) = comment_scan(cs@, j as int, 1, 0, 1);
            r.0 == f && r.1 == e && r.2 == l && r.3 == n && j <= e <= cs@.len()
        }),
{
    proof {
        lemma_comment_scan(cs@, j as int, 1, 0, 1);
    }
    let mut k = j;
    let mut level: usize = 1;
    let mut line: usize = 0;
    let mut incr: usize = 1;
    let mut found = false;
    loop
        invariant_except_break
            !found,
            j <= k <= cs@.len(),
            cs@.len() + 8 <= usize::MAX,
            line <= k,
            incr <= 1 + k - j,
            1 <= level <= 1 + k,
            comment_scan(cs@, j as int, 1, 0, 1) == comment_scan(
                cs@,
                k as int,
                level as int,
                line as int,
                incr as int,
            ),
        ensures
            ({
                let (f, e, l, n) = comment_scan(cs@, j as int, 1, 0, 1);
                found == f && k == e && line == l && incr == n && j <= k <= cs@.len()
            }),
        decreases cs@.len() - k,
    {
        if k >= cs.len() {
            break ;
        }
        let c = cs[k];
        if c == '/' && k + 1 < cs.len() && cs[k + 1] == '*' {
            level = level + 1;
            incr = incr + 2;
            k = k + 2;
        } else if c == '*' && k + 1 < cs.len() && cs[k + 1] == '/' {
            if level == 1 {
                incr = incr + 2;
                k = k + 2;
                found = true;
                break ;
            } else {
                level = level - 1;
                incr = incr + 2;
                k = k + 2;
            }
        } else if c == '\n' {
            line = line + 1;
            incr = 0;
            k = k + 1;
        } else {
            incr = incr + 1;
            k = k + 1;
        }
    }
    (found, k, line, incr)
}


fn mk_basic(cs: &Vec<char>, i: usize, end: usize, t: TokenType, loc: SourceLocation) -> (r:
    TokenItem)
    requires
        i <= end <= cs@.len(),
    ensures
        token_view(r) == basic_tok(cs@, i as int, end as int, t, loc),
{
    TokenItem { ttype: t, lexeme: string_of_range(cs, i, end), literal: None, location: loc }
}

/// One step of the scanner: handles the character at `i` exactly as
/// `spec_step` says.
fn scan_step(cs: &Vec<char>, i: usize, loc: SourceLocation) -> (r: (
    Option<TokenItem>,
    Option<Error>,
    usize,
    SourceLocation,
))
    requires
        i < cs@.len(),
        scan_invariant(cs@, i as int, loc),
        cs@.len() + 8 <= usize::MAX,
    ensures
        ({
            let st = spec_step(cs@, i as int, loc);
            (match r.0 {
                Some(t) => st.tok == Some(token_view(t)),
                None => st.tok is None,
            }) && r.1 == st.err && r.2 == st.next && r.3 == st.loc
        }),
{
    proof {
        lemma_step_sane(cs@, i as int, loc);
    }
    let c = cs[i];
    if c == '(' {
        (Some(mk_basic(cs, i, i + 1, TokenType::LeftParen, loc)), None, i + 1, SourceLocation::new(loc.line, loc.pos + 1))
    } else if c == ')' {
        (Some(mk_basic(cs, i, i + 1, TokenType::RightParen, loc)), None, i + 1, SourceLocation::new(loc.line, loc.pos + 1))
    } else if c == '{' {
        (Some(mk_basic(cs, i, i + 1, TokenType::LeftBrace, loc)), None, i + 1, SourceLocation::new(loc.line, loc.pos + 1))
    } else if c == '}' {
        (Some(mk_basic(cs, i, i + 1, TokenType::RightBrace, loc)), None, i + 1, SourceLocation::new(loc.line, loc.pos + 1))
    } else if c == ',' {
        (Some(mk_basic(cs, i, i + 1, TokenType::Comma, loc)), None, i + 1, SourceLocation::new(loc.line, loc.pos + 1))
    } else if c == '.' {
        (Some(mk_basic(cs, i, i + 1, TokenType::Dot, loc)), None, i + 1, SourceLocation::new(loc.line, loc.pos + 1))
    } else if c == '-' {
        (Some(mk_basic(cs, i, i + 1, TokenType::Minus, loc)), None, i + 1, SourceLocation::new(loc.line, loc.pos + 1))
    } else if c == '+' {
        (Some(mk_basic(cs, i, i + 1, TokenType::Plus, loc)), None, i + 1, SourceLocation::new(loc.line, loc.pos + 1))
    } else if c == ';' {
        (Some(mk_basic(cs, i, i + 1, TokenType::Semicolon, loc)), None, i + 1, SourceLocation::new(loc.line, loc.pos + 1))
    } else if c == '*' {
        (Some(mk_basic(cs, i, i + 1, TokenType::Star, loc)), None, i + 1, SourceLocation::new(loc.line, loc.pos + 1))
    } else if c == '!' || c == '=' || c == '>' || c == '<' {
        if i + 1 < cs.len() && cs[i + 1] == '=' {
            let t = if c == '!' {
                TokenType::BangEq
            } else if c == '=' {
                TokenType::EqualEq
            } else if c == '>' {
                TokenType::GreaterEq
            } else {
                TokenType::LessEq
            };
            (Some(mk_basic(cs, i, i + 2, t, loc)), None, i + 2, SourceLocation::new(loc.line, loc.pos + 2))
        } else {
            let t = if c == '!' {
                TokenType::Bang
            } else if c == '=' {
                TokenType::Equal
            } else if c == '>' {
                TokenType::Greater
            } else {
                TokenType::Less
            };
            (Some(mk_basic(cs, i, i + 1, t, loc)), None, i + 1, SourceLocation::new(loc.line, loc.pos + 1))
        }
    } else if c == '/' {
        if i + 1 < cs.len() && cs[i + 1] == '/' {
            let e = line_comment_end_x(cs, i + 1);
            (None, None, e, SourceLocation::new(loc.line, loc.pos + (e - i)))
        } else if i + 1 < cs.len() && cs[i + 1] == '*' {
            let (found, e, lines, incr) = comment_scan_x(cs, i + 1);
            if found {
                let mut l2 = loc;
                proof {
                    lemma_comment_scan(cs@, (i + 1) as int, 1, 0, 1);
                }
                l2.merge(SourceLocation::new(lines, incr));
                (None, None, e, l2)
            } else {
                (
                    None,
                    Some(Error::UnterminatedComment { location: loc }),
                    cs.len(),
                    SourceLocation::new(loc.line, loc.pos + 1),
                )
            }
        } else {
            (Some(mk_basic(cs, i, i + 1, TokenType::Slash, loc)), None, i + 1, SourceLocation::new(loc.line, loc.pos + 1))
        }
    } else if c == '"' {
        let e = string_end_x(cs, i + 1);
        if e >= cs.len() {
            (None, Some(Error::UnterminatedString { location: loc }), cs.len(), SourceLocation::new(loc.line, loc.pos + 1))
        } else {
            let (lines, incr) = move_through_x(cs, i + 1, e);
            proof {
                lemma_move_through(cs@, (i + 1) as int, e as int, 0, 1);
            }
            let tok = TokenItem {
                ttype: TokenType::String,
                lexeme: string_of_range(cs, i, e + 1),
                literal: Some(Literal::String(string_of_range(cs, i + 1, e))),
                location: loc,
            };
            let mut l2 = loc;
            l2.merge(SourceLocation::new(lines, incr + 1));
            (Some(tok), None, e + 1, l2)
        }
    } else if digit(c) {
        let e = number_end_x(cs, i + 1);
        let lex = string_of_range(cs, i, e);
        let bits = crate::number::parse_bits(lex.as_str());
        let tok = TokenItem {
            ttype: TokenType::Number,
            lexeme: lex,
            literal: Some(Literal::Number(bits)),
            location: loc,
        };
        (Some(tok), None, e, SourceLocation::new(loc.line, loc.pos + (e - i)))
    } else if alpha(c) || c == '_' {
        let e = ident_end_x(cs, i + 1);
        let lex = string_of_range(cs, i, e);
        let (t, lit) = match TokenType::from_string(lex.as_str()) {
            Some(TokenType::True) => (TokenType::True, Some(Literal::True)),
            Some(TokenType::False) => (TokenType::False, Some(Literal::False)),
            Some(TokenType::Nil) => (TokenType::Nil, Some(Literal::Nil)),
            Some(k) => (k, None),
            None => (TokenType::Identifier, None),
        };
        let tok = TokenItem { ttype: t, lexeme: lex, literal: lit, location: loc };
        (Some(tok), None, e, SourceLocation::new(loc.line, loc.pos + (e - i)))
    } else if c == '\n' {
        (None, None, i + 1, SourceLocation::new(loc.line + 1, 0))
    } else if c == ' ' || c == '\r' || c == '\t' {
        (None, None, i + 1, SourceLocation::new(loc.line, loc.pos + 1))
    } else {
        (None, Some(Error::UnexpectedCharacter { c, location: loc }), i + 1, SourceLocation::new(loc.line, loc.pos + 1))
    }
}


/// The scanner itself; one use scans one source text.
pub struct Scanner {}

impl Scanner {
    pub fn new() -> (r: Self)
        ensures
            true,
    {
        Scanner {  }
    }

    /// Scans the whole text. The token list is exactly `spec_scan` of the
    /// text from the start; when any error occurred the errors come back
    /// instead, in order. Either way the scan covers the entire text, and on
    /// success the token list ends in exactly one end-of-file token whose
    /// lexeme is empty, with all lexemes together covering no more
    /// characters than the text holds.
    pub fn scan(self, input: &str) -> (r: Result<Vec<TokenItem>, Vec<Error>>)
        requires
            input@.len() + 8 <= usize::MAX,
        ensures
            ({
                let o = spec_scan(input@, 0, SourceLocation { line: 1, pos: 0 });
                match r {
                    Ok(toks) => o.errs.len() == 0 && tokens_view(toks@) == o.toks && toks@.len()
                        >= 1 && toks@[toks@.len() - 1].ttype == TokenType::EoF && (forall|j: int|
                        0 <= j < toks@.len() - 1 ==> toks@[j].ttype != TokenType::EoF)
                        && lexeme_total(tokens_view(toks@)) <= input@.len(),
                    Err(errs) => o.errs.len() > 0 && errs@ == o.errs,
                }
            }),
    {
        let cs = chars_of(input);
        let ghost loc0 = SourceLocation { line: 1, pos: 0 };
        let ghost o0 = spec_scan(cs@, 0, loc0);
        let mut toks: Vec<TokenItem> = Vec::new();
        let mut errs: Vec<Error> = Vec::new();
        let mut i: usize = 0;
        let mut loc = SourceLocation::new(1, 0);
        while i < cs.len()
            invariant
                i <= cs@.len(),
                cs@ == input@,
                cs@.len() + 8 <= usize::MAX,
                scan_invariant(cs@, i as int, loc),
                o0 == spec_scan(cs@, 0, loc0),
                o0.toks =~= tokens_view(toks@) + spec_scan(cs@, i as int, loc).toks,
                o0.errs =~= errs@ + spec_scan(cs@, i as int, loc).errs,
            decreases cs@.len() - i,
        {
            proof {
                lemma_step_sane(cs@, i as int, loc);
            }
            let ghost st = spec_step(cs@, i as int, loc);
            let ghost rest = spec_scan(cs@, st.next, st.loc);
            let (t, e, ni, nloc) = scan_step(&cs, i, loc);
            let ghost toks_pre = toks@;
            let ghost errs_pre = errs@;
            match t {
                Some(tok) => {
                    toks.push(tok);
                },
                None => {},
            }
            match e {
                Some(err) => {
                    errs.push(err);
                },
                None => {},
            }
            proof {
                assert(tokens_view(toks@) =~= tokens_view(toks_pre) + (match st.tok {
                    Some(tm) => seq![tm],
                    None => Seq::empty(),
                }));
                assert(o0.toks =~= tokens_view(toks@) + rest.toks);
                assert(o0.errs =~= errs@ + rest.errs);
            }
            i = ni;
            loc = nloc;
        }
        let eof = TokenItem {
            ttype: TokenType::EoF,
            lexeme: String::new(),
            literal: None,
            location: loc,
        };
        toks.push(eof);
        proof {
            assert(tokens_view(toks@) =~= o0.toks);
            assert(o0.errs =~= errs@);
            law_scan_shape(cs@, 0, loc0);
            assert forall|j: int| 0 <= j < toks@.len() implies tokens_view(toks@)[j] == token_view(
                toks@[j],
            ) by {}
            assert(toks@.len() == o0.toks.len());
            assert(toks@.len() >= 1);
            assert(token_view(toks@[toks@.len() - 1]) == o0.toks[o0.toks.len() - 1]);
            assert(o0.toks.last() == o0.toks[o0.toks.len() - 1]);
            assert(toks@[toks@.len() - 1].ttype == TokenType::EoF);
            assert forall|j: int| 0 <= j < toks@.len() - 1 implies toks@[j].ttype
                != TokenType::EoF by {
                assert(token_view(toks@[j]) == o0.toks[j]);
            }
            assert(lexeme_total(tokens_view(toks@)) <= input@.len());
        }
        if errs.len() == 0 {
            Ok(toks)
        } else {
            Err(errs)
        }
    }
}

} // verus!
