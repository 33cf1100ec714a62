//! The single-pass compiler: a Pratt parser that takes the scanned tokens in
//! order and emits bytecode into a chunk as it goes. Its promise is the
//! chunk's shape: whatever the source, the emitted stream stays complete,
//! and a successful compile ends it with a return — so every operand the
//! machine will read is inside the chunk and every pool index is inside the
//! pool.
use vstd::prelude::*;
use crate::chunk::{
    code_partial, code_wf, law_partial_close, lemma_partial_cat, lemma_partial_mono, Chunk, OpCode,
};
use crate::scan::{scan_all, scan_tokens_wf, spec_bscan, BTokM, Token, TokenType};
use crate::value::{Value, VmV};
use crate::vm::stack_view;

verus! {

broadcast use vstd::std_specs::vec::group_vec_axioms, vstd::seq::group_seq_axioms;

/// The infix binding power of a token: equality binds weakest, then
/// comparison, then the additive and the multiplicative operators.
pub open spec fn spec_infix_power(t: TokenType) -> u8 {
    match t {
        TokenType::BangEqual => 4,
        TokenType::EqualEqual => 4,
        TokenType::Greater => 5,
        TokenType::GreaterEqual => 5,
        TokenType::Less => 5,
        TokenType::LessEqual => 5,
        TokenType::Minus => 6,
        TokenType::Plus => 6,
        TokenType::Slash => 7,
        TokenType::Star => 7,
        _ => 0,
    }
}

fn infix_power(t: TokenType) -> (r: u8)
    ensures
        r == spec_infix_power(t),
{
    match t {
        TokenType::BangEqual => 4,
        TokenType::EqualEqual => 4,
        TokenType::Greater => 5,
        TokenType::GreaterEqual => 5,
        TokenType::Less => 5,
        TokenType::LessEqual => 5,
        TokenType::Minus => 6,
        TokenType::Plus => 6,
        TokenType::Slash => 7,
        TokenType::Star => 7,
        _ => 0,
    }
}


/// A token stream free of the scanner's error tokens: a cleanly scanned
/// text yields one, and on such a stream the compiler's output is pinned
/// exactly.
pub open spec fn bclean(ts: Seq<BTokM>) -> bool {
    forall|i: int| 0 <= i < ts.len() ==> (#[trigger] ts[i].ttype) != TokenType::Error
}

/// What one compiling step emits on a clean stream: the position parsing
/// resumes at, the bytes appended, and the constants pooled — or a failure.
pub enum CompR {
    COk { next: int, code: Seq<u8>, consts: Seq<VmV> },
    CErr,
}

/// The instruction that loads the constant at pool index `base`: the short
/// form under 256, the long form under 65536, and refused beyond.
pub open spec fn sp_load(base: int) -> Option<Seq<u8>> {
    if base < 256 {
        Some(seq![1u8, base as u8])
    } else if base < 65536 {
        Some(seq![2u8, (base / 256) as u8, (base % 256) as u8])
    } else {
        None
    }
}

/// The bytes a binary operator emits, operands already on the stack.
pub open spec fn sp_op_bytes(t: TokenType) -> Seq<u8> {
    match t {
        TokenType::Minus => seq![5u8],
        TokenType::Plus => seq![4u8],
        TokenType::Star => seq![6u8],
        TokenType::Slash => seq![7u8],
        TokenType::BangEqual => seq![12u8, 11u8],
        TokenType::EqualEqual => seq![12u8],
        TokenType::Greater => seq![13u8],
        TokenType::GreaterEqual => seq![14u8, 11u8],
        TokenType::Less => seq![14u8],
        TokenType::LessEqual => seq![13u8, 11u8],
        _ => Seq::empty(),
    }
}

/// Parsing at a precedence: the prefix form at the cursor, then the infix
/// chain. `base` is the pool size already taken. Mirrors the parse exactly
/// on a clean stream; any failing check is the failure outcome.
pub open spec fn sp_pp(ts: Seq<BTokM>, c: int, prec: u8, base: int) -> CompR
    decreases ts.len() - c, 1int,
        when 0 <= c <= ts.len()
{
    if c >= ts.len() || ts[c].ttype == TokenType::EoF {
        CompR::CErr
    } else {
        let t = ts[c].ttype;
        let c1 = c + 1;
        if t == TokenType::LeftParen {
            match sp_pp(ts, c1, 1, base) {
                CompR::COk { next, code, consts } => {
                    if c < next && next < ts.len() && ts[next].ttype == TokenType::RightParen {
                        sp_infix(ts, next + 1, prec, base + consts.len(), code, consts)
                    } else {
                        CompR::CErr
                    }
                },
                CompR::CErr => CompR::CErr,
            }
        } else if t == TokenType::Minus {
            match sp_pp(ts, c1, 8, base) {
                CompR::COk { next, code, consts } => {
                    if c < next <= ts.len() {
                        sp_infix(ts, next, prec, base + consts.len(), code.push(3u8), consts)
                    } else {
                        CompR::CErr
                    }
                },
                CompR::CErr => CompR::CErr,
            }
        } else if t == TokenType::Bang {
            match sp_pp(ts, c1, 8, base) {
                CompR::COk { next, code, consts } => {
                    if c < next <= ts.len() {
                        sp_infix(ts, next, prec, base + consts.len(), code.push(11u8), consts)
                    } else {
                        CompR::CErr
                    }
                },
                CompR::CErr => CompR::CErr,
            }
        } else if t == TokenType::Number {
            match sp_load(base) {
                Some(load) => sp_infix(
                    ts,
                    c1,
                    prec,
                    base + 1,
                    load,
                    seq![VmV::N(crate::number::f64_of_dec(ts[c].lexeme))],
                ),
                None => CompR::CErr,
            }
        } else if t == TokenType::String {
            let lex = ts[c].lexeme;
            let contents = if lex.len() >= 2 {
                lex.subrange(1, lex.len() - 1)
            } else {
                lex
            };
            match sp_load(base) {
                Some(load) => sp_infix(ts, c1, prec, base + 1, load, seq![VmV::CS(contents)]),
                None => CompR::CErr,
            }
        } else if t == TokenType::Nil {
            sp_infix(ts, c1, prec, base, seq![8u8], Seq::empty())
        } else if t == TokenType::True {
            sp_infix(ts, c1, prec, base, seq![9u8], Seq::empty())
        } else if t == TokenType::False {
            sp_infix(ts, c1, prec, base, seq![10u8], Seq::empty())
        } else if t == TokenType::Identifier {
            if base >= 256 {
                CompR::CErr
            } else {
                let name = seq![VmV::CS(ts[c].lexeme)];
                if prec <= 1 && c1 < ts.len() && ts[c1].ttype == TokenType::Equal {
                    match sp_pp(ts, c1 + 1, 1, base + 1) {
                        CompR::COk { next, code, consts } => {
                            if c1 + 1 < next <= ts.len() {
                                sp_infix(
                                    ts,
                                    next,
                                    prec,
                                    base + 1 + consts.len(),
                                    code + seq![19u8, base as u8],
                                    name + consts,
                                )
                            } else {
                                CompR::CErr
                            }
                        },
                        CompR::CErr => CompR::CErr,
                    }
                } else {
                    sp_infix(ts, c1, prec, base + 1, seq![18u8, base as u8], name)
                }
            }
        } else {
            CompR::CErr
        }
    }
}

/// The infix chain: while the next token binds at least as tightly as
/// asked, take it, parse its right side one level tighter, and append its
/// bytes — so chains associate to the left. A left-over `=` in an
/// assignment-permitting context has no target and fails.
pub open spec fn sp_infix(
    ts: Seq<BTokM>,
    c: int,
    prec: u8,
    base: int,
    code: Seq<u8>,
    consts: Seq<VmV>,
) -> CompR
    decreases ts.len() - c, 0int,
        when 0 <= c <= ts.len()
{
    let p = if c < ts.len() {
        spec_infix_power(ts[c].ttype)
    } else {
        0
    };
    if p == 0 || p < prec {
        if prec <= 1 && c < ts.len() && ts[c].ttype == TokenType::Equal {
            CompR::CErr
        } else {
            CompR::COk { next: c, code, consts }
        }
    } else {
        let op = ts[c].ttype;
        match sp_pp(ts, c + 1, (p + 1) as u8, base) {
            CompR::COk { next, code: rcode, consts: rconsts } => {
                if next <= c || next > ts.len() {
                    CompR::CErr
                } else {
                    sp_infix(
                        ts,
                        next,
                        prec,
                        base + rconsts.len(),
                        code + rcode + sp_op_bytes(op),
                        consts + rconsts,
                    )
                }
            },
            CompR::CErr => CompR::CErr,
        }
    }
}

/// One expression: a parse at the assignment level.
pub open spec fn sp_expression(ts: Seq<BTokM>, c: int, base: int) -> CompR
    decreases ts.len() - c, 2int,
        when 0 <= c <= ts.len()
{
    sp_pp(ts, c, 1, base)
}

/// One statement: a print statement or an expression statement, closed by a
/// semicolon and its popping or printing instruction.
pub open spec fn sp_statement(ts: Seq<BTokM>, c: int, base: int) -> CompR
    decreases ts.len() - c, 3int,
        when 0 <= c <= ts.len()
{
    if c < ts.len() && ts[c].ttype == TokenType::Print {
        match sp_expression(ts, c + 1, base) {
            CompR::COk { next, code, consts } => {
                if next < ts.len() && ts[next].ttype == TokenType::Semicolon {
                    CompR::COk { next: next + 1, code: code.push(15u8), consts }
                } else {
                    CompR::CErr
                }
            },
            CompR::CErr => CompR::CErr,
        }
    } else {
        match sp_expression(ts, c, base) {
            CompR::COk { next, code, consts } => {
                if next < ts.len() && ts[next].ttype == TokenType::Semicolon {
                    CompR::COk { next: next + 1, code: code.push(16u8), consts }
                } else {
                    CompR::CErr
                }
            },
            CompR::CErr => CompR::CErr,
        }
    }
}

/// One variable declaration, the cursor on the name: the initializer (or
/// the nil instruction), the semicolon, then the instruction that binds the
/// global under its pooled name.
pub open spec fn sp_var(ts: Seq<BTokM>, c: int, base: int) -> CompR
    decreases ts.len() - c, 3int,
        when 0 <= c <= ts.len()
{
    if c >= ts.len() || ts[c].ttype != TokenType::Identifier {
        CompR::CErr
    } else {
        let name = ts[c].lexeme;
        let c1 = c + 1;
        let init = if c1 < ts.len() && ts[c1].ttype == TokenType::Equal {
            sp_expression(ts, c1 + 1, base)
        } else {
            CompR::COk { next: c1, code: seq![8u8], consts: Seq::empty() }
        };
        match init {
            CompR::COk { next, code, consts } => {
                if next < ts.len() && ts[next].ttype == TokenType::Semicolon {
                    let arg = base + consts.len();
                    if arg >= 256 {
                        CompR::CErr
                    } else {
                        CompR::COk {
                            next: next + 1,
                            code: code + seq![17u8, arg as u8],
                            consts: consts.push(VmV::CS(name)),
                        }
                    }
                } else {
                    CompR::CErr
                }
            },
            CompR::CErr => CompR::CErr,
        }
    }
}

/// One declaration: a variable declaration after `var`, else a statement.
pub open spec fn sp_declaration(ts: Seq<BTokM>, c: int, base: int) -> CompR
    decreases ts.len() - c, 4int,
        when 0 <= c <= ts.len()
{
    if c < ts.len() && ts[c].ttype == TokenType::Var {
        sp_var(ts, c + 1, base)
    } else {
        sp_statement(ts, c, base)
    }
}

/// A whole program's declarations up to the end-of-file token.
pub open spec fn sp_program(ts: Seq<BTokM>, c: int, base: int) -> CompR
    decreases ts.len() - c, 5int,
        when 0 <= c <= ts.len()
{
    if c >= ts.len() {
        CompR::CErr
    } else if ts[c].ttype == TokenType::EoF {
        CompR::COk { next: c, code: Seq::empty(), consts: Seq::empty() }
    } else {
        match sp_declaration(ts, c, base) {
            CompR::COk { next, code, consts } => {
                if next <= c || next > ts.len() {
                    CompR::CErr
                } else {
                    match sp_program(ts, next, base + consts.len()) {
                        CompR::COk { next: n2, code: code2, consts: consts2 } => CompR::COk {
                            next: n2,
                            code: code + code2,
                            consts: consts + consts2,
                        },
                        CompR::CErr => CompR::CErr,
                    }
                }
            },
            CompR::CErr => CompR::CErr,
        }
    }
}

/// What compiling a token stream yields when it compiles cleanly: the
/// emitted instruction bytes, closed by the final return, and the constant
/// pool — operands before their operator, tighter operators bound first.
pub open spec fn spec_compile(ts: Seq<BTokM>) -> Option<(Seq<u8>, Seq<VmV>)> {
    match sp_program(ts, 0, 0) {
        CompR::COk { next, code, consts } => Some((code.push(0u8), consts)),
        CompR::CErr => None,
    }
}


/// Whether a step left the error latch, the failure flag and the report
/// untouched.
pub open spec fn unchanged_flags(a: Parser, b: Parser) -> bool {
    a.had_error == b.had_error && a.panic_mode == b.panic_mode && a.diagnostics@ == b.diagnostics@
}

/// A successful parse always consumes at least one token and stays inside
/// the stream.
pub proof fn lemma_sp_next(ts: Seq<BTokM>, c: int, prec: u8, base: int)
    requires
        0 <= c <= ts.len(),
    ensures
        sp_pp(ts, c, prec, base) is COk ==> c < sp_pp(ts, c, prec, base)->COk_next <= ts.len(),
    decreases ts.len() - c, 1int,
{
    if c >= ts.len() || ts[c].ttype == TokenType::EoF {
    } else {
        let t = ts[c].ttype;
        let c1 = c + 1;
        if t == TokenType::LeftParen {
            lemma_sp_next(ts, c1, 1, base);
            match sp_pp(ts, c1, 1, base) {
                CompR::COk { next, code, consts } => {
                    if c < next && next < ts.len() && ts[next].ttype == TokenType::RightParen {
                        lemma_sp_infix_next(
                            ts,
                            next + 1,
                            prec,
                            base + consts.len(),
                            code,
                            consts,
                        );
                    }
                },
                CompR::CErr => {},
            }
        } else if t == TokenType::Minus || t == TokenType::Bang {
            lemma_sp_next(ts, c1, 8, base);
            match sp_pp(ts, c1, 8, base) {
                CompR::COk { next, code, consts } => {
                    if c < next <= ts.len() {
                        lemma_sp_infix_next(
                            ts,
                            next,
                            prec,
                            base + consts.len(),
                            (if t == TokenType::Minus {
                                code.push(3u8)
                            } else {
                                code.push(11u8)
                            }),
                            consts,
                        );
                    }
                },
                CompR::CErr => {},
            }
        } else if t == TokenType::Number {
            match sp_load(base) {
                Some(load) => {
                    lemma_sp_infix_next(
                        ts,
                        c1,
                        prec,
                        base + 1,
                        load,
                        seq![VmV::N(crate::number::f64_of_dec(ts[c].lexeme))],
                    );
                },
                None => {},
            }
        } else if t == TokenType::String {
            let lex = ts[c].lexeme;
            let contents = if lex.len() >= 2 {
                lex.subrange(1, lex.len() - 1)
            } else {
                lex
            };
            match sp_load(base) {
                Some(load) => {
                    lemma_sp_infix_next(ts, c1, prec, base + 1, load, seq![VmV::CS(contents)]);
                },
                None => {},
            }
        } else if t == TokenType::Nil {
            lemma_sp_infix_next(ts, c1, prec, base, seq![8u8], Seq::empty());
        } else if t == TokenType::True {
            lemma_sp_infix_next(ts, c1, prec, base, seq![9u8], Seq::empty());
        } else if t == TokenType::False {
            lemma_sp_infix_next(ts, c1, prec, base, seq![10u8], Seq::empty());
        } else if t == TokenType::Identifier {
            if base < 256 {
                let name = seq![VmV::CS(ts[c].lexeme)];
                if prec <= 1 && c1 < ts.len() && ts[c1].ttype == TokenType::Equal {
                    lemma_sp_next(ts, c1 + 1, 1, base + 1);
                    match sp_pp(ts, c1 + 1, 1, base + 1) {
                        CompR::COk { next, code, consts } => {
                            if c1 + 1 < next <= ts.len() {
                                lemma_sp_infix_next(
                                    ts,
                                    next,
                                    prec,
                                    base + 1 + consts.len(),
                                    code + seq![19u8, base as u8],
                                    name + consts,
                                );
                            }
                        },
                        CompR::CErr => {},
                    }
                } else {
                    lemma_sp_infix_next(ts, c1, prec, base + 1, seq![18u8, base as u8], name);
                }
            }
        }
    }
}

/// The infix chain never moves left and stays inside the stream.
pub proof fn lemma_sp_infix_next(
    ts: Seq<BTokM>,
    c: int,
    prec: u8,
    base: int,
    code: Seq<u8>,
    consts: Seq<VmV>,
)
    requires
        0 <= c <= ts.len(),
    ensures
        sp_infix(ts, c, prec, base, code, consts) is COk ==> c <= sp_infix(
            ts,
            c,
            prec,
            base,
            code,
            consts,
        )->COk_next <= ts.len(),
    decreases ts.len() - c, 0int,
{
    let p = if c < ts.len() {
        spec_infix_power(ts[c].ttype)
    } else {
        0
    };
    if p == 0 || p < prec {
    } else {
        let op = ts[c].ttype;
        match sp_pp(ts, c + 1, (p + 1) as u8, base) {
            CompR::COk { next, code: rcode, consts: rconsts } => {
                if !(next <= c || next > ts.len()) {
                    lemma_sp_infix_next(
                        ts,
                        next,
                        prec,
                        base + rconsts.len(),
                        code + rcode + sp_op_bytes(op),
                        consts + rconsts,
                    );
                }
            },
            CompR::CErr => {},
        }
    }
}

/// Every successful statement-level parse consumes at least one token.
pub proof fn lemma_sp_decl_next(ts: Seq<BTokM>, c: int, base: int)
    requires
        0 <= c <= ts.len(),
    ensures
        sp_declaration(ts, c, base) is COk ==> c < sp_declaration(ts, c, base)->COk_next
            <= ts.len(),
        sp_statement(ts, c, base) is COk ==> c < sp_statement(ts, c, base)->COk_next <= ts.len(),
        sp_var(ts, c, base) is COk ==> c < sp_var(ts, c, base)->COk_next <= ts.len(),
{
    lemma_sp_next(ts, c, 1, base);
    if c < ts.len() && ts[c].ttype == TokenType::Print {
        lemma_sp_next(ts, c + 1, 1, base);
    }
    if c < ts.len() && ts[c].ttype == TokenType::Identifier {
        if c + 1 < ts.len() && ts[c + 1].ttype == TokenType::Equal {
            lemma_sp_next(ts, c + 2, 1, base);
        }
    }
    if c < ts.len() && ts[c].ttype == TokenType::Var {
        lemma_sp_var_next(ts, c + 1, base);
    }
}

/// A successful variable declaration consumes at least one token.
pub proof fn lemma_sp_var_next(ts: Seq<BTokM>, c: int, base: int)
    requires
        0 <= c <= ts.len(),
    ensures
        sp_var(ts, c, base) is COk ==> c < sp_var(ts, c, base)->COk_next <= ts.len(),
{
    if c < ts.len() && ts[c].ttype == TokenType::Identifier {
        if c + 1 < ts.len() && ts[c + 1].ttype == TokenType::Equal {
            lemma_sp_next(ts, c + 2, 1, base);
        }
    }
}

/// Whether an executable parsing step matched its mirror: a successful
/// mirror pins the cursor, the emitted bytes, the pooled constants and the
/// untouched flags; a failed mirror means a failure was recorded.
pub open spec fn corr(pre: Parser, post: Parser, cpre: Chunk, cpost: Chunk, m: CompR) -> bool {
    match m {
        CompR::COk { next, code, consts } => post.cursor as int == next && cpost.code@
            == cpre.code@ + code && stack_view(cpost.constants@) == stack_view(cpre.constants@)
            + consts && unchanged_flags(pre, post),
        CompR::CErr => post.had_error,
    }
}

/// A result shifted behind bytes and constants already emitted.
pub open spec fn sp_lift(r: CompR, pre_code: Seq<u8>, pre_consts: Seq<VmV>) -> CompR {
    match r {
        CompR::COk { next, code, consts } => CompR::COk {
            next,
            code: pre_code + code,
            consts: pre_consts + consts,
        },
        CompR::CErr => CompR::CErr,
    }
}

/// The parser's walk over the token stream: the tokens, the token about to
/// be taken, the one just taken, the error latch, and what was reported.
pub struct Parser {
    pub tokens: Vec<Token>,
    pub cursor: usize,
    pub previous: usize,
    pub had_error: bool,
    pub panic_mode: bool,
    pub diagnostics: Vec<(usize, String)>,
}

impl Parser {
    pub open spec fn inv(&self) -> bool {
        scan_tokens_wf(self.tokens@) && self.cursor < self.tokens@.len() && self.previous
            <= self.cursor && (self.had_error <==> self.diagnostics@.len() > 0) && (self.panic_mode
            ==> self.had_error)
    }

    /// Reports an error at a token, latching panic mode so one failure is
    /// reported per statement.
    fn error_at(&mut self, at: usize)
        requires
            old(self).inv(),
            at < old(self).tokens@.len(),
        ensures
            final(self).inv(),
            final(self).tokens@ == old(self).tokens@,
            final(self).cursor == old(self).cursor,
            final(self).previous == old(self).previous,
            final(self).had_error,
    {
        if self.panic_mode {
            return ;
        }
        self.panic_mode = true;
        self.had_error = true;
        let line = self.tokens[at].line;
        let lexeme = self.tokens[at].lexeme.clone();
        self.diagnostics.push((line, lexeme));
    }

    /// Takes the next token, skipping and reporting the scanner's error
    /// tokens.
    fn advance(&mut self)
        requires
            old(self).inv(),
        ensures
            final(self).inv(),
            final(self).tokens@ == old(self).tokens@,
            final(self).cursor >= old(self).cursor,
            final(self).previous == old(self).cursor,
            old(self).had_error ==> final(self).had_error,
            old(self).tokens@[old(self).cursor as int].ttype != TokenType::EoF
                ==> final(self).cursor > old(self).cursor,
            old(self).tokens@[old(self).cursor as int].ttype == TokenType::EoF
                ==> final(self).cursor == old(self).cursor && unchanged_flags(
                *old(self),
                *final(self),
            ),
            old(self).tokens@[old(self).cursor as int].ttype != TokenType::EoF && bclean(
                crate::scan::btoks_view(old(self).tokens@),
            ) ==> final(self).cursor == old(self).cursor + 1 && unchanged_flags(
                *old(self),
                *final(self),
            ),
    {
        self.previous = self.cursor;
        let n = self.tokens.len();
        if matches!(self.tokens[self.cursor].ttype, TokenType::EoF) {
            return ;
        }
        proof {
            if self.cursor == n - 1 {
                assert(self.tokens@[self.cursor as int] == self.tokens@.last());
            }
        }
        self.cursor = self.cursor + 1;
        while matches!(self.tokens[self.cursor].ttype, TokenType::Error) && self.cursor
            < self.tokens.len() - 1
            invariant
                self.inv(),
                self.tokens@ == old(self).tokens@,
                old(self).cursor < self.cursor < self.tokens@.len(),
                self.previous == old(self).cursor,
                old(self).had_error ==> self.had_error,
                bclean(crate::scan::btoks_view(old(self).tokens@)) ==> self.cursor == old(
                    self,
                ).cursor + 1 && unchanged_flags(*old(self), *self),
            decreases self.tokens@.len() - self.cursor,
        {
            proof {
                assert(crate::scan::btoks_view(self.tokens@)[self.cursor as int].ttype
                    == self.tokens@[self.cursor as int].ttype);
            }
            let at = self.cursor;
            self.error_at(at);
            self.cursor = self.cursor + 1;
        }
    }

    fn check(&self, ttype: TokenType) -> (r: bool)
        requires
            self.inv(),
        ensures
            r == (self.tokens@[self.cursor as int].ttype == ttype),
    {
        self.tokens[self.cursor].ttype == ttype
    }

    /// Takes the next token when it is of the wanted kind.
    fn match_token(&mut self, ttype: TokenType) -> (r: bool)
        requires
            old(self).inv(),
        ensures
            final(self).inv(),
            final(self).tokens@ == old(self).tokens@,
            final(self).cursor >= old(self).cursor,
            old(self).had_error ==> final(self).had_error,
            r == (old(self).tokens@[old(self).cursor as int].ttype == ttype),
            r && ttype != TokenType::EoF ==> final(self).cursor > old(self).cursor,
            !r ==> final(self).cursor == old(self).cursor && unchanged_flags(
                *old(self),
                *final(self),
            ),
            r && ttype != TokenType::EoF && bclean(crate::scan::btoks_view(old(self).tokens@))
                ==> final(self).cursor == old(self).cursor + 1 && unchanged_flags(
                *old(self),
                *final(self),
            ),
    {
        if self.check(ttype) {
            self.advance();
            true
        } else {
            false
        }
    }

    /// Demands a token of the wanted kind, reporting its absence.
    fn consume(&mut self, ttype: TokenType)
        requires
            old(self).inv(),
        ensures
            final(self).inv(),
            final(self).tokens@ == old(self).tokens@,
            final(self).cursor >= old(self).cursor,
            old(self).had_error ==> final(self).had_error,
            old(self).tokens@[old(self).cursor as int].ttype != ttype ==> final(self).cursor
                == old(self).cursor && final(self).had_error,
            old(self).tokens@[old(self).cursor as int].ttype == ttype && ttype != TokenType::EoF
                && bclean(crate::scan::btoks_view(old(self).tokens@)) ==> final(self).cursor
                == old(self).cursor + 1 && unchanged_flags(*old(self), *final(self)),
    {
        if self.check(ttype) {
            self.advance();
        } else {
            let at = self.cursor;
            self.error_at(at);
        }
    }

    /// Discards tokens to the next plausible statement boundary.
    fn synchronize(&mut self)
        requires
            old(self).inv(),
        ensures
            final(self).inv(),
            final(self).tokens@ == old(self).tokens@,
            final(self).cursor >= old(self).cursor,
            old(self).had_error ==> final(self).had_error,
    {
        self.panic_mode = false;
        loop
            invariant
                self.inv(),
                self.tokens@ == old(self).tokens@,
                self.cursor >= old(self).cursor,
                old(self).had_error ==> self.had_error,
            decreases self.tokens@.len() - self.cursor,
        {
            if matches!(self.tokens[self.cursor].ttype, TokenType::EoF) {
                return ;
            }
            if self.previous < self.tokens.len() && matches!(
                self.tokens[self.previous].ttype,
                TokenType::Semicolon,
            ) {
                return ;
            }
            match self.tokens[self.cursor].ttype {
                TokenType::Class | TokenType::Fun | TokenType::Var | TokenType::For
                    | TokenType::If | TokenType::While | TokenType::Print | TokenType::Return => {
                    return ;
                },
                _ => {
                    self.advance();
                },
            }
        }
    }
}

/// Emits one operandless instruction.
fn emit_simple(chunk: &mut Chunk, op: OpCode, line: usize)
    requires
        old(chunk).inv(),
        code_partial(old(chunk).code@, old(chunk).constants@.len() as int),
        op != OpCode::Constant && op != OpCode::ConstantLong && op != OpCode::DefineGlobal && op
            != OpCode::GetGlobal && op != OpCode::SetGlobal && op != OpCode::Unknown,
    ensures
        final(chunk).inv(),
        final(chunk).constants@ == old(chunk).constants@,
        final(chunk).code@ == old(chunk).code@.push(crate::chunk::spec_op_byte(op)),
        code_partial(final(chunk).code@, final(chunk).constants@.len() as int),
{
    let b = op.byte();
    chunk.write(b, line);
    proof {
        let n = chunk.constants@.len() as int;
        let one = seq![crate::chunk::spec_op_byte(op)];
        assert(one.subrange(1, 1) =~= Seq::<u8>::empty());
        assert(code_partial(Seq::<u8>::empty(), n));
        assert(code_partial(one, n));
        lemma_partial_cat(old(chunk).code@, one, n);
        assert(chunk.code@ =~= old(chunk).code@ + one);
    }
}

/// Emits one global-variable instruction with its one-byte pool index.
fn emit_global_op(chunk: &mut Chunk, op: OpCode, idx: u8, line: usize)
    requires
        old(chunk).inv(),
        code_partial(old(chunk).code@, old(chunk).constants@.len() as int),
        op == OpCode::DefineGlobal || op == OpCode::GetGlobal || op == OpCode::SetGlobal,
        (idx as int) < old(chunk).constants@.len(),
    ensures
        final(chunk).inv(),
        final(chunk).constants@ == old(chunk).constants@,
        final(chunk).code@ == old(chunk).code@ + seq![crate::chunk::spec_op_byte(op), idx],
        code_partial(final(chunk).code@, final(chunk).constants@.len() as int),
{
    let b = op.byte();
    chunk.write(b, line);
    chunk.write(idx, line);
    proof {
        let n = chunk.constants@.len() as int;
        let two = seq![crate::chunk::spec_op_byte(op), idx];
        assert(two.subrange(2, 2) =~= Seq::<u8>::empty());
        assert(code_partial(Seq::<u8>::empty(), n));
        assert(code_partial(two, n));
        lemma_partial_cat(old(chunk).code@, two, n);
        assert(chunk.code@ =~= old(chunk).code@ + two);
    }
}

/// Adds a constant and emits the instruction that loads it, keeping the
/// stream complete.
fn emit_constant(chunk: &mut Chunk, value: Value, line: usize) -> (r: bool)
    requires
        old(chunk).inv(),
        code_partial(old(chunk).code@, old(chunk).constants@.len() as int),
    ensures
        final(chunk).inv(),
        final(chunk).constants@.len() >= old(chunk).constants@.len(),
        code_partial(final(chunk).code@, final(chunk).constants@.len() as int),
        ({
            match sp_load(old(chunk).constants@.len() as int) {
                Some(load) => r && final(chunk).code@ == old(chunk).code@ + load && stack_view(
                    final(chunk).constants@,
                ) == stack_view(old(chunk).constants@).push(crate::value::vm_view(value)),
                None => !r && final(chunk).code@ == old(chunk).code@ && final(chunk).constants@
                    == old(chunk).constants@,
            }
        }),
{
    let ghost n0 = chunk.constants@.len() as int;
    let ok = chunk.write_constant(value, line);
    proof {
        let n = chunk.constants@.len() as int;
        if n0 < 65536 {
            assert(stack_view(chunk.constants@) =~= stack_view(old(chunk).constants@).push(
                crate::value::vm_view(value),
            ));
        }
        assert(code_partial(Seq::<u8>::empty(), n));
        if n0 < 256 {
            let two = seq![1u8, n0 as u8];
            assert(two.subrange(2, 2) =~= Seq::<u8>::empty());
            assert(code_partial(two, n));
            lemma_partial_mono(old(chunk).code@, n0, n);
            lemma_partial_cat(old(chunk).code@, two, n);
        } else if n0 < 65536 {
            let three = seq![2u8, (n0 / 256) as u8, (n0 % 256) as u8];
            assert(three.subrange(3, 3) =~= Seq::<u8>::empty());
            assert(three[1] * 256 + three[2] == n0) by (nonlinear_arith)
                requires
                    three[1] == (n0 / 256) as u8,
                    three[2] == (n0 % 256) as u8,
                    256 <= n0 < 65536,
            ;
            assert(code_partial(three, n));
            lemma_partial_mono(old(chunk).code@, n0, n);
            lemma_partial_cat(old(chunk).code@, three, n);
        }
    }
    ok
}

impl Parser {
    /// Parses at the given precedence, emitting the expression's bytecode.
    /// This one function carries the whole Pratt table: the prefix forms
    /// dispatch on the token just taken, and the infix loop runs while the
    /// next token binds at least as tightly as asked.
    fn parse_precedence(&mut self, prec: u8, chunk: &mut Chunk)
        requires
            old(self).inv(),
            old(chunk).inv(),
            code_partial(old(chunk).code@, old(chunk).constants@.len() as int),
        ensures
            final(self).inv(),
            final(self).tokens@ == old(self).tokens@,
            final(self).cursor >= old(self).cursor,
            old(self).had_error ==> final(self).had_error,
            final(chunk).inv(),
            final(chunk).constants@.len() >= old(chunk).constants@.len(),
            code_partial(final(chunk).code@, final(chunk).constants@.len() as int),
            bclean(crate::scan::btoks_view(old(self).tokens@)) ==> corr(
                *old(self),
                *final(self),
                *old(chunk),
                *final(chunk),
                sp_pp(
                    crate::scan::btoks_view(old(self).tokens@),
                    old(self).cursor as int,
                    prec,
                    old(chunk).constants@.len() as int,
                ),
            ),
        decreases old(self).tokens@.len() - old(self).cursor, 1int,
    {
        let ghost ts = crate::scan::btoks_view(self.tokens@);
        let ghost c0 = self.cursor as int;
        let ghost base0 = chunk.constants@.len() as int;
        let ghost code0 = chunk.code@;
        let ghost k0 = stack_view(chunk.constants@);
        let ghost he0 = self.had_error;
        let ghost pm0 = self.panic_mode;
        let ghost dg0 = self.diagnostics@;
        let ghost m = sp_pp(ts, c0, prec, base0);
        proof {
            assert(ts[c0].ttype == self.tokens@[c0].ttype);
            assert(ts[c0].lexeme == self.tokens@[c0].lexeme@);
        }
        let can_assign = prec <= 1;
        self.advance();
        let prev = self.previous;
        let line = self.tokens[prev].line;
        let mut dcode: Ghost<Seq<u8>> = Ghost(Seq::empty());
        let mut dk: Ghost<Seq<VmV>> = Ghost(Seq::empty());
        let mut gok: Ghost<bool> = Ghost(true);
        match self.tokens[prev].ttype {
            TokenType::LeftParen => {
                let ghost inner = sp_pp(ts, c0 + 1, 1, base0);
                self.parse_precedence(1, chunk);
                proof {
                    lemma_sp_next(ts, c0 + 1, 1, base0);
                    if bclean(ts) && inner is COk {
                        assert(ts[inner->COk_next].ttype
                            == self.tokens@[inner->COk_next].ttype);
                    }
                }
                self.consume(TokenType::RightParen);
                let ghost ok2 = gok@ && inner is COk && ts[inner->COk_next].ttype
                    == TokenType::RightParen;
                let ghost dc2 = if inner is COk { inner->COk_code } else { dcode@ };
                let ghost dk2 = if inner is COk { inner->COk_consts } else { dk@ };
                gok = Ghost(ok2);
                dcode = Ghost(dc2);
                dk = Ghost(dk2);
            },
            TokenType::Minus => {
                let ghost inner = sp_pp(ts, c0 + 1, 8, base0);
                self.parse_precedence(8, chunk);
                emit_simple(chunk, OpCode::Negate, self.tokens[self.previous].line);
                proof {
                    lemma_sp_next(ts, c0 + 1, 8, base0);
                }
                let ghost ok2 = gok@ && inner is COk;
                let ghost dc2 = if inner is COk { inner->COk_code.push(3u8) } else { dcode@ };
                let ghost dk2 = if inner is COk { inner->COk_consts } else { dk@ };
                gok = Ghost(ok2);
                dcode = Ghost(dc2);
                dk = Ghost(dk2);
            },
            TokenType::Bang => {
                let ghost inner = sp_pp(ts, c0 + 1, 8, base0);
                self.parse_precedence(8, chunk);
                emit_simple(chunk, OpCode::Not, self.tokens[self.previous].line);
                proof {
                    lemma_sp_next(ts, c0 + 1, 8, base0);
                }
                let ghost ok2 = gok@ && inner is COk;
                let ghost dc2 = if inner is COk { inner->COk_code.push(11u8) } else { dcode@ };
                let ghost dk2 = if inner is COk { inner->COk_consts } else { dk@ };
                gok = Ghost(ok2);
                dcode = Ghost(dc2);
                dk = Ghost(dk2);
            },
            TokenType::Number => {
                let bits = crate::number::parse_bits(self.tokens[prev].lexeme.as_str());
                let ok = emit_constant(chunk, Value::Number(bits), line);
                if !ok {
                    self.error_at(prev);
                    gok = Ghost(false);
                } else {
                    let ghost dc2 = sp_load(base0)->0;
                    let ghost dk2 = seq![VmV::N(crate::number::f64_of_dec(ts[c0].lexeme))];
                    dcode = Ghost(dc2);
                    dk = Ghost(dk2);
                }
            },
            TokenType::String => {
                let lexeme = &self.tokens[prev].lexeme;
                let len = vstd::string::StrSliceExecFns::unicode_len(lexeme.as_str());
                let contents = if len >= 2 {
                    let inner = vstd::string::StrSliceExecFns::substring_char(
                        lexeme.as_str(),
                        1,
                        len - 1,
                    );
                    <String as vstd::string::StringExecFns>::from_str(inner)
                } else {
                    lexeme.clone()
                };
                let ok = emit_constant(chunk, Value::ConstString(contents), line);
                if !ok {
                    self.error_at(prev);
                    gok = Ghost(false);
                } else {
                    let ghost dc2 = sp_load(base0)->0;
                    let ghost inner_text = if ts[c0].lexeme.len() >= 2 {
                        ts[c0].lexeme.subrange(1, ts[c0].lexeme.len() - 1)
                    } else {
                        ts[c0].lexeme
                    };
                    let ghost dk2 = seq![VmV::CS(inner_text)];
                    dcode = Ghost(dc2);
                    dk = Ghost(dk2);
                }
            },
            TokenType::Nil => {
                emit_simple(chunk, OpCode::Nil, line);
                let ghost dc2 = seq![8u8];
                dcode = Ghost(dc2);
            },
            TokenType::True => {
                emit_simple(chunk, OpCode::True, line);
                let ghost dc2 = seq![9u8];
                dcode = Ghost(dc2);
            },
            TokenType::False => {
                emit_simple(chunk, OpCode::False, line);
                let ghost dc2 = seq![10u8];
                dcode = Ghost(dc2);
            },
            TokenType::Identifier => {
                let name = self.tokens[prev].lexeme.clone();
                let arg = chunk.add_constant(Value::ConstString(name));
                proof {
                    lemma_partial_mono(
                        chunk.code@,
                        old(chunk).constants@.len() as int,
                        chunk.constants@.len() as int,
                    );
                    assert(stack_view(chunk.constants@) =~= k0.push(
                        VmV::CS(self.tokens@[c0].lexeme@),
                    ));
                }
                if arg >= 256 {
                    self.error_at(prev);
                    return ;
                }
                if can_assign && self.check(TokenType::Equal) {
                    proof {
                        if bclean(ts) {
                            assert(ts[c0 + 1].ttype == self.tokens@[c0 + 1].ttype);
                        }
                    }
                    self.advance();
                    let ghost inner = sp_pp(ts, c0 + 2, 1, base0 + 1);
                    self.parse_precedence(1, chunk);
                    emit_global_op(
                        chunk,
                        OpCode::SetGlobal,
                        arg as u8,
                        self.tokens[self.previous].line,
                    );
                    proof {
                        lemma_sp_next(ts, c0 + 2, 1, base0 + 1);
                    }
                    let ghost ok2 = gok@ && inner is COk;
                    let ghost dc2 = if inner is COk {
                        inner->COk_code + seq![19u8, base0 as u8]
                    } else {
                        dcode@
                    };
                    let ghost dk2 = if inner is COk {
                        seq![VmV::CS(ts[c0].lexeme)] + inner->COk_consts
                    } else {
                        dk@
                    };
                    gok = Ghost(ok2);
                    dcode = Ghost(dc2);
                    dk = Ghost(dk2);
                } else {
                    emit_global_op(chunk, OpCode::GetGlobal, arg as u8, line);
                    proof {
                        if c0 + 1 < ts.len() {
                            assert(ts[c0 + 1].ttype == self.tokens@[c0 + 1].ttype);
                        }
                    }
                    let ghost dc2 = seq![18u8, base0 as u8];
                    let ghost dk2 = seq![VmV::CS(ts[c0].lexeme)];
                    dcode = Ghost(dc2);
                    dk = Ghost(dk2);
                }
            },
            _ => {
                self.error_at(prev);
                return ;
            },
        }
        proof {
            if bclean(ts) && gok@ {
                assert(chunk.code@ =~= code0 + dcode@);
                assert(stack_view(chunk.constants@) =~= k0 + dk@);
                assert(m == sp_infix(
                    ts,
                    self.cursor as int,
                    prec,
                    base0 + dk@.len(),
                    dcode@,
                    dk@,
                ));
            }
        }
        // the infix loop: each operator already bound takes its right side
        // at one level tighter, so chains associate to the left
        loop
            invariant
                self.inv(),
                self.tokens@ == old(self).tokens@,
                self.cursor > old(self).cursor,
                old(self).had_error ==> self.had_error,
                chunk.inv(),
                chunk.constants@.len() >= old(chunk).constants@.len(),
                code_partial(chunk.code@, chunk.constants@.len() as int),
                ts == crate::scan::btoks_view(old(self).tokens@),
                c0 == old(self).cursor as int,
                base0 == old(chunk).constants@.len() as int,
                code0 == old(chunk).code@,
                k0 == stack_view(old(chunk).constants@),
                he0 == old(self).had_error,
                pm0 == old(self).panic_mode,
                dg0 == old(self).diagnostics@,
                m == sp_pp(ts, c0, prec, base0),
                bclean(ts) ==> (if gok@ {
                    m == sp_infix(
                        ts,
                        self.cursor as int,
                        prec,
                        base0 + dk@.len(),
                        dcode@,
                        dk@,
                    ) && chunk.code@ == code0 + dcode@ && stack_view(chunk.constants@) == k0
                        + dk@ && self.had_error == he0 && self.panic_mode == pm0
                        && self.diagnostics@ == dg0
                } else {
                    m is CErr && self.had_error
                }),
            ensures
                self.inv(),
                self.tokens@ == old(self).tokens@,
                self.cursor > old(self).cursor,
                old(self).had_error ==> self.had_error,
                chunk.inv(),
                chunk.constants@.len() >= old(chunk).constants@.len(),
                code_partial(chunk.code@, chunk.constants@.len() as int),
                spec_infix_power(ts[self.cursor as int].ttype) == 0 || spec_infix_power(
                    ts[self.cursor as int].ttype,
                ) < prec,
                bclean(ts) ==> (if gok@ {
                    m == sp_infix(
                        ts,
                        self.cursor as int,
                        prec,
                        base0 + dk@.len(),
                        dcode@,
                        dk@,
                    ) && chunk.code@ == code0 + dcode@ && stack_view(chunk.constants@) == k0
                        + dk@ && self.had_error == he0 && self.panic_mode == pm0
                        && self.diagnostics@ == dg0
                } else {
                    m is CErr && self.had_error
                }),
            decreases self.tokens@.len() - self.cursor,
        {
            proof {
                assert(ts[self.cursor as int].ttype == self.tokens@[self.cursor as int].ttype);
            }
            let p = infix_power(self.tokens[self.cursor].ttype);
            if p == 0 || p < prec {
                break ;
            }
            let ghost cur_at = self.cursor as int;
            self.advance();
            let op_prev = self.previous;
            let op = self.tokens[op_prev].ttype;
            let ghost inner = sp_pp(ts, cur_at + 1, (p + 1) as u8, base0 + dk@.len());
            self.parse_precedence(p + 1, chunk);
            let eline = self.tokens[self.previous].line;
            match op {
                TokenType::Minus => emit_simple(chunk, OpCode::Subtract, eline),
                TokenType::Plus => emit_simple(chunk, OpCode::Add, eline),
                TokenType::Star => emit_simple(chunk, OpCode::Multiply, eline),
                TokenType::Slash => emit_simple(chunk, OpCode::Divide, eline),
                TokenType::BangEqual => {
                    emit_simple(chunk, OpCode::Equal, eline);
                    emit_simple(chunk, OpCode::Not, eline);
                },
                TokenType::EqualEqual => emit_simple(chunk, OpCode::Equal, eline),
                TokenType::Greater => emit_simple(chunk, OpCode::Greater, eline),
                TokenType::GreaterEqual => {
                    emit_simple(chunk, OpCode::Less, eline);
                    emit_simple(chunk, OpCode::Not, eline);
                },
                TokenType::Less => emit_simple(chunk, OpCode::Less, eline),
                TokenType::LessEqual => {
                    emit_simple(chunk, OpCode::Greater, eline);
                    emit_simple(chunk, OpCode::Not, eline);
                },
                _ => {},
            }
            proof {
                lemma_sp_next(ts, cur_at + 1, (p + 1) as u8, base0 + dk@.len());
            }
            let ghost ok2 = gok@ && inner is COk;
            let ghost dc2 = if inner is COk {
                dcode@ + inner->COk_code + sp_op_bytes(op)
            } else {
                dcode@
            };
            let ghost dk2 = if inner is COk {
                dk@ + inner->COk_consts
            } else {
                dk@
            };
            gok = Ghost(ok2);
            dcode = Ghost(dc2);
            dk = Ghost(dk2);
            proof {
                if bclean(ts) && gok@ {
                    assert(chunk.code@ =~= code0 + dcode@);
                    assert(stack_view(chunk.constants@) =~= k0 + dk@);
                }
            }
        }
        // a left-over assignment here had no valid target
        proof {
            assert(ts[self.cursor as int].ttype == self.tokens@[self.cursor as int].ttype);
            if bclean(ts) && gok@ {
                if prec <= 1 && ts[self.cursor as int].ttype == TokenType::Equal {
                    assert(m is CErr);
                } else {
                    assert(m == (CompR::COk {
                        next: self.cursor as int,
                        code: dcode@,
                        consts: dk@,
                    }));
                }
            }
        }
        if can_assign && self.check(TokenType::Equal) {
            let at = self.cursor;
            self.error_at(at);
        }
    }

    /// Parses one expression.
    fn expression(&mut self, chunk: &mut Chunk)
        requires
            old(self).inv(),
            old(chunk).inv(),
            code_partial(old(chunk).code@, old(chunk).constants@.len() as int),
        ensures
            final(self).inv(),
            final(self).tokens@ == old(self).tokens@,
            final(self).cursor >= old(self).cursor,
            old(self).had_error ==> final(self).had_error,
            final(chunk).inv(),
            final(chunk).constants@.len() >= old(chunk).constants@.len(),
            code_partial(final(chunk).code@, final(chunk).constants@.len() as int),
            bclean(crate::scan::btoks_view(old(self).tokens@)) ==> corr(
                *old(self),
                *final(self),
                *old(chunk),
                *final(chunk),
                sp_expression(
                    crate::scan::btoks_view(old(self).tokens@),
                    old(self).cursor as int,
                    old(chunk).constants@.len() as int,
                ),
            ),
        decreases old(self).tokens@.len() - old(self).cursor, 2int,
    {
        self.parse_precedence(1, chunk);
    }

    /// Parses one statement: a print statement or an expression statement.
    fn statement(&mut self, chunk: &mut Chunk)
        requires
            old(self).inv(),
            old(chunk).inv(),
            code_partial(old(chunk).code@, old(chunk).constants@.len() as int),
        ensures
            final(self).inv(),
            final(self).tokens@ == old(self).tokens@,
            final(self).cursor >= old(self).cursor,
            old(self).had_error ==> final(self).had_error,
            final(chunk).inv(),
            final(chunk).constants@.len() >= old(chunk).constants@.len(),
            code_partial(final(chunk).code@, final(chunk).constants@.len() as int),
            bclean(crate::scan::btoks_view(old(self).tokens@)) ==> corr(
                *old(self),
                *final(self),
                *old(chunk),
                *final(chunk),
                sp_statement(
                    crate::scan::btoks_view(old(self).tokens@),
                    old(self).cursor as int,
                    old(chunk).constants@.len() as int,
                ),
            ),
        decreases old(self).tokens@.len() - old(self).cursor, 3int,
    {
        let ghost ts = crate::scan::btoks_view(self.tokens@);
        let ghost c0 = self.cursor as int;
        let ghost base0 = chunk.constants@.len() as int;
        proof {
            assert(ts[c0].ttype == self.tokens@[c0].ttype);
        }
        if self.match_token(TokenType::Print) {
            let ghost inner = sp_expression(ts, c0 + 1, base0);
            self.expression(chunk);
            proof {
                if bclean(ts) && inner is COk {
                    lemma_sp_next(ts, c0 + 1, 1, base0);
                    assert(ts[inner->COk_next].ttype == self.tokens@[inner->COk_next].ttype);
                }
            }
            self.consume(TokenType::Semicolon);
            emit_simple(chunk, OpCode::Print, self.tokens[self.previous].line);
        } else {
            let ghost inner = sp_expression(ts, c0, base0);
            self.expression(chunk);
            proof {
                if bclean(ts) && inner is COk {
                    lemma_sp_next(ts, c0, 1, base0);
                    assert(ts[inner->COk_next].ttype == self.tokens@[inner->COk_next].ttype);
                }
            }
            self.consume(TokenType::Semicolon);
            emit_simple(chunk, OpCode::Pop, self.tokens[self.previous].line);
        }
    }

    /// Parses one variable declaration, the cursor on the name: the value
    /// (or the nil instruction), then the instruction that binds the global.
    fn var_declaration(&mut self, chunk: &mut Chunk)
        requires
            old(self).inv(),
            old(chunk).inv(),
            code_partial(old(chunk).code@, old(chunk).constants@.len() as int),
        ensures
            final(self).inv(),
            final(self).tokens@ == old(self).tokens@,
            final(self).cursor >= old(self).cursor,
            old(self).had_error ==> final(self).had_error,
            final(chunk).inv(),
            final(chunk).constants@.len() >= old(chunk).constants@.len(),
            code_partial(final(chunk).code@, final(chunk).constants@.len() as int),
            bclean(crate::scan::btoks_view(old(self).tokens@)) ==> corr(
                *old(self),
                *final(self),
                *old(chunk),
                *final(chunk),
                sp_var(
                    crate::scan::btoks_view(old(self).tokens@),
                    old(self).cursor as int,
                    old(chunk).constants@.len() as int,
                ),
            ),
        decreases old(self).tokens@.len() - old(self).cursor, 3int,
    {
        let ghost ts = crate::scan::btoks_view(self.tokens@);
        let ghost c0 = self.cursor as int;
        let ghost base0 = chunk.constants@.len() as int;
        let ghost code0 = chunk.code@;
        let ghost k0 = stack_view(chunk.constants@);
        proof {
            assert(ts[c0].ttype == self.tokens@[c0].ttype);
            assert(ts[c0].lexeme == self.tokens@[c0].lexeme@);
        }
        if !self.check(TokenType::Identifier) {
            let at = self.cursor;
            self.error_at(at);
            return ;
        }
        self.advance();
        let name_at = self.previous;
        let name = self.tokens[name_at].lexeme.clone();
        proof {
            assert(ts[c0 + 1].ttype == self.tokens@[c0 + 1].ttype);
        }
        let ghost has_init = ts[c0 + 1].ttype == TokenType::Equal;
        let ghost inner = sp_expression(ts, c0 + 2, base0);
        let ghost init = if has_init {
            inner
        } else {
            CompR::COk { next: c0 + 1, code: seq![8u8], consts: Seq::<VmV>::empty() }
        };
        if self.match_token(TokenType::Equal) {
            self.expression(chunk);
            proof {
                lemma_sp_next(ts, c0 + 2, 1, base0);
            }
        } else {
            emit_simple(chunk, OpCode::Nil, self.tokens[self.previous].line);
        }
        proof {
            if bclean(ts) && init is COk {
                assert(chunk.code@ =~= code0 + init->COk_code);
                assert(stack_view(chunk.constants@) =~= k0 + init->COk_consts);
                assert(ts[init->COk_next].ttype == self.tokens@[init->COk_next].ttype);
            }
        }
        self.consume(TokenType::Semicolon);
        let ghost k_pre = stack_view(chunk.constants@);
        let arg = chunk.add_constant(Value::ConstString(name));
        proof {
            lemma_partial_mono(
                chunk.code@,
                chunk.constants@.len() as int - 1,
                chunk.constants@.len() as int,
            );
            assert(stack_view(chunk.constants@) =~= k_pre.push(VmV::CS(ts[c0].lexeme)));
        }
        if arg >= 256 {
            self.error_at(name_at);
            proof {
                if bclean(ts) {
                    assert(sp_var(ts, c0, base0) is CErr);
                }
            }
            return ;
        }
        emit_global_op(chunk, OpCode::DefineGlobal, arg as u8, self.tokens[self.previous].line);
        proof {
            if bclean(ts) {
                if init is COk && ts[init->COk_next].ttype == TokenType::Semicolon {
                    assert(sp_var(ts, c0, base0) == (CompR::COk {
                        next: init->COk_next + 1,
                        code: init->COk_code + seq![
                            17u8,
                            (base0 + init->COk_consts.len()) as u8,
                        ],
                        consts: init->COk_consts.push(VmV::CS(ts[c0].lexeme)),
                    }));
                    assert(chunk.code@ =~= code0 + (init->COk_code + seq![
                        17u8,
                        (base0 + init->COk_consts.len()) as u8,
                    ]));
                    assert(stack_view(chunk.constants@) =~= k0 + init->COk_consts.push(
                        VmV::CS(ts[c0].lexeme),
                    ));
                }
            }
        }
    }

    /// Parses one declaration, synchronizing after an error.
    fn declaration(&mut self, chunk: &mut Chunk)
        requires
            old(self).inv(),
            old(chunk).inv(),
            code_partial(old(chunk).code@, old(chunk).constants@.len() as int),
        ensures
            final(self).inv(),
            final(self).tokens@ == old(self).tokens@,
            final(self).cursor >= old(self).cursor,
            old(self).had_error ==> final(self).had_error,
            final(chunk).inv(),
            final(chunk).constants@.len() >= old(chunk).constants@.len(),
            code_partial(final(chunk).code@, final(chunk).constants@.len() as int),
            bclean(crate::scan::btoks_view(old(self).tokens@)) && !old(self).panic_mode ==> corr(
                *old(self),
                *final(self),
                *old(chunk),
                *final(chunk),
                sp_declaration(
                    crate::scan::btoks_view(old(self).tokens@),
                    old(self).cursor as int,
                    old(chunk).constants@.len() as int,
                ),
            ),
        decreases old(self).tokens@.len() - old(self).cursor, 4int,
    {
        let ghost ts = crate::scan::btoks_view(self.tokens@);
        let ghost c0 = self.cursor as int;
        proof {
            assert(ts[c0].ttype == self.tokens@[c0].ttype);
        }
        if self.match_token(TokenType::Var) {
            self.var_declaration(chunk);
        } else {
            self.statement(chunk);
        }
        if self.panic_mode {
            self.synchronize();
        }
    }
}

/// The compiler itself.
pub struct Compiler {}

impl Compiler {
    /// Compiles a source text into the chunk. The answer's flag is true
    /// exactly when no failure was recorded — the diagnostics name the line
    /// and text of each one. Either way the emitted stream is complete, and
    /// a clean compile leaves a runnable chunk, its stream closed by a
    /// return. On a cleanly scanned text the emitted bytes and pooled
    /// constants are exactly what `spec_compile` says of the token stream,
    /// and the flag is true exactly when that compile is clean.
    pub fn compile(source: &str, chunk: &mut Chunk) -> (r: (bool, Vec<(usize, String)>))
        requires
            source@.len() + 8 <= usize::MAX,
            old(chunk).inv(),
            old(chunk).code@.len() == 0,
            old(chunk).constants@.len() == 0,
        ensures
            final(chunk).inv(),
            final(chunk).code@.len() > 0,
            code_wf(final(chunk).code@, final(chunk).constants@.len() as int),
            r.0 <==> r.1@.len() == 0,
            ({
                let ts = spec_bscan(source@, 0, 1);
                bclean(ts) ==> (match spec_compile(ts) {
                    Some((code, consts)) => r.0 && final(chunk).code@ == code && stack_view(
                        final(chunk).constants@,
                    ) == consts,
                    None => !r.0,
                })
            }),
    {
        let tokens = scan_all(source);
        let mut parser = Parser {
            tokens,
            cursor: 0,
            previous: 0,
            had_error: false,
            panic_mode: false,
            diagnostics: Vec::new(),
        };
        let ghost ts = spec_bscan(source@, 0, 1);
        proof {
            assert(code_partial(chunk.code@, chunk.constants@.len() as int));
            assert(chunk.code@ =~= Seq::<u8>::empty());
            assert(stack_view(chunk.constants@) =~= Seq::<VmV>::empty());
            match sp_program(ts, 0, 0) {
                CompR::COk { next, code, consts } => {
                    assert(Seq::<u8>::empty() + code =~= code);
                    assert(Seq::<VmV>::empty() + consts =~= consts);
                },
                CompR::CErr => {},
            }
        }
        loop
            invariant_except_break
                parser.inv(),
                chunk.inv(),
                code_partial(chunk.code@, chunk.constants@.len() as int),
                ts == spec_bscan(source@, 0, 1),
                ts == crate::scan::btoks_view(parser.tokens@),
                bclean(ts) ==> (if !parser.had_error {
                    sp_program(ts, 0, 0) == sp_lift(
                        sp_program(
                            ts,
                            parser.cursor as int,
                            chunk.constants@.len() as int,
                        ),
                        chunk.code@,
                        stack_view(chunk.constants@),
                    ) && !parser.panic_mode
                } else {
                    sp_program(ts, 0, 0) is CErr
                }),
            ensures
                parser.inv(),
                chunk.inv(),
                code_partial(chunk.code@, chunk.constants@.len() as int),
                parser.tokens@[parser.cursor as int].ttype == TokenType::EoF,
                ts == crate::scan::btoks_view(parser.tokens@),
                bclean(ts) ==> (if !parser.had_error {
                    sp_program(ts, 0, 0) == sp_lift(
                        sp_program(
                            ts,
                            parser.cursor as int,
                            chunk.constants@.len() as int,
                        ),
                        chunk.code@,
                        stack_view(chunk.constants@),
                    ) && !parser.panic_mode
                } else {
                    sp_program(ts, 0, 0) is CErr
                }),
            decreases parser.tokens@.len() - parser.cursor,
        {
            proof {
                assert(ts[parser.cursor as int].ttype
                    == parser.tokens@[parser.cursor as int].ttype);
            }
            if matches!(parser.tokens[parser.cursor].ttype, TokenType::EoF) {
                break ;
            }
            let c0 = parser.cursor;
            let ghost base_here = chunk.constants@.len() as int;
            let ghost code_here = chunk.code@;
            let ghost k_here = stack_view(chunk.constants@);
            let ghost had_here = parser.had_error;
            let ghost md = sp_declaration(ts, c0 as int, base_here);
            parser.declaration(chunk);
            proof {
                if bclean(ts) && !had_here {
                    lemma_sp_decl_next(ts, c0 as int, base_here);
                    match md {
                        CompR::COk { next, code: dcode, consts: dconsts } => {
                            assert(chunk.code@ =~= code_here + dcode);
                            assert(stack_view(chunk.constants@) =~= k_here + dconsts);
                            match sp_program(
                                ts,
                                parser.cursor as int,
                                chunk.constants@.len() as int,
                            ) {
                                CompR::COk { next: n2, code: code2, consts: consts2 } => {
                                    assert(code_here + (dcode + code2) =~= chunk.code@
                                        + code2);
                                    assert(k_here + (dconsts + consts2) =~= stack_view(
                                        chunk.constants@,
                                    ) + consts2);
                                },
                                CompR::CErr => {},
                            }
                        },
                        CompR::CErr => {},
                    }
                }
            }
            if parser.cursor == c0 {
                // a declaration that could not take a single token cannot
                // make progress; take one and report it
                let at = parser.cursor;
                parser.error_at(at);
                parser.advance();
            }
        }
        let line = parser.tokens[parser.previous].line;
        let ghost pre = chunk.code@;
        chunk.write(OpCode::Return.byte(), line);
        proof {
            assert(chunk.code@ =~= pre.push(0u8));
            law_partial_close(pre, chunk.constants@.len() as int);
            if bclean(ts) && !parser.had_error {
                assert(sp_program(ts, parser.cursor as int, chunk.constants@.len() as int)
                    == (CompR::COk {
                    next: parser.cursor as int,
                    code: Seq::<u8>::empty(),
                    consts: Seq::<VmV>::empty(),
                }));
                assert(pre + Seq::<u8>::empty() =~= pre);
                assert(stack_view(chunk.constants@) + Seq::<VmV>::empty() =~= stack_view(
                    chunk.constants@,
                ));
            }
        }
        (!parser.had_error, parser.diagnostics)
    }
}

} // verus!
