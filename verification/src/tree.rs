//! The tree-walking path, end to end: scan, parse, resolve, evaluate. The
//! caller hands in the source text and takes back the printed lines and the
//! last value; failures come back as the stage that found them.
use vstd::prelude::*;
use crate::ast::Stmt;
use crate::interpreter::{err_view, spec_interpret, Interpreter, InterpR, StM};
use crate::location::SourceLocation;
use crate::parser::{program_rep, tokens_wf, Parser};
use crate::resolver::{res_errs_view, spec_initial_state, spec_resolve_program, Resolver};
use crate::scanner::{spec_scan, Scanner};
use crate::token::{tokens_view, Literal, TokenItem};

verus! {

/// A failure of the whole run, tagged by the stage that found it.
#[derive(Debug)]
pub enum Error {
    Scanner(Vec<crate::scanner::Error>),
    Parser(Vec<crate::parser::Error>),
    Resolver(Vec<crate::resolver::Error>),
    Runtime(crate::interpreter::Error),
}

/// A marker used to pick the run's intermediate values together.
pub open spec fn stages(toks: Seq<TokenItem>, stmts: Seq<Stmt>) -> bool {
    true
}

/// The frame the evaluator starts from: one empty global frame.
pub open spec fn spec_global_env() -> Seq<crate::environment::FrameM> {
    seq![crate::environment::FrameM { parent: None, vals: Map::empty() }]
}

pub struct Lox {}

impl Lox {
    /// Runs a source text through the whole tree-walking path, appending
    /// every printed line to `out`. Scanning errors come back exactly as the
    /// scan finds them; with a clean scan, a token list standing for the
    /// scan's tokens is parsed, succeeding exactly where the parser's walk
    /// says it does, and on a parse the statements are resolved and
    /// evaluated exactly as the stage specifications say.
    pub fn run(source: &str, out: &mut Vec<String>) -> (r: Result<Option<Literal>, Error>)
        requires
            source@.len() + 8 <= usize::MAX,
        ensures
            ({
                let sc = spec_scan(source@, 0, SourceLocation { line: 1, pos: 0 });
                match r {
                    Err(Error::Scanner(es)) => sc.errs.len() > 0 && es@ == sc.errs && *final(out)
                        == *old(out),
                    Err(Error::Parser(es)) => sc.errs.len() == 0 && es@.len() > 0 && *final(out)
                        == *old(out) && (exists|toks: Seq<TokenItem>|
                        #[trigger] tokens_view(toks) == sc.toks && tokens_wf(toks)
                            && !crate::parser::tp_program(toks, 0)),
                    _ => sc.errs.len() == 0 && exists|toks: Seq<TokenItem>, stmts: Seq<Stmt>|
                        #[trigger] stages(toks, stmts) && tokens_view(toks) == sc.toks
                            && tokens_wf(toks) && program_rep(toks, stmts)
                            && crate::parser::tp_program(toks, 0) && ({
                            let (st2, rerrs) = spec_resolve_program(stmts, spec_initial_state());
                            match r {
                                Err(Error::Resolver(es)) => rerrs.len() > 0 && res_errs_view(es@)
                                    == rerrs && *final(out) == *old(out),
                                Err(Error::Runtime(e)) => rerrs.len() == 0 && (match spec_interpret(
                                    stmts,
                                    StM { env: spec_global_env(), out: old(out).deep_view() },
                                    st2.locals,
                                    None,
                                    u64::MAX as nat,
                                ) {
                                    InterpR::IErr(em, stx) => err_view(e) == em
                                        && final(out).deep_view() == stx.out,
                                    _ => false,
                                }),
                                Ok(v) => rerrs.len() == 0 && (match spec_interpret(
                                    stmts,
                                    StM { env: spec_global_env(), out: old(out).deep_view() },
                                    st2.locals,
                                    None,
                                    u64::MAX as nat,
                                ) {
                                    InterpR::IOk(val, stx) => crate::interpreter::opt_val_view(v)
                                        == val && final(out).deep_view() == stx.out,
                                    _ => false,
                                }),
                                _ => false,
                            }
                        }),
                }
            }),
    {
        let scanned = Scanner::new().scan(source);
        let tokens = match scanned {
            Ok(t) => t,
            Err(errs) => {
                return Err(Error::Scanner(errs));
            },
        };
        proof {
            let sc = spec_scan(source@, 0, SourceLocation { line: 1, pos: 0 });
            assert forall|j: int| 0 <= j < tokens@.len() implies (#[trigger] tokens@[j]).ttype
                == sc.toks[j].ttype by {
                assert(tokens_view(tokens@)[j] == crate::token::token_view(tokens@[j]));
            }
            assert(tokens_wf(tokens@));
        }
        let ghost gtokens = tokens@;
        let parsed = Parser::new().parse(tokens);
        let stmts = match parsed {
            Ok(s) => s,
            Err(errs) => {
                proof {
                    assert(tokens_view(gtokens) == spec_scan(
                        source@,
                        0,
                        SourceLocation { line: 1, pos: 0 },
                    ).toks);
                }
                return Err(Error::Parser(errs));
            },
        };
        let ghost gstmts = stmts@;
        proof {
            assert(stages(gtokens, gstmts));
        }
        let resolver = Resolver::new();
        let (locals, rerrs) = resolver.resolve(&stmts);
        if rerrs.len() > 0 {
            return Err(Error::Resolver(rerrs));
        }
        let mut interp = Interpreter::new_with_locals(locals);
        proof {
            assert(interp.env@ =~= spec_global_env());
        }
        let res = interp.interpret(&stmts, out);
        match res {
            Ok(v) => Ok(v),
            Err(e) => Err(Error::Runtime(e)),
        }
    }
}

} // verus!
