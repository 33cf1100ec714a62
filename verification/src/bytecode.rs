//! The bytecode path, end to end: compile a source text into a chunk, then
//! run it on the machine. A machine keeps its globals between runs, so a
//! prompt keeps its state.
use vstd::prelude::*;
use crate::chunk::{code_wf, Chunk};
use crate::compiler::{bclean, spec_compile, Compiler};
use crate::scan::spec_bscan;
use crate::value::VmV;
use crate::vm::{spec_vm, stack_view, vm_err_view, VmR, VmSt, VM};

verus! {

/// A failure of the whole run: the compile reported (with its diagnostics),
/// the machine stopped, or the surrounding program's reading failed.
#[derive(Debug)]
pub enum Error {
    Compiler(Vec<(usize, String)>),
    Runtime(crate::vm::Error),
    Io,
}

/// A marker used to pick the per-byte line record together; the record only
/// feeds the line numbers inside failure values.
pub open spec fn lines_of(lines: Seq<usize>) -> bool {
    true
}

impl VM {
    /// Compiles and runs one source text, keeping this machine's globals,
    /// appending every printed line to `out`. On a cleanly scanned text the
    /// compile yields exactly `spec_compile` of the token stream — failing
    /// if and only if that compile fails — and the machine then behaves
    /// exactly as `spec_vm` says on those bytes and constants; only the
    /// line numbers inside failure values are left to the line record.
    pub fn interpret(&mut self, source: &str, out: &mut Vec<String>) -> (r: Result<(), Error>)
        requires
            old(self).globals.inv(),
            source@.len() + 8 <= usize::MAX,
        ensures
            final(self).globals.inv(),
            r matches Err(Error::Compiler(_)) ==> *final(out) == *old(out) && final(self).globals
                == old(self).globals,
            !(r matches Err(Error::Io)),
            ({
                let ts = spec_bscan(source@, 0, 1);
                bclean(ts) ==> (match spec_compile(ts) {
                    None => r matches Err(Error::Compiler(_)),
                    Some((code, consts)) => exists|lines: Seq<usize>|
                        #[trigger] lines_of(lines) && lines.len() == code.len() && ({
                            let r0 = spec_vm(
                                code,
                                consts,
                                lines,
                                VmSt {
                                    stack: Seq::empty(),
                                    globals: old(self).globals@,
                                    out: old(out).deep_view(),
                                },
                                0,
                            );
                            match r {
                                Ok(_) => r0 is VDone && final(self).globals@
                                    == r0->VDone_0.globals && final(out).deep_view()
                                    == r0->VDone_0.out,
                                Err(Error::Runtime(e)) => r0 is VFail && vm_err_view(e)
                                    == r0->VFail_0 && final(self).globals@
                                    == r0->VFail_1.globals && final(out).deep_view()
                                    == r0->VFail_1.out,
                                _ => false,
                            }
                        }),
                })
            }),
    {
        let mut chunk = Chunk::new();
        let (ok, diagnostics) = Compiler::compile(source, &mut chunk);
        if !ok {
            return Err(Error::Compiler(diagnostics));
        }
        proof {
            assert(lines_of(chunk.lines@));
            assert(chunk.code@.subrange(0, chunk.code@.len() as int) =~= chunk.code@);
        }
        let res = self.run(&chunk, out);
        match res {
            Ok(_) => Ok(()),
            Err(e) => Err(Error::Runtime(e)),
        }
    }
}

pub struct Lox {}

impl Lox {
    /// Compiles and runs one source text in a fresh machine, appending every
    /// printed line to `out`: the same promise as `VM::interpret`, from
    /// empty globals.
    pub fn run(source: &str, out: &mut Vec<String>) -> (r: Result<(), Error>)
        requires
            source@.len() + 8 <= usize::MAX,
        ensures
            r matches Err(Error::Compiler(_)) ==> *final(out) == *old(out),
            !(r matches Err(Error::Io)),
            ({
                let ts = spec_bscan(source@, 0, 1);
                bclean(ts) ==> (match spec_compile(ts) {
                    None => r matches Err(Error::Compiler(_)),
                    Some((code, consts)) => exists|lines: Seq<usize>|
                        #[trigger] lines_of(lines) && lines.len() == code.len() && ({
                            let r0 = spec_vm(
                                code,
                                consts,
                                lines,
                                VmSt {
                                    stack: Seq::empty(),
                                    globals: Map::empty(),
                                    out: old(out).deep_view(),
                                },
                                0,
                            );
                            match r {
                                Ok(_) => r0 is VDone && final(out).deep_view()
                                    == r0->VDone_0.out,
                                Err(Error::Runtime(e)) => r0 is VFail && vm_err_view(e)
                                    == r0->VFail_0 && final(out).deep_view()
                                    == r0->VFail_1.out,
                                _ => false,
                            }
                        }),
                })
            }),
    {
        let mut vm = VM::new();
        vm.interpret(source, out)
    }
}

} // verus!
