//! The stack virtual machine: reads a chunk's bytes one instruction at a
//! time, keeps a value stack and the global bindings, and collects what
//! `Print` writes. With no jump operations the instruction pointer only
//! moves right, so every run ends at a `Return` or a failure.
use vstd::prelude::*;
use vstd::string::{StrSliceExecFns, StringExecFns};
use crate::chunk::{code_wf, Chunk};
use crate::number::{f64_add, f64_cmp, f64_div, f64_mul, f64_sub, spec_negated, NumCmp};
use crate::value::{
    spec_vm_display, spec_vm_eq, spec_vm_truthy, vm_chars, vm_is_str, vm_view, Value, VmV,
};

verus! {

broadcast use vstd::std_specs::vec::group_vec_axioms, vstd::seq::group_seq_axioms;

/// A failure while running a chunk, with the source line of the failing
/// instruction.
#[derive(Debug)]
pub enum Error {
    OperandsMustBeNumbers { line: usize },
    OperandMustBeNumber { line: usize },
    UndefinedGlobal { name: String, line: usize },
    BadGlobalName { line: usize },
    StackUnderflow { line: usize },
    UnknownOpcode { line: usize },
}

/// The mathematical picture of a failure.
pub enum VmErrM {
    OperandsMustBeNumbers { line: usize },
    OperandMustBeNumber { line: usize },
    UndefinedGlobal { name: Seq<char>, line: usize },
    BadGlobalName { line: usize },
    StackUnderflow { line: usize },
    UnknownOpcode { line: usize },
}

/// What a failure stands for.
pub open spec fn vm_err_view(e: Error) -> VmErrM {
    match e {
        Error::OperandsMustBeNumbers { line } => VmErrM::OperandsMustBeNumbers { line },
        Error::OperandMustBeNumber { line } => VmErrM::OperandMustBeNumber { line },
        Error::UndefinedGlobal { name, line } => VmErrM::UndefinedGlobal { name: name@, line },
        Error::BadGlobalName { line } => VmErrM::BadGlobalName { line },
        Error::StackUnderflow { line } => VmErrM::StackUnderflow { line },
        Error::UnknownOpcode { line } => VmErrM::UnknownOpcode { line },
    }
}

/// The one-line text a machine failure prints as.
pub open spec fn spec_vm_message(e: VmErrM) -> Seq<char> {
    spec_vm_what(e) + " [line "@ + crate::number::spec_dec_digits(spec_vm_err_line(e) as nat)
        + "] in script"@
}

/// The wording of each failure kind.
pub open spec fn spec_vm_what(e: VmErrM) -> Seq<char> {
    match e {
        VmErrM::OperandsMustBeNumbers { .. } => "OperandsMustBeNumbers"@,
        VmErrM::OperandMustBeNumber { .. } => "OperandMustBeNumber"@,
        VmErrM::UndefinedGlobal { .. } => "UndefinedGlobal"@,
        VmErrM::BadGlobalName { .. } => "BadGlobalName"@,
        VmErrM::StackUnderflow { .. } => "StackUnderflow"@,
        VmErrM::UnknownOpcode { .. } => "UnknownOpcode"@,
    }
}

/// The source line a failure names.
pub open spec fn spec_vm_err_line(e: VmErrM) -> usize {
    match e {
        VmErrM::OperandsMustBeNumbers { line } => line,
        VmErrM::OperandMustBeNumber { line } => line,
        VmErrM::UndefinedGlobal { line, .. } => line,
        VmErrM::BadGlobalName { line } => line,
        VmErrM::StackUnderflow { line } => line,
        VmErrM::UnknownOpcode { line } => line,
    }
}

impl Error {
    /// The source line the failure names.
    pub fn line(&self) -> (r: usize)
        ensures
            r == spec_vm_err_line(vm_err_view(*self)),
    {
        match self {
            Error::OperandsMustBeNumbers { line } => *line,
            Error::OperandMustBeNumber { line } => *line,
            Error::UndefinedGlobal { line, .. } => *line,
            Error::BadGlobalName { line } => *line,
            Error::StackUnderflow { line } => *line,
            Error::UnknownOpcode { line } => *line,
        }
    }

    /// The failure as the one line the language reports: the kind, then
    /// `[line N] in script`.
    pub fn message(&self) -> (r: String)
        ensures
            r@ == spec_vm_message(vm_err_view(*self)),
    {
        let what = match self {
            Error::OperandsMustBeNumbers { .. } => <String as vstd::string::StringExecFns>::from_str(
                "OperandsMustBeNumbers",
            ),
            Error::OperandMustBeNumber { .. } => <String as vstd::string::StringExecFns>::from_str(
                "OperandMustBeNumber",
            ),
            Error::UndefinedGlobal { .. } => <String as vstd::string::StringExecFns>::from_str(
                "UndefinedGlobal",
            ),
            Error::BadGlobalName { .. } => <String as vstd::string::StringExecFns>::from_str(
                "BadGlobalName",
            ),
            Error::StackUnderflow { .. } => <String as vstd::string::StringExecFns>::from_str(
                "StackUnderflow",
            ),
            Error::UnknownOpcode { .. } => <String as vstd::string::StringExecFns>::from_str(
                "UnknownOpcode",
            ),
        };
        let digits = crate::number::dec_digits(self.line() as u64);
        let r = what.concat(" [line ").concat(digits.as_str()).concat("] in script");
        proof {
            assert(r@ =~= spec_vm_message(vm_err_view(*self)));
        }
        r
    }
}

/// The machine's state: the value stack (top last), the global bindings,
/// and the lines printed so far.
pub struct VmSt {
    pub stack: Seq<VmV>,
    pub globals: Map<Seq<char>, VmV>,
    pub out: Seq<Seq<char>>,
}

/// What one run produces.
pub enum VmR {
    VDone(VmSt),
    VFail(VmErrM, VmSt),
}

/// What a stack of values stands for.
pub open spec fn stack_view(vs: Seq<Value>) -> Seq<VmV> {
    vs.map_values(|v: Value| vm_view(v))
}

/// The name a pooled value can bind a global under: its characters, if it is
/// text of either kind.
pub open spec fn spec_name_of(v: VmV) -> Option<Seq<char>> {
    if vm_is_str(v) {
        Some(vm_chars(v))
    } else {
        None
    }
}

/// One whole run from byte `ip`: exactly what each opcode does to the
/// state, per the machine's instruction table.
pub open spec fn spec_vm(code: Seq<u8>, consts: Seq<VmV>, lines: Seq<usize>, st: VmSt, ip: int) -> VmR
    decreases code.len() - ip,
        when 0 <= ip < code.len() && code_wf(code.subrange(ip, code.len() as int), consts.len() as int)
            && lines.len() == code.len()
{
    let op = code[ip];
    let line = lines[ip];
    if op == 0 {
        VmR::VDone(st)
    } else if op == 1 {
        // Constant
        let v = consts[code[ip + 1] as int];
        proof {
            lemma_wf_step(code, consts.len() as int, ip, 2);
        }
        spec_vm(
            code,
            consts,
            lines,
            VmSt { stack: st.stack.push(v), globals: st.globals, out: st.out },
            ip + 2,
        )
    } else if op == 2 {
        // ConstantLong
        let v = consts[code[ip + 1] * 256 + code[ip + 2]];
        proof {
            lemma_wf_step(code, consts.len() as int, ip, 3);
        }
        spec_vm(
            code,
            consts,
            lines,
            VmSt { stack: st.stack.push(v), globals: st.globals, out: st.out },
            ip + 3,
        )
    } else if op == 17 {
        // DefineGlobal
        let nv = consts[code[ip + 1] as int];
        proof {
            lemma_wf_step(code, consts.len() as int, ip, 2);
        }
        match spec_name_of(nv) {
            Some(name) => if st.stack.len() == 0 {
                VmR::VFail(VmErrM::StackUnderflow { line }, st)
            } else {
                spec_vm(
                    code,
                    consts,
                    lines,
                    VmSt {
                        stack: st.stack.drop_last(),
                        globals: st.globals.insert(name, st.stack.last()),
                        out: st.out,
                    },
                    ip + 2,
                )
            },
            None => VmR::VFail(VmErrM::BadGlobalName { line }, st),
        }
    } else if op == 18 {
        // GetGlobal
        let nv = consts[code[ip + 1] as int];
        proof {
            lemma_wf_step(code, consts.len() as int, ip, 2);
        }
        match spec_name_of(nv) {
            Some(name) => if st.globals.contains_key(name) {
                spec_vm(
                    code,
                    consts,
                    lines,
                    VmSt {
                        stack: st.stack.push(st.globals[name]),
                        globals: st.globals,
                        out: st.out,
                    },
                    ip + 2,
                )
            } else {
                VmR::VFail(VmErrM::UndefinedGlobal { name, line }, st)
            },
            None => VmR::VFail(VmErrM::BadGlobalName { line }, st),
        }
    } else if op == 19 {
        // SetGlobal: requires a prior define; the value stays on the stack
        let nv = consts[code[ip + 1] as int];
        proof {
            lemma_wf_step(code, consts.len() as int, ip, 2);
        }
        match spec_name_of(nv) {
            Some(name) => if !st.globals.contains_key(name) {
                VmR::VFail(VmErrM::UndefinedGlobal { name, line }, st)
            } else if st.stack.len() == 0 {
                VmR::VFail(VmErrM::StackUnderflow { line }, st)
            } else {
                spec_vm(
                    code,
                    consts,
                    lines,
                    VmSt {
                        stack: st.stack,
                        globals: st.globals.insert(name, st.stack.last()),
                        out: st.out,
                    },
                    ip + 2,
                )
            },
            None => VmR::VFail(VmErrM::BadGlobalName { line }, st),
        }
    } else if op > 19 {
        VmR::VFail(VmErrM::UnknownOpcode { line }, st)
    } else {
        // the one-byte operations
        proof {
            lemma_wf_step(code, consts.len() as int, ip, 1);
        }
        let next = ip + 1;
        if op == 8 {
            spec_vm(
                code,
                consts,
                lines,
                VmSt { stack: st.stack.push(VmV::Nil), globals: st.globals, out: st.out },
                next,
            )
        } else if op == 9 {
            spec_vm(
                code,
                consts,
                lines,
                VmSt { stack: st.stack.push(VmV::B(true)), globals: st.globals, out: st.out },
                next,
            )
        } else if op == 10 {
            spec_vm(
                code,
                consts,
                lines,
                VmSt { stack: st.stack.push(VmV::B(false)), globals: st.globals, out: st.out },
                next,
            )
        } else if op == 3 {
            // Negate
            if st.stack.len() == 0 {
                VmR::VFail(VmErrM::StackUnderflow { line }, st)
            } else {
                match st.stack.last() {
                    VmV::N(b) => spec_vm(
                        code,
                        consts,
                        lines,
                        VmSt {
                            stack: st.stack.drop_last().push(VmV::N(spec_negated(b))),
                            globals: st.globals,
                            out: st.out,
                        },
                        next,
                    ),
                    _ => VmR::VFail(VmErrM::OperandMustBeNumber { line }, st),
                }
            }
        } else if op == 11 {
            // Not
            if st.stack.len() == 0 {
                VmR::VFail(VmErrM::StackUnderflow { line }, st)
            } else {
                spec_vm(
                    code,
                    consts,
                    lines,
                    VmSt {
                        stack: st.stack.drop_last().push(
                            VmV::B(!spec_vm_truthy(st.stack.last())),
                        ),
                        globals: st.globals,
                        out: st.out,
                    },
                    next,
                )
            }
        } else if op == 12 {
            // Equal
            if st.stack.len() < 2 {
                VmR::VFail(VmErrM::StackUnderflow { line }, st)
            } else {
                let b = st.stack.last();
                let a = st.stack.drop_last().last();
                spec_vm(
                    code,
                    consts,
                    lines,
                    VmSt {
                        stack: st.stack.drop_last().drop_last().push(
                            VmV::B(spec_vm_eq(a, b)),
                        ),
                        globals: st.globals,
                        out: st.out,
                    },
                    next,
                )
            }
        } else if op == 15 {
            // Print
            if st.stack.len() == 0 {
                VmR::VFail(VmErrM::StackUnderflow { line }, st)
            } else {
                spec_vm(
                    code,
                    consts,
                    lines,
                    VmSt {
                        stack: st.stack.drop_last(),
                        globals: st.globals,
                        out: st.out.push(spec_vm_display(st.stack.last())),
                    },
                    next,
                )
            }
        } else if op == 16 {
            // Pop
            if st.stack.len() == 0 {
                VmR::VFail(VmErrM::StackUnderflow { line }, st)
            } else {
                spec_vm(
                    code,
                    consts,
                    lines,
                    VmSt { stack: st.stack.drop_last(), globals: st.globals, out: st.out },
                    next,
                )
            }
        } else {
            // the arithmetic and comparison operations
            if st.stack.len() < 2 {
                VmR::VFail(VmErrM::StackUnderflow { line }, st)
            } else {
                let b = st.stack.last();
                let a = st.stack.drop_last().last();
                let rest = st.stack.drop_last().drop_last();
                if op == 4 {
                    // Add: numbers add; with text on either side, both print
                    // as text and join
                    match (a, b) {
                        (VmV::N(x), VmV::N(y)) => spec_vm(
                            code,
                            consts,
                            lines,
                            VmSt {
                                stack: rest.push(VmV::N(f64_add(x, y))),
                                globals: st.globals,
                                out: st.out,
                            },
                            next,
                        ),
                        _ => if vm_is_str(a) || vm_is_str(b) {
                            spec_vm(
                                code,
                                consts,
                                lines,
                                VmSt {
                                    stack: rest.push(
                                        VmV::S(spec_vm_display(a) + spec_vm_display(b)),
                                    ),
                                    globals: st.globals,
                                    out: st.out,
                                },
                                next,
                            )
                        } else {
                            VmR::VFail(VmErrM::OperandsMustBeNumbers { line }, st)
                        },
                    }
                } else {
                    match (a, b) {
                        (VmV::N(x), VmV::N(y)) => {
                            let pushed = if op == 5 {
                                Some(VmV::N(f64_sub(x, y)))
                            } else if op == 6 {
                                Some(VmV::N(f64_mul(x, y)))
                            } else if op == 7 {
                                Some(VmV::N(f64_div(x, y)))
                            } else if op == 13 {
                                Some(VmV::B(f64_cmp(x, y) == NumCmp::Greater))
                            } else if op == 14 {
                                Some(VmV::B(f64_cmp(x, y) == NumCmp::Less))
                            } else {
                                None
                            };
                            match pushed {
                                Some(v) => spec_vm(
                                    code,
                                    consts,
                                    lines,
                                    VmSt {
                                        stack: rest.push(v),
                                        globals: st.globals,
                                        out: st.out,
                                    },
                                    next,
                                ),
                                None => VmR::VFail(VmErrM::UnknownOpcode { line }, st),
                            }
                        },
                        _ => VmR::VFail(VmErrM::OperandsMustBeNumbers { line }, st),
                    }
                }
            }
        }
    }
}

/// Stepping over one whole instruction keeps the remaining stream runnable.
pub proof fn lemma_wf_step(code: Seq<u8>, nconst: int, ip: int, size: int)
    requires
        0 <= ip < code.len(),
        code_wf(code.subrange(ip, code.len() as int), nconst),
        size == (if code[ip] == 2 {
            3int
        } else if code[ip] == 1 || code[ip] == 17 || code[ip] == 18 || code[ip] == 19 {
            2int
        } else {
            1int
        }),
        code[ip] != 0,
        code[ip] <= 19,
    ensures
        ip + size < code.len(),
        code_wf(code.subrange(ip + size, code.len() as int), nconst),
{
    let suffix = code.subrange(ip, code.len() as int);
    assert(suffix.subrange(size, suffix.len() as int) =~= code.subrange(
        ip + size,
        code.len() as int,
    ));
}


/// The global bindings: each name once, with its current value.
pub struct Globals {
    pub entries: Vec<(String, Value)>,
}

/// The map the bindings stand for; a later entry for a name wins.
pub open spec fn globals_map(es: Seq<(String, Value)>) -> Map<Seq<char>, VmV>
    decreases es.len(),
{
    if es.len() == 0 {
        Map::empty()
    } else {
        globals_map(es.drop_last()).insert(es.last().0@, vm_view(es.last().1))
    }
}

/// Whether the bindings hold each name at most once.
pub open spec fn globals_unique(es: Seq<(String, Value)>) -> bool {
    forall|i: int, j: int| 0 <= i < j < es.len() ==> es[i].0@ != es[j].0@
}

proof fn lemma_globals_contains(es: Seq<(String, Value)>, name: Seq<char>)
    ensures
        globals_map(es).contains_key(name) <==> exists|i: int|
            0 <= i < es.len() && es[i].0@ == name,
    decreases es.len(),
{
    if es.len() > 0 {
        lemma_globals_contains(es.drop_last(), name);
        if globals_map(es).contains_key(name) {
            if es.last().0@ != name {
                let i = choose|i: int| 0 <= i < es.drop_last().len() && es.drop_last()[i].0@ == name;
                assert(es[i].0@ == name);
            }
        }
        if exists|i: int| 0 <= i < es.len() && es[i].0@ == name {
            let i = choose|i: int| 0 <= i < es.len() && es[i].0@ == name;
            if i < es.len() - 1 {
                assert(es.drop_last()[i].0@ == name);
            }
        }
    }
}

proof fn lemma_globals_at(es: Seq<(String, Value)>, i: int)
    requires
        globals_unique(es),
        0 <= i < es.len(),
    ensures
        globals_map(es).contains_key(es[i].0@),
        globals_map(es)[es[i].0@] == vm_view(es[i].1),
    decreases es.len(),
{
    if i == es.len() - 1 {
        lemma_globals_contains(es, es[i].0@);
    } else {
        assert(globals_unique(es.drop_last())) by {
            assert(forall|a: int, b: int|
                0 <= a < b < es.drop_last().len() ==> es.drop_last()[a].0@ != es.drop_last()[b].0@);
        }
        assert(es.drop_last()[i] == es[i]);
        lemma_globals_at(es.drop_last(), i);
        assert(es[i].0@ != es.last().0@);
    }
}

proof fn lemma_globals_update(es: Seq<(String, Value)>, i: int, v: Value)
    requires
        globals_unique(es),
        0 <= i < es.len(),
    ensures
        globals_map(es.update(i, (es[i].0, v))) == globals_map(es).insert(es[i].0@, vm_view(v)),
    decreases es.len(),
{
    let es2 = es.update(i, (es[i].0, v));
    if i == es.len() - 1 {
        assert(es2.drop_last() =~= es.drop_last());
        assert(globals_map(es2) =~= globals_map(es).insert(es[i].0@, vm_view(v)));
    } else {
        assert(globals_unique(es.drop_last())) by {
            assert(forall|a: int, b: int|
                0 <= a < b < es.drop_last().len() ==> es.drop_last()[a].0@ != es.drop_last()[b].0@);
        }
        assert(es2.drop_last() =~= es.drop_last().update(i, (es[i].0, v)));
        assert(es.drop_last()[i] == es[i]);
        lemma_globals_update(es.drop_last(), i, v);
        assert(es2.last() == es.last());
        assert(es[i].0@ != es.last().0@);
        assert(globals_map(es2) =~= globals_map(es).insert(es[i].0@, vm_view(v)));
    }
}

impl Globals {
    /// What the bindings stand for.
    pub open spec fn view(&self) -> Map<Seq<char>, VmV> {
        globals_map(self.entries@)
    }

    pub open spec fn inv(&self) -> bool {
        globals_unique(self.entries@)
    }

    fn find(&self, name: &str) -> (r: Option<usize>)
        requires
            self.inv(),
        ensures
            match r {
                Some(i) => i < self.entries@.len() && self.entries@[i as int].0@ == name@
                    && self@.contains_key(name@) && self@[name@] == vm_view(
                    self.entries@[i as int].1,
                ),
                None => !self@.contains_key(name@),
            },
    {
        let mut i: usize = 0;
        while i < self.entries.len()
            invariant
                self.inv(),
                i <= self.entries@.len(),
                forall|j: int| 0 <= j < i ==> self.entries@[j].0@ != name@,
            decreases self.entries@.len() - i,
        {
            if crate::text::str_eq(self.entries[i].0.as_str(), name) {
                proof {
                    lemma_globals_at(self.entries@, i as int);
                }
                return Some(i);
            }
            i = i + 1;
        }
        proof {
            lemma_globals_contains(self.entries@, name@);
        }
        None
    }

    /// Binds a name, replacing any existing binding.
    fn set(&mut self, name: &str, value: Value)
        requires
            old(self).inv(),
        ensures
            final(self).inv(),
            final(self)@ == old(self)@.insert(name@, vm_view(value)),
    {
        let found = self.find(name);
        let ghost es = self.entries@;
        match found {
            Some(i) => {
                let entry_name = self.entries[i].0.clone();
                self.entries.set(i, (entry_name, value));
                proof {
                    let es2 = self.entries@;
                    assert(es2 =~= es.update(i as int, (es[i as int].0, es2[i as int].1)));
                    lemma_globals_update(es, i as int, es2[i as int].1);
                }
            },
            None => {
                let owned = <String as vstd::string::StringExecFns>::from_str(name);
                self.entries.push((owned, value));
                proof {
                    let es2 = self.entries@;
                    assert(es2.drop_last() =~= es);
                    lemma_globals_contains(es, name@);
                    assert(globals_unique(es2));
                }
            },
        }
    }

    /// Reads a binding.
    fn get(&self, name: &str) -> (r: Option<Value>)
        requires
            self.inv(),
        ensures
            match r {
                Some(v) => self@.contains_key(name@) && self@[name@] == vm_view(v),
                None => !self@.contains_key(name@),
            },
    {
        match self.find(name) {
            Some(i) => Some(self.entries[i].1.dup()),
            None => None,
        }
    }
}

/// The machine: its global bindings persist across runs, as a prompt needs.
pub struct VM {
    pub globals: Globals,
}

impl VM {
    pub fn new() -> (r: Self)
        ensures
            r.globals.inv(),
            r.globals@ =~= Map::<Seq<char>, VmV>::empty(),
    {
        let r = VM { globals: Globals { entries: Vec::new() } };
        proof {
            assert(r.globals@ =~= globals_map(Seq::empty()));
        }
        r
    }

    /// Runs one chunk, appending every printed line to `out`: exactly the
    /// run `spec_vm` describes from its first byte.
    pub fn run(&mut self, chunk: &Chunk, out: &mut Vec<String>) -> (r: Result<(), Error>)
        requires
            old(self).globals.inv(),
            chunk.inv(),
            chunk.code@.len() > 0,
            code_wf(chunk.code@.subrange(0, chunk.code@.len() as int), chunk.constants@.len() as int),
        ensures
            final(self).globals.inv(),
            ({
                let r0 = spec_vm(
                    chunk.code@,
                    stack_view(chunk.constants@),
                    chunk.lines@,
                    VmSt {
                        stack: Seq::empty(),
                        globals: old(self).globals@,
                        out: old(out).deep_view(),
                    },
                    0,
                );
                match r {
                    Ok(_) => r0 is VDone && final(self).globals@ == r0->VDone_0.globals
                        && final(out).deep_view() == r0->VDone_0.out,
                    Err(e) => r0 is VFail && vm_err_view(e) == r0->VFail_0
                        && final(self).globals@ == r0->VFail_1.globals
                        && final(out).deep_view() == r0->VFail_1.out,
                }
            }),
    {
        let mut stack: Vec<Value> = Vec::new();
        let mut ip: usize = 0;
        let n = chunk.code.len();
        let ghost consts = stack_view(chunk.constants@);
        let ghost st0 = VmSt {
            stack: Seq::empty(),
            globals: old(self).globals@,
            out: old(out).deep_view(),
        };
        proof {
            assert(stack_view(stack@) =~= Seq::<VmV>::empty());
        }
        loop
            invariant
                self.globals.inv(),
                chunk.inv(),
                n == chunk.code@.len(),
                ip < n,
                code_wf(chunk.code@.subrange(ip as int, n as int), consts.len() as int),
                consts == stack_view(chunk.constants@),
                st0 == (VmSt {
                    stack: Seq::<VmV>::empty(),
                    globals: old(self).globals@,
                    out: old(out).deep_view(),
                }),
                spec_vm(chunk.code@, consts, chunk.lines@, st0, 0) == spec_vm(
                    chunk.code@,
                    consts,
                    chunk.lines@,
                    VmSt {
                        stack: stack_view(stack@),
                        globals: self.globals@,
                        out: out.deep_view(),
                    },
                    ip as int,
                ),
            decreases n - ip,
        {
            let ghost st_here = VmSt {
                stack: stack_view(stack@),
                globals: self.globals@,
                out: out.deep_view(),
            };
            let op = chunk.code[ip];
            let line = chunk.read_line(ip);
            proof {
                assert(chunk.code@.subrange(ip as int, n as int)[0] == chunk.code@[ip as int]);
            }
            if op == 0 {
                return Ok(());
            } else if op > 19 {
                return Err(Error::UnknownOpcode { line });
            } else if op == 1 || op == 17 || op == 18 || op == 19 {
                proof {
                    lemma_wf_step(chunk.code@, consts.len() as int, ip as int, 2);
                    assert(chunk.code@.subrange(ip as int, n as int)[1] == chunk.code@[ip + 1]);
                }
                let idx = chunk.code[ip + 1] as usize;
                let cv = chunk.read_constant(idx);
                if op == 1 {
                    let ghost vsp = stack@;
                    stack.push(cv.dup());
                    proof {
                        assert(stack_view(stack@) =~= stack_view(vsp).push(
                            vm_view(chunk.constants@[idx as int]),
                        ));
                    }
                    ip = ip + 2;
                } else {
                    // the global operations name their variable by a pooled
                    // text constant
                    let name = match cv {
                        Value::ConstString(sref) => Some(sref),
                        Value::String(sref) => Some(sref),
                        _ => None,
                    };
                    match name {
                        None => {
                            return Err(Error::BadGlobalName { line });
                        },
                        Some(sref) => {
                            if op == 17 {
                                // DefineGlobal pops the value
                                let ghost pre_pop = stack@;
                                let popped = stack.pop();
                                match popped {
                                    Some(v) => {
                                        proof {
                                            assert(st_here.stack.last() == vm_view(
                                                pre_pop[pre_pop.len() - 1],
                                            ));
                                            assert(stack_view(stack@) =~= st_here.stack.drop_last());
                                        }
                                        self.globals.set(sref.as_str(), v);
                                        ip = ip + 2;
                                    },
                                    None => {
                                        return Err(Error::StackUnderflow { line });
                                    },
                                }
                            } else if op == 18 {
                                match self.globals.get(sref.as_str()) {
                                    Some(v) => {
                                        let ghost vsp = stack@;
                                        stack.push(v);
                                        proof {
                                            assert(stack_view(stack@) =~= stack_view(vsp).push(
                                                vm_view(stack@[stack@.len() - 1]),
                                            ));
                                        }
                                        ip = ip + 2;
                                    },
                                    None => {
                                        return Err(
                                            Error::UndefinedGlobal { name: sref.clone(), line },
                                        );
                                    },
                                }
                            } else {
                                // SetGlobal keeps the value on the stack
                                match self.globals.get(sref.as_str()) {
                                    Some(_) => {
                                        if stack.len() == 0 {
                                            return Err(Error::StackUnderflow { line });
                                        }
                                        let top = stack[stack.len() - 1].dup();
                                        proof {
                                            assert(vm_view(stack@[stack@.len() - 1])
                                                == stack_view(stack@).last());
                                        }
                                        self.globals.set(sref.as_str(), top);
                                        ip = ip + 2;
                                    },
                                    None => {
                                        return Err(
                                            Error::UndefinedGlobal { name: sref.clone(), line },
                                        );
                                    },
                                }
                            }
                        },
                    }
                }
            } else if op == 2 {
                proof {
                    lemma_wf_step(chunk.code@, consts.len() as int, ip as int, 3);
                    assert(chunk.code@.subrange(ip as int, n as int)[1] == chunk.code@[ip + 1]);
                    assert(chunk.code@.subrange(ip as int, n as int)[2] == chunk.code@[ip + 2]);
                }
                let idx = crate::chunk::long_index(chunk.code[ip + 1], chunk.code[ip + 2]);
                let cv = chunk.read_constant(idx);
                let ghost vsp = stack@;
                stack.push(cv.dup());
                proof {
                    assert(stack_view(stack@) =~= stack_view(vsp).push(
                        vm_view(chunk.constants@[idx as int]),
                    ));
                }
                ip = ip + 3;
            } else {
                proof {
                    lemma_wf_step(chunk.code@, consts.len() as int, ip as int, 1);
                }
                if op == 8 || op == 9 || op == 10 {
                    let v = if op == 8 {
                        Value::Nil
                    } else if op == 9 {
                        Value::Bool(true)
                    } else {
                        Value::Bool(false)
                    };
                    let ghost vsp = stack@;
                    stack.push(v);
                    proof {
                        assert(stack_view(stack@) =~= stack_view(vsp).push(
                            vm_view(stack@[stack@.len() - 1]),
                        ));
                    }
                    ip = ip + 1;
                } else if op == 3 {
                    let ghost pre_pop = stack@;
                    let popped = stack.pop();
                    match popped {
                        Some(Value::Number(b)) => {
                            stack.push(Value::Number(crate::number::negate_bits(b)));
                            proof {
                                assert(st_here.stack.last() == vm_view(
                                    pre_pop[pre_pop.len() - 1],
                                ));
                                assert(stack_view(stack@) =~= st_here.stack.drop_last().push(
                                    VmV::N(spec_negated(b)),
                                ));
                            }
                            ip = ip + 1;
                        },
                        Some(v) => {
                            stack.push(v);
                            proof {
                                assert(st_here.stack.last() == vm_view(
                                    pre_pop[pre_pop.len() - 1],
                                ));
                                assert(stack_view(stack@) =~= st_here.stack);
                            }
                            return Err(Error::OperandMustBeNumber { line });
                        },
                        None => {
                            return Err(Error::StackUnderflow { line });
                        },
                    }
                } else if op == 11 {
                    let ghost pre_pop = stack@;
                    let popped = stack.pop();
                    match popped {
                        Some(v) => {
                            let truthy = v.is_truthy();
                            stack.push(
                                if truthy {
                                    Value::Bool(false)
                                } else {
                                    Value::Bool(true)
                                },
                            );
                            proof {
                                assert(st_here.stack.last() == vm_view(
                                    pre_pop[pre_pop.len() - 1],
                                ));
                                assert(stack_view(stack@) =~= st_here.stack.drop_last().push(
                                    VmV::B(!spec_vm_truthy(st_here.stack.last())),
                                ));
                            }
                            ip = ip + 1;
                        },
                        None => {
                            return Err(Error::StackUnderflow { line });
                        },
                    }
                } else if op == 15 {
                    let ghost pre_pop = stack@;
                    let popped = stack.pop();
                    match popped {
                        Some(v) => {
                            let ghost po = out.deep_view();
                            let line_text = v.display();
                            out.push(line_text);
                            proof {
                                assert(st_here.stack.last() == vm_view(
                                    pre_pop[pre_pop.len() - 1],
                                ));
                                assert(stack_view(stack@) =~= st_here.stack.drop_last());
                                assert(out.deep_view() =~= po.push(spec_vm_display(vm_view(v))));
                            }
                            ip = ip + 1;
                        },
                        None => {
                            return Err(Error::StackUnderflow { line });
                        },
                    }
                } else if op == 16 {
                    let ghost pre_pop = stack@;
                    let popped = stack.pop();
                    match popped {
                        Some(_) => {
                            proof {
                                assert(stack_view(stack@) =~= st_here.stack.drop_last());
                            }
                            ip = ip + 1;
                        },
                        None => {
                            return Err(Error::StackUnderflow { line });
                        },
                    }
                } else {
                    // the binary operations pop b then a
                    if stack.len() < 2 {
                        return Err(Error::StackUnderflow { line });
                    }
                    let b = match stack.pop() {
                        Some(v) => v,
                        None => {
                            return Err(Error::StackUnderflow { line });
                        },
                    };
                    let a = match stack.pop() {
                        Some(v) => v,
                        None => {
                            return Err(Error::StackUnderflow { line });
                        },
                    };
                    let ghost ga = vm_view(a);
                    let ghost gb = vm_view(b);
                    let ghost rest = stack@;
                    proof {
                        assert(gb == st_here.stack.last());
                        assert(stack_view(rest) =~= st_here.stack.drop_last().drop_last());
                        assert(ga == st_here.stack.drop_last().last());
                    }
                    if op == 12 {
                        let eq = a.equals(&b);
                        stack.push(Value::Bool(eq));
                        proof {
                            assert(stack_view(stack@) =~= st_here.stack.drop_last().drop_last().push(
                                VmV::B(spec_vm_eq(ga, gb)),
                            ));
                        }
                        ip = ip + 1;
                    } else if op == 4 {
                        match (&a, &b) {
                            (Value::Number(x), Value::Number(y)) => {
                                stack.push(Value::Number(crate::number::add_bits(*x, *y)));
                                proof {
                                    assert(stack_view(stack@)
                                        =~= st_here.stack.drop_last().drop_last().push(
                                        vm_view(stack@[stack@.len() - 1]),
                                    ));
                                }
                                ip = ip + 1;
                            },
                            _ => {
                                let a_text = matches!(
                                    a,
                                    Value::ConstString(_) | Value::String(_)
                                );
                                let b_text = matches!(
                                    b,
                                    Value::ConstString(_) | Value::String(_)
                                );
                                if a_text || b_text {
                                    let joined = a.display().concat(b.display().as_str());
                                    stack.push(Value::String(joined));
                                    proof {
                                        assert(stack_view(stack@)
                                            =~= st_here.stack.drop_last().drop_last().push(
                                            VmV::S(spec_vm_display(ga) + spec_vm_display(gb)),
                                        ));
                                    }
                                    ip = ip + 1;
                                } else {
                                    stack.push(a);
                                    stack.push(b);
                                    proof {
                                        assert(stack_view(stack@) =~= st_here.stack);
                                    }
                                    return Err(Error::OperandsMustBeNumbers { line });
                                }
                            },
                        }
                    } else {
                        match (&a, &b) {
                            (Value::Number(x), Value::Number(y)) => {
                                let v = if op == 5 {
                                    Value::Number(crate::number::sub_bits(*x, *y))
                                } else if op == 6 {
                                    Value::Number(crate::number::mul_bits(*x, *y))
                                } else if op == 7 {
                                    Value::Number(crate::number::div_bits(*x, *y))
                                } else if op == 13 {
                                    Value::Bool(
                                        matches!(
                                            crate::number::cmp_bits(*x, *y),
                                            NumCmp::Greater
                                        ),
                                    )
                                } else {
                                    Value::Bool(
                                        matches!(crate::number::cmp_bits(*x, *y), NumCmp::Less),
                                    )
                                };
                                stack.push(v);
                                proof {
                                    assert(stack_view(stack@)
                                        =~= st_here.stack.drop_last().drop_last().push(
                                        vm_view(stack@[stack@.len() - 1]),
                                    ));
                                }
                                ip = ip + 1;
                            },
                            _ => {
                                stack.push(a);
                                stack.push(b);
                                proof {
                                    assert(stack_view(stack@) =~= st_here.stack);
                                }
                                return Err(Error::OperandsMustBeNumbers { line });
                            },
                        }
                    }
                }
            }
        }
    }
}

} // verus!
