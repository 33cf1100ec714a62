//! Compiled chunks for the bytecode path: an opcode and operand byte buffer,
//! a constant pool, and a per-byte source-line record for diagnostics.
use vstd::prelude::*;
use crate::value::Value;

verus! {

/// The closed set of operations the virtual machine executes.
#[derive(Debug, Clone, Copy, PartialEq, Eq, Structural)]
pub enum OpCode {
    Return,
    Constant,
    ConstantLong,
    Negate,
    Add,
    Subtract,
    Multiply,
    Divide,
    Nil,
    True,
    False,
    Not,
    Equal,
    Greater,
    Less,
    Print,
    Pop,
    DefineGlobal,
    GetGlobal,
    SetGlobal,
    Unknown,
}

/// The byte each operation is encoded as.
pub open spec fn spec_op_byte(op: OpCode) -> u8 {
    match op {
        OpCode::Return => 0,
        OpCode::Constant => 1,
        OpCode::ConstantLong => 2,
        OpCode::Negate => 3,
        OpCode::Add => 4,
        OpCode::Subtract => 5,
        OpCode::Multiply => 6,
        OpCode::Divide => 7,
        OpCode::Nil => 8,
        OpCode::True => 9,
        OpCode::False => 10,
        OpCode::Not => 11,
        OpCode::Equal => 12,
        OpCode::Greater => 13,
        OpCode::Less => 14,
        OpCode::Print => 15,
        OpCode::Pop => 16,
        OpCode::DefineGlobal => 17,
        OpCode::GetGlobal => 18,
        OpCode::SetGlobal => 19,
        OpCode::Unknown => 255,
    }
}

impl OpCode {
    /// Encodes the operation as its byte.
    pub fn byte(self) -> (r: u8)
        ensures
            r == spec_op_byte(self),
    {
        match self {
            OpCode::Return => 0,
            OpCode::Constant => 1,
            OpCode::ConstantLong => 2,
            OpCode::Negate => 3,
            OpCode::Add => 4,
            OpCode::Subtract => 5,
            OpCode::Multiply => 6,
            OpCode::Divide => 7,
            OpCode::Nil => 8,
            OpCode::True => 9,
            OpCode::False => 10,
            OpCode::Not => 11,
            OpCode::Equal => 12,
            OpCode::Greater => 13,
            OpCode::Less => 14,
            OpCode::Print => 15,
            OpCode::Pop => 16,
            OpCode::DefineGlobal => 17,
            OpCode::GetGlobal => 18,
            OpCode::SetGlobal => 19,
            OpCode::Unknown => 255,
        }
    }

    /// Decodes a byte back to its operation; bytes past the set decode to
    /// the unknown operation.
    pub fn decode(value: u8) -> (r: OpCode)
        ensures
            value <= 19 ==> spec_op_byte(r) == value,
            value > 19 ==> r == OpCode::Unknown,
    {
        match value {
            0 => OpCode::Return,
            1 => OpCode::Constant,
            2 => OpCode::ConstantLong,
            3 => OpCode::Negate,
            4 => OpCode::Add,
            5 => OpCode::Subtract,
            6 => OpCode::Multiply,
            7 => OpCode::Divide,
            8 => OpCode::Nil,
            9 => OpCode::True,
            10 => OpCode::False,
            11 => OpCode::Not,
            12 => OpCode::Equal,
            13 => OpCode::Greater,
            14 => OpCode::Less,
            15 => OpCode::Print,
            16 => OpCode::Pop,
            17 => OpCode::DefineGlobal,
            18 => OpCode::GetGlobal,
            19 => OpCode::SetGlobal,
            _ => OpCode::Unknown,
        }
    }
}

/// Rebuilds a two-byte big-endian constant-pool index.
pub fn long_index(idx_top: u8, idx_bot: u8) -> (r: usize)
    ensures
        r == idx_top * 256 + idx_bot,
        r < 65536,
{
    (idx_top as usize) * 256 + (idx_bot as usize)
}

/// Splits a constant-pool index into its two big-endian bytes.
pub fn break_index(idx: usize) -> (r: [u8; 2])
    requires
        idx < 65536,
    ensures
        r[0] == idx / 256,
        r[1] == idx % 256,
{
    let top = (idx / 256) as u8;
    let bot = (idx % 256) as u8;
    [top, bot]
}

/// A partial instruction stream: every instruction is complete, with its
/// operand bytes inside the stream and every pool index inside the pool.
pub open spec fn code_partial(code: Seq<u8>, nconst: int) -> bool
    decreases code.len(),
{
    if code.len() == 0 {
        true
    } else {
        let op = code[0];
        if op == 1 || op == 17 || op == 18 || op == 19 {
            code.len() >= 2 && code[1] < nconst && code_partial(
                code.subrange(2, code.len() as int),
                nconst,
            )
        } else if op == 2 {
            code.len() >= 3 && code[1] * 256 + code[2] < nconst && code_partial(
                code.subrange(3, code.len() as int),
                nconst,
            )
        } else if op <= 16 {
            code_partial(code.subrange(1, code.len() as int), nconst)
        } else {
            false
        }
    }
}

/// A runnable instruction stream: complete as above, and it cannot run off
/// the end — the last instruction is a return.
pub open spec fn code_wf(code: Seq<u8>, nconst: int) -> bool
    decreases code.len(),
{
    if code.len() == 0 {
        false
    } else {
        let op = code[0];
        if op == 0 {
            code.len() == 1 || code_wf(code.subrange(1, code.len() as int), nconst)
        } else if op == 1 || op == 17 || op == 18 || op == 19 {
            code.len() >= 3 && code[1] < nconst && code_wf(
                code.subrange(2, code.len() as int),
                nconst,
            )
        } else if op == 2 {
            code.len() >= 4 && code[1] * 256 + code[2] < nconst && code_wf(
                code.subrange(3, code.len() as int),
                nconst,
            )
        } else if op <= 16 {
            code.len() >= 2 && code_wf(code.subrange(1, code.len() as int), nconst)
        } else {
            false
        }
    }
}

/// CHUNK SHAPE. Closing a complete partial stream with one return makes a
/// runnable stream: every operand stays in bounds, every pool index stays in
/// the pool, and execution has a return to reach.
pub proof fn law_partial_close(code: Seq<u8>, nconst: int)
    requires
        code_partial(code, nconst),
    ensures
        code_wf(code.push(0u8), nconst),
    decreases code.len(),
{
    let closed = code.push(0u8);
    if code.len() == 0 {
        assert(closed.len() == 1 && closed[0] == 0);
    } else {
        let op = code[0];
        if op == 1 || op == 17 || op == 18 || op == 19 {
            law_partial_close(code.subrange(2, code.len() as int), nconst);
            assert(closed.subrange(2, closed.len() as int) =~= code.subrange(
                2,
                code.len() as int,
            ).push(0u8));
        } else if op == 2 {
            law_partial_close(code.subrange(3, code.len() as int), nconst);
            assert(closed.subrange(3, closed.len() as int) =~= code.subrange(
                3,
                code.len() as int,
            ).push(0u8));
        } else {
            law_partial_close(code.subrange(1, code.len() as int), nconst);
            assert(closed.subrange(1, closed.len() as int) =~= code.subrange(
                1,
                code.len() as int,
            ).push(0u8));
        }
    }
}

/// A complete stream stays complete when the pool only grows.
pub proof fn lemma_partial_mono(code: Seq<u8>, n1: int, n2: int)
    requires
        code_partial(code, n1),
        n1 <= n2,
    ensures
        code_partial(code, n2),
    decreases code.len(),
{
    if code.len() > 0 {
        let op = code[0];
        if op == 1 || op == 17 || op == 18 || op == 19 {
            lemma_partial_mono(code.subrange(2, code.len() as int), n1, n2);
        } else if op == 2 {
            lemma_partial_mono(code.subrange(3, code.len() as int), n1, n2);
        } else {
            lemma_partial_mono(code.subrange(1, code.len() as int), n1, n2);
        }
    }
}

/// Two complete streams joined stay complete.
pub proof fn lemma_partial_cat(a: Seq<u8>, b: Seq<u8>, nconst: int)
    requires
        code_partial(a, nconst),
        code_partial(b, nconst),
    ensures
        code_partial(a + b, nconst),
    decreases a.len(),
{
    let ab = a + b;
    if a.len() == 0 {
        assert(ab =~= b);
    } else {
        let op = a[0];
        if op == 1 || op == 17 || op == 18 || op == 19 {
            lemma_partial_cat(a.subrange(2, a.len() as int), b, nconst);
            assert(ab.subrange(2, ab.len() as int) =~= a.subrange(2, a.len() as int) + b);
        } else if op == 2 {
            lemma_partial_cat(a.subrange(3, a.len() as int), b, nconst);
            assert(ab.subrange(3, ab.len() as int) =~= a.subrange(3, a.len() as int) + b);
        } else {
            lemma_partial_cat(a.subrange(1, a.len() as int), b, nconst);
            assert(ab.subrange(1, ab.len() as int) =~= a.subrange(1, a.len() as int) + b);
        }
    }
}

/// One compiled unit: the instruction bytes, the constant pool they index,
/// and the source line each byte came from.
pub struct Chunk {
    pub code: Vec<u8>,
    pub constants: Vec<Value>,
    pub lines: Vec<usize>,
}

impl Chunk {
    /// A chunk's inner shape: one line per code byte.
    pub open spec fn inv(&self) -> bool {
        self.code@.len() == self.lines@.len()
    }

    /// A fresh, empty chunk.
    pub fn new() -> (r: Self)
        ensures
            r.inv(),
            r.code@ =~= Seq::<u8>::empty(),
            r.constants@ =~= Seq::<Value>::empty(),
    {
        Chunk { code: Vec::new(), constants: Vec::new(), lines: Vec::new() }
    }

    /// The instruction bytes.
    pub fn code(&self) -> (r: &Vec<u8>)
        ensures
            r@ == self.code@,
    {
        &self.code
    }

    /// Appends one byte, recording its source line.
    pub fn write(&mut self, byte: u8, line: usize)
        requires
            old(self).inv(),
        ensures
            final(self).inv(),
            final(self).code@ == old(self).code@.push(byte),
            final(self).constants@ == old(self).constants@,
            final(self).lines@ == old(self).lines@.push(line),
    {
        self.code.push(byte);
        self.lines.push(line);
    }

    /// Adds a constant to the pool, handing back its index.
    pub fn add_constant(&mut self, value: Value) -> (r: usize)
        requires
            old(self).inv(),
        ensures
            final(self).inv(),
            final(self).code@ == old(self).code@,
            final(self).lines@ == old(self).lines@,
            final(self).constants@ == old(self).constants@.push(value),
            r == old(self).constants@.len(),
    {
        self.constants.push(value);
        self.constants.len() - 1
    }

    /// Adds a constant and emits the instruction that loads it: the short
    /// form with a one-byte index when the index fits, else the long form
    /// with a two-byte big-endian index. Pools past the long form's reach
    /// are refused.
    pub fn write_constant(&mut self, value: Value, line: usize) -> (r: bool)
        requires
            old(self).inv(),
        ensures
            final(self).inv(),
            ({
                let idx = old(self).constants@.len();
                if idx < 256 {
                    r && final(self).constants@ == old(self).constants@.push(value)
                        && final(self).code@ == old(self).code@ + seq![1u8, idx as u8]
                } else if idx < 65536 {
                    r && final(self).constants@ == old(self).constants@.push(value)
                        && final(self).code@ == old(self).code@ + seq![
                        2u8,
                        (idx / 256) as u8,
                        (idx % 256) as u8,
                    ]
                } else {
                    !r && final(self).constants@ == old(self).constants@ && final(self).code@
                        == old(self).code@
                }
            }),
    {
        if self.constants.len() >= 65536 {
            return false;
        }
        let const_idx = self.add_constant(value);
        if const_idx < 256 {
            self.write(OpCode::Constant.byte(), line);
            self.write(const_idx as u8, line);
            proof {
                assert(self.code@ =~= old(self).code@ + seq![
                    1u8,
                    old(self).constants@.len() as u8,
                ]);
            }
        } else {
            self.write(OpCode::ConstantLong.byte(), line);
            let parts = break_index(const_idx);
            self.write(parts[0], line);
            self.write(parts[1], line);
            proof {
                assert(self.code@ =~= old(self).code@ + seq![
                    2u8,
                    (old(self).constants@.len() / 256) as u8,
                    (old(self).constants@.len() % 256) as u8,
                ]);
            }
        }
        true
    }

    /// Drops the chunk, freeing its buffers.
    pub fn free(self) {
    }

    /// Reads a pooled constant.
    pub fn read_constant(&self, index: usize) -> (r: &Value)
        requires
            index < self.constants@.len(),
        ensures
            *r == self.constants@[index as int],
    {
        &self.constants[index]
    }

    /// Reads the source line a byte came from.
    pub fn read_line(&self, index: usize) -> (r: usize)
        requires
            self.inv(),
            index < self.code@.len(),
        ensures
            r == self.lines@[index as int],
    {
        self.lines[index]
    }
}

} // verus!
