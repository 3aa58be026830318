//! Bytecode: the instruction set and the chunk that holds compiled code.
use vstd::prelude::*;
use vstd::std_specs::convert::FromSpecImpl;
use vstd::std_specs::convert::TryFromSpecImpl;
use vstd::string::StringExecFns;
use crate::text::digits;
use crate::text::push_decimal;
use crate::value::Value;

verus! {

/// The largest index a constant can have: the long form of the load
/// instruction carries 24 bits.
pub const MAX_CONSTANTS: usize = 0x00FF_FFFF;

/// The instructions of the machine. Each is one byte, followed by the
/// number of operand bytes that [`OpCode::operands`] gives.
#[derive(Clone, Copy, PartialEq, Eq, Structural, Debug)]
pub enum OpCode {
    Return,
    Constant,
    ConstantLong,
    Negate,
    Add,
    Subtract,
    Multiply,
    Divide,
}

/// A byte that is no instruction.
#[derive(Clone, Copy, PartialEq, Eq, Structural, Debug)]
pub enum FromOpCodeError {
    Unknown(u8),
}

impl FromOpCodeError {
    /// What the error says: `Unknown OpCode`, and the byte in decimal
    /// between single quotes.
    pub open spec fn text(self) -> Seq<char> {
        match self {
            FromOpCodeError::Unknown(byte) => "Unknown OpCode '"@ + digits(byte as nat) + "'"@,
        }
    }

    /// What the error says.
    pub fn message(&self) -> (message: String)
        ensures
            message@ == self.text(),
    {
        match self {
            FromOpCodeError::Unknown(byte) => {
                let mut message = String::from_str("Unknown OpCode '");
                push_decimal(&mut message, *byte as usize);
                message.append("'");
                message
            },
        }
    }
}

impl OpCode {
    /// The byte that encodes the instruction.
    pub open spec fn byte(self) -> u8 {
        match self {
            OpCode::Return => 0,
            OpCode::Constant => 1,
            OpCode::ConstantLong => 2,
            OpCode::Negate => 3,
            OpCode::Add => 4,
            OpCode::Subtract => 5,
            OpCode::Multiply => 6,
            OpCode::Divide => 7,
        }
    }

    /// The instruction that a byte encodes, if it encodes one.
    pub open spec fn decode(byte: u8) -> Option<OpCode> {
        match byte {
            0 => Some(OpCode::Return),
            1 => Some(OpCode::Constant),
            2 => Some(OpCode::ConstantLong),
            3 => Some(OpCode::Negate),
            4 => Some(OpCode::Add),
            5 => Some(OpCode::Subtract),
            6 => Some(OpCode::Multiply),
            7 => Some(OpCode::Divide),
            _ => None,
        }
    }

    /// How many operand bytes follow the instruction.
    pub open spec fn operand_count(self) -> nat {
        match self {
            OpCode::Constant => 1,
            OpCode::ConstantLong => 3,
            _ => 0,
        }
    }

    /// How many operand bytes follow the instruction.
    pub fn operands(self) -> (n: usize)
        ensures
            n == self.operand_count(),
    {
        match self {
            OpCode::Constant => 1,
            OpCode::ConstantLong => 3,
            _ => 0,
        }
    }
}

impl From<OpCode> for u8 {
    fn from(value: OpCode) -> (byte: u8) {
        match value {
            OpCode::Return => 0,
            OpCode::Constant => 1,
            OpCode::ConstantLong => 2,
            OpCode::Negate => 3,
            OpCode::Add => 4,
            OpCode::Subtract => 5,
            OpCode::Multiply => 6,
            OpCode::Divide => 7,
        }
    }
}

impl FromSpecImpl<OpCode> for u8 {
    open spec fn obeys_from_spec() -> bool {
        true
    }

    open spec fn from_spec(value: OpCode) -> u8 {
        value.byte()
    }
}

impl TryFrom<u8> for OpCode {
    type Error = FromOpCodeError;

    fn try_from(value: u8) -> (r: Result<OpCode, FromOpCodeError>) {
        match value {
            0 => Ok(OpCode::Return),
            1 => Ok(OpCode::Constant),
            2 => Ok(OpCode::ConstantLong),
            3 => Ok(OpCode::Negate),
            4 => Ok(OpCode::Add),
            5 => Ok(OpCode::Subtract),
            6 => Ok(OpCode::Multiply),
            7 => Ok(OpCode::Divide),
            x => Err(FromOpCodeError::Unknown(x)),
        }
    }
}

impl TryFromSpecImpl<u8> for OpCode {
    open spec fn obeys_try_from_spec() -> bool {
        true
    }

    open spec fn try_from_spec(value: u8) -> Result<OpCode, FromOpCodeError> {
        match OpCode::decode(value) {
            Some(op) => Ok(op),
            None => Err(FromOpCodeError::Unknown(value)),
        }
    }
}

/// Decoding inverts encoding.
pub proof fn lemma_decode_byte(op: OpCode)
    ensures
        OpCode::decode(op.byte()) == Some(op),
{
}

/// A byte decodes to at most the instruction that it encodes.
pub proof fn lemma_byte_decode(byte: u8)
    ensures
        OpCode::decode(byte) matches Some(op) ==> op.byte() == byte,
        OpCode::decode(byte) is Some <==> byte <= 7,
{
}

/// As many copies of `line` as `bytes` has bytes.
pub open spec fn lines_for(bytes: Seq<u8>, line: usize) -> Seq<usize> {
    Seq::new(bytes.len(), |i: int| line)
}

/// What a chunk holds: the bytes of the code, the source line of each byte,
/// and the constant pool.
pub struct Program {
    pub code: Seq<u8>,
    pub lines: Seq<usize>,
    pub constants: Seq<Value>,
}

impl Program {
    /// The program with no code and no constants.
    pub open spec fn empty() -> Program {
        Program { code: Seq::empty(), lines: Seq::empty(), constants: Seq::empty() }
    }

    /// The program with one more byte of code, written for source line `line`.
    pub open spec fn write(self, byte: u8, line: usize) -> Program {
        Program { code: self.code.push(byte), lines: self.lines.push(line), ..self }
    }

    /// The bytes of the instruction that loads the constant with index
    /// `index`: the short form while the index fits in one byte, the long
    /// form with a 24-bit index, most significant byte first, after that.
    pub open spec fn load(index: nat) -> Seq<u8> {
        if index <= 255 {
            seq![OpCode::Constant.byte(), index as u8]
        } else {
            seq![
                OpCode::ConstantLong.byte(),
                (index / 65536) as u8,
                (index / 256 % 256) as u8,
                (index % 256) as u8,
            ]
        }
    }

    /// The program with `value` appended to the pool and the instruction
    /// that loads it appended to the code, all of it for source line
    /// `line`.
    pub open spec fn write_constant(self, value: Value, line: usize) -> Program {
        let bytes = Program::load(self.constants.len());
        Program {
            code: self.code + bytes,
            lines: self.lines + lines_for(bytes, line),
            constants: self.constants.push(value),
        }
    }

    /// Every byte of code has its source line.
    pub open spec fn aligned(self) -> bool {
        self.code.len() == self.lines.len()
    }

    /// The operand bytes of instruction `op` at `offset` are all in the code.
    pub open spec fn holds(self, offset: int, op: OpCode) -> bool {
        offset + op.operand_count() < self.code.len()
    }

    /// The constant index that the operand bytes after `offset` encode for
    /// instruction `op`; zero for an instruction without operands.
    pub open spec fn operand(self, offset: int, op: OpCode) -> int {
        match op {
            OpCode::Constant => self.code[offset + 1] as int,
            OpCode::ConstantLong => self.code[offset + 1] * 65536 + self.code[offset + 2] * 256
                + self.code[offset + 3],
            _ => 0,
        }
    }

    /// The offset of the instruction that follows instruction `op` at
    /// `offset`.
    pub open spec fn after(offset: int, op: OpCode) -> int {
        offset + 1 + op.operand_count()
    }

    /// From `offset` to its end the code is a row of whole instructions,
    /// each a known opcode with all its operand bytes, and each load refers
    /// to a constant that the pool holds.
    pub open spec fn well_formed_from(self, offset: int) -> bool
        decreases self.code.len() - offset,
    {
        if offset < 0 {
            false
        } else if offset >= self.code.len() {
            offset == self.code.len()
        } else {
            match OpCode::decode(self.code[offset]) {
                None => false,
                Some(op) => {
                    &&& self.holds(offset, op)
                    &&& op.operand_count() > 0 ==> self.operand(offset, op) < self.constants.len()
                    &&& self.well_formed_from(Self::after(offset, op))
                },
            }
        }
    }

    /// The code is a row of whole instructions with valid operands, and
    /// every byte has its line.
    pub open spec fn well_formed(self) -> bool {
        self.aligned() && self.well_formed_from(0)
    }

    /// The code is well formed and its last instruction is `Return`.
    pub open spec fn finished(self) -> bool {
        &&& self.well_formed()
        &&& self.code.len() > 0
        &&& self.code.last() == OpCode::Return.byte()
        &&& Program {
            code: self.code.drop_last(),
            lines: self.lines.drop_last(),
            ..self
        }.well_formed()
    }
}

/// Where the code holds the load instruction for constant `index` at
/// offset `at`, the instruction there decodes to a load of that index.
pub proof fn lemma_load(p: Program, at: int, index: nat)
    requires
        index <= MAX_CONSTANTS,
        0 <= at,
        at + Program::load(index).len() <= p.code.len(),
        p.code.subrange(at, at + Program::load(index).len()) == Program::load(index),
    ensures
        ({
            let op = if index <= 255 {
                OpCode::Constant
            } else {
                OpCode::ConstantLong
            };
            &&& OpCode::decode(p.code[at]) == Some(op)
            &&& p.holds(at, op)
            &&& p.operand(at, op) == index
            &&& Program::after(at, op) == at + Program::load(index).len()
        }),
{
}

/// A unit of compiled code: the bytecode, the source line of each of its
/// bytes, and the constants that its load instructions refer to.
#[derive(Debug)]
pub struct Chunk {
    pub code: Vec<u8>,
    pub lines: Vec<usize>,
    pub constants: Vec<Value>,
}

impl View for Chunk {
    type V = Program;

    open spec fn view(&self) -> Program {
        Program { code: self.code@, lines: self.lines@, constants: self.constants@ }
    }
}

impl Default for Chunk {
    fn default() -> (chunk: Chunk)
        ensures
            chunk@ == Program::empty(),
    {
        Chunk::new()
    }
}

impl Clone for Chunk {
    fn clone(&self) -> (copy: Chunk)
        ensures
            copy@ == self@,
    {
        Chunk {
            code: self.code.clone(),
            lines: self.lines.clone(),
            constants: self.constants.clone(),
        }
    }
}

impl Chunk {
    /// An empty chunk.
    pub fn new() -> (chunk: Chunk)
        ensures
            chunk@ == Program::empty(),
    {
        Chunk { code: Vec::new(), lines: Vec::new(), constants: Vec::new() }
    }

    /// Appends one byte of code and the source line it was compiled from.
    pub fn write(&mut self, byte: u8, line: usize)
        ensures
            final(self)@ == old(self)@.write(byte, line),
    {
        self.code.push(byte);
        self.lines.push(line);
    }

    /// Adds `value` to the pool and appends the instruction that loads it.
    pub fn write_constant(&mut self, value: Value, line: usize)
        requires
            old(self).constants.len() <= MAX_CONSTANTS,
        ensures
            final(self)@ == old(self)@.write_constant(value, line),
    {
        let index = self.constants.len();
        self.constants.push(value);
        if index <= 255 {
            self.write(OpCode::Constant.into(), line);
            self.write(index as u8, line);
        } else {
            self.write(OpCode::ConstantLong.into(), line);
            self.write((index / 65536) as u8, line);
            self.write((index / 256 % 256) as u8, line);
            self.write((index % 256) as u8, line);
        }
        proof {
            let bytes = Program::load(index as nat);
            assert(self@.code =~= old(self)@.code + bytes);
            assert(self@.lines =~= old(self)@.lines + lines_for(bytes, line));
        }
    }

    /// Adds `constant` to the pool without writing code, and returns its
    /// index for the operand of a short load.
    pub fn add_constant(&mut self, constant: Value) -> (index: u8)
        requires
            old(self).constants.len() < 255,
        ensures
            index == old(self).constants.len(),
            final(self)@ == (Program {
                constants: old(self)@.constants.push(constant),
                ..old(self)@
            }),
    {
        self.constants.push(constant);
        (self.constants.len() - 1) as u8
    }

    /// The number of bytes of code.
    pub fn code_length(&self) -> (n: usize)
        ensures
            n == self@.code.len(),
    {
        self.code.len()
    }

    /// The number of constants in the pool.
    pub fn constant_length(&self) -> (n: usize)
        ensures
            n == self@.constants.len(),
    {
        self.constants.len()
    }

    /// The byte of code at `offset`.
    pub fn code_at(&self, offset: usize) -> (byte: u8)
        requires
            offset < self@.code.len(),
        ensures
            byte == self@.code[offset as int],
    {
        self.code[offset]
    }

    /// The constant with index `offset`.
    pub fn constant_at(&self, offset: u8) -> (value: Value)
        requires
            offset < self@.constants.len(),
        ensures
            value == self@.constants[offset as int],
    {
        self.constants[offset as usize]
    }
}

} // verus!
