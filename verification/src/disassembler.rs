//! The disassembler: a chunk as text, one line for each instruction.
use vstd::prelude::*;
use vstd::string::StringExecFns;
use crate::chunk::Chunk;
use crate::chunk::OpCode;
use crate::chunk::Program;
use crate::text::digits;
use crate::text::padded_left;
use crate::text::padded_right;
use crate::text::push_decimal;
use crate::text::push_filler;
use crate::text::push_number;
use crate::value::shows;
use crate::value::shows_all;
use crate::value::Rendering;
use crate::value::Value;

verus! {

/// The name of an instruction.
pub open spec fn mnemonic(op: OpCode) -> Seq<char> {
    match op {
        OpCode::Return => "Return"@,
        OpCode::Constant => "Constant"@,
        OpCode::ConstantLong => "ConstantLong"@,
        OpCode::Negate => "Negate"@,
        OpCode::Add => "Add"@,
        OpCode::Subtract => "Subtract"@,
        OpCode::Multiply => "Multiply"@,
        OpCode::Divide => "Divide"@,
    }
}

/// The instruction at `offset` can be shown: if it is a load, the code
/// holds its operand and the pool the constant that it refers to. A byte
/// that is no instruction can be shown as such.
pub open spec fn readable_at(p: Program, offset: int) -> bool {
    match OpCode::decode(p.code[offset]) {
        Some(op) => {
            &&& p.holds(offset, op)
            &&& op.operand_count() > 0 ==> p.operand(offset, op) < p.constants.len()
        },
        None => true,
    }
}

/// The offset after the instruction at `offset`; a byte that is no
/// instruction is passed over alone.
pub open spec fn next_offset(p: Program, offset: int) -> int {
    match OpCode::decode(p.code[offset]) {
        Some(op) => Program::after(offset, op),
        None => offset + 1,
    }
}

/// Every instruction from `offset` on can be shown.
pub open spec fn readable_from(p: Program, offset: int) -> bool
    decreases p.code.len() - offset,
{
    if 0 <= offset < p.code.len() {
        readable_at(p, offset) && readable_from(p, next_offset(p, offset))
    } else {
        true
    }
}

/// The column that tells the source line of the instruction at `offset`:
/// the line number, to the right in four characters, or a bar where the
/// line is that of the byte before.
pub open spec fn line_column(p: Program, offset: int) -> Seq<char> {
    if offset > 0 && p.lines[offset] == p.lines[offset - 1] {
        "   | "@
    } else {
        padded_left(digits(p.lines[offset] as nat), 4, ' ').push(' ')
    }
}

/// What the line says of the instruction at `offset` itself: its name; for
/// a load, the name in sixteen characters, the index of the constant in
/// four digits and the constant between single quotes; for a byte that is
/// no instruction, that it is unknown.
pub open spec fn instruction_column(p: Program, offset: int, shown: Rendering) -> Seq<char> {
    match OpCode::decode(p.code[offset]) {
        Some(op) => if op.operand_count() == 0 {
            mnemonic(op)
        } else {
            let index = p.operand(offset, op);
            padded_right(mnemonic(op), 16).push(' ') + padded_left(digits(index as nat), 4, '0')
                + " '"@ + shown(p.constants[index]) + "'"@
        },
        None => "Unknown opcode "@ + digits(p.code[offset] as nat),
    }
}

/// The line of text for the instruction at `offset`: the offset in four
/// digits, the line column and the instruction, ended by a line feed.
pub open spec fn instruction_text(p: Program, offset: int, shown: Rendering) -> Seq<char> {
    (padded_left(digits(offset as nat), 4, '0').push(' ') + line_column(p, offset)
        + instruction_column(p, offset, shown)).push('\n')
}

/// The lines of text for the instructions from `offset` on.
pub open spec fn listing_from(p: Program, offset: int, shown: Rendering) -> Seq<char>
    decreases p.code.len() - offset,
{
    let next = next_offset(p, offset);
    if 0 <= offset < next <= p.code.len() {
        instruction_text(p, offset, shown) + listing_from(p, next, shown)
    } else {
        Seq::empty()
    }
}

/// The text of a whole program: a heading with `name`, then one line for
/// each instruction.
pub open spec fn listing(p: Program, name: Seq<char>, shown: Rendering) -> Seq<char> {
    "=== "@ + name + " ===\n"@ + listing_from(p, 0, shown)
}

/// The text of a program depends on nothing but what the program holds:
/// programs with the same code, lines and constants have the same text.
pub proof fn lemma_listing_of_contents(p: Program, q: Program, name: Seq<char>, shown: Rendering)
    requires
        p.code == q.code,
        p.lines == q.lines,
        p.constants == q.constants,
    ensures
        listing(p, name, shown) == listing(q, name, shown),
{
}

/// Well-formed code can be shown.
pub proof fn lemma_well_formed_readable(p: Program, offset: int)
    requires
        p.well_formed_from(offset),
    ensures
        readable_from(p, offset),
    decreases p.code.len() - offset,
{
    if 0 <= offset < p.code.len() {
        lemma_well_formed_readable(p, next_offset(p, offset));
    }
}

/// The name of an instruction.
pub fn name_of(op: OpCode) -> (name: &'static str)
    ensures
        name@ == mnemonic(op),
{
    match op {
        OpCode::Return => "Return",
        OpCode::Constant => "Constant",
        OpCode::ConstantLong => "ConstantLong",
        OpCode::Negate => "Negate",
        OpCode::Add => "Add",
        OpCode::Subtract => "Subtract",
        OpCode::Multiply => "Multiply",
        OpCode::Divide => "Divide",
    }
}

/// Appends to `out` the text of the whole chunk: a heading with `name`,
/// then one line for each instruction. `show` gives the text of a
/// constant.
///
/// The text depends on nothing but the chunk, the name and what `show`
/// gives: disassembling the same chunk again gives the same text.
pub fn disassemble_chunk<S: Fn(Value) -> String>(chunk: &Chunk, name: &str, show: &S) -> (text:
    String)
    requires
        chunk@.aligned(),
        readable_from(chunk@, 0),
        shows_all(*show),
    ensures
        forall|g: Rendering| #[trigger] shows(*show, g) ==> text@ == listing(chunk@, name@, g),
{
    let mut text = String::from_str("=== ");
    text.append(name);
    text.append(" ===\n");
    let ghost heading = text@;
    let mut offset: usize = 0;
    while offset < chunk.code.len()
        invariant
            chunk@.aligned(),
            shows_all(*show),
            readable_from(chunk@, offset as int),
            forall|g: Rendering| #[trigger]
                shows(*show, g) ==> text@ + listing_from(chunk@, offset as int, g) == heading
                    + listing_from(chunk@, 0, g),
        decreases chunk.code.len() - offset,
    {
        offset = disassemble_instruction(chunk, offset, show, &mut text);
    }
    text
}

/// Appends to `out` the line of text for the instruction at `offset`, and
/// returns the offset of the next instruction.
pub fn disassemble_instruction<S: Fn(Value) -> String>(
    chunk: &Chunk,
    offset: usize,
    show: &S,
    out: &mut String,
) -> (next: usize)
    requires
        chunk@.aligned(),
        offset < chunk@.code.len(),
        readable_at(chunk@, offset as int),
        shows_all(*show),
    ensures
        next == next_offset(chunk@, offset as int),
        offset < next <= chunk@.code.len(),
        forall|g: Rendering| #[trigger]
            shows(*show, g) ==> final(out)@ == old(out)@ + instruction_text(
                chunk@,
                offset as int,
                g,
            ),
{
    assert(chunk.code.len() <= usize::MAX);
    push_number(out, offset, 4, '0');
    out.push(' ');
    if offset > 0 && chunk.lines[offset] == chunk.lines[offset - 1] {
        out.append("   | ");
    } else {
        push_number(out, chunk.lines[offset], 4, ' ');
        out.push(' ');
    }
    let next = match OpCode::try_from(chunk.code[offset]) {
        Ok(instruction) => match instruction {
            OpCode::Constant | OpCode::ConstantLong => constant_instruction(
                instruction,
                chunk,
                offset,
                show,
                out,
            ),
            _ => simple_instruction(instruction, offset, out),
        },
        Err(_) => {
            out.append("Unknown opcode ");
            push_decimal(out, chunk.code[offset] as usize);
            offset + 1
        },
    };
    out.push('\n');
    next
}

/// Appends the name of an instruction without operands, and returns the
/// offset after it.
fn simple_instruction(opcode: OpCode, offset: usize, out: &mut String) -> (next: usize)
    requires
        offset < usize::MAX,
        opcode.operand_count() == 0,
    ensures
        next == offset + 1,
        final(out)@ == old(out)@ + mnemonic(opcode),
{
    out.append(name_of(opcode));
    offset + 1
}

/// Appends the name of a load, the index of its constant and the constant,
/// and returns the offset after the operand.
fn constant_instruction<S: Fn(Value) -> String>(
    opcode: OpCode,
    chunk: &Chunk,
    offset: usize,
    show: &S,
    out: &mut String,
) -> (next: usize)
    requires
        opcode == OpCode::Constant || opcode == OpCode::ConstantLong,
        offset < chunk@.code.len(),
        chunk@.holds(offset as int, opcode),
        chunk@.operand(offset as int, opcode) < chunk@.constants.len(),
        shows_all(*show),
    ensures
        next == Program::after(offset as int, opcode),
        forall|g: Rendering| #[trigger]
            shows(*show, g) ==> final(out)@ == old(out)@ + (padded_right(
                mnemonic(opcode),
                16,
            ).push(' ') + padded_left(
                digits(chunk@.operand(offset as int, opcode) as nat),
                4,
                '0',
            ) + " '"@ + g(chunk@.constants[chunk@.operand(offset as int, opcode)]) + "'"@),
{
    assert(chunk.code.len() <= usize::MAX);
    let (constant, next) = match opcode {
        OpCode::Constant => (chunk.code[offset + 1] as usize, offset + 2),
        _ => (
            chunk.code[offset + 1] as usize * 65536 + chunk.code[offset + 2] as usize * 256
                + chunk.code[offset + 3] as usize,
            offset + 4,
        ),
    };
    let name = name_of(opcode);
    let length = name.unicode_len();
    out.append(name);
    if length < 16 {
        push_filler(out, 16 - length, ' ');
    }
    out.push(' ');
    push_number(out, constant, 4, '0');
    out.append(" '");
    let shown = show(chunk.constants[constant]);
    out.append(shown.as_str());
    out.append("'");
    next
}

impl Chunk {
    /// The text of the whole chunk, as [`disassemble_chunk`] gives it.
    pub fn disassemble<S: Fn(Value) -> String>(&self, name: &str, show: &S) -> (text: String)
        requires
            self@.aligned(),
            readable_from(self@, 0),
            shows_all(*show),
        ensures
            forall|g: Rendering| #[trigger] shows(*show, g) ==> text@ == listing(self@, name@, g),
    {
        disassemble_chunk(self, name, show)
    }

    /// Appends to `out` the line of text for the instruction at `offset`,
    /// as [`disassemble_instruction`] does, and returns the offset of the
    /// next instruction.
    pub fn disassemble_instruction<S: Fn(Value) -> String>(
        &self,
        offset: usize,
        show: &S,
        out: &mut String,
    ) -> (next: usize)
        requires
            self@.aligned(),
            offset < self@.code.len(),
            readable_at(self@, offset as int),
            shows_all(*show),
        ensures
            next == next_offset(self@, offset as int),
            offset < next <= self@.code.len(),
            forall|g: Rendering| #[trigger]
                shows(*show, g) ==> final(out)@ == old(out)@ + instruction_text(
                    self@,
                    offset as int,
                    g,
                ),
    {
        disassemble_instruction(self, offset, show, out)
    }
}

} // verus!
