//! The stack machine that executes a chunk.
use vstd::prelude::*;
use crate::chunk::Chunk;
use crate::chunk::OpCode;
use crate::chunk::Program;
use crate::compiler::compile;
use crate::grammar::assemble;
use crate::grammar::lemma_code_length;
use crate::grammar::parse;
use crate::compiler::Report;
use crate::laws::lemma_parse_count;
use crate::scanner::readable;
use crate::laws::lemma_round_trip;
use crate::value::computes;
use crate::value::reads;
use crate::value::reads_all;
use crate::value::total;
use crate::value::Literals;
use crate::value::Arithmetic;
use crate::value::Operation;
use crate::value::Value;

verus! {

/// The capacity of the value stack. The stack never grows beyond it.
pub const STACK_MAX: usize = 256;

/// How an interpretation ended.
#[derive(Clone, Copy, PartialEq, Eq, Structural, Debug)]
pub enum InterpretResult {
    Success,
    CompileError,
    RuntimeError,
}

/// The state of the machine between two instructions: the offset of the
/// next instruction and the values on the stack, the top one last.
pub struct Machine {
    pub ip: nat,
    pub stack: Seq<Value>,
}

/// How a run ends: with the value that `Return` popped, with no value where
/// the code ran out before a `Return`, or with a fault.
pub enum Outcome {
    Done(Option<Value>),
    Fault,
}

/// What one instruction does: it leaves the machine in a new state, or ends
/// the run.
pub enum Step {
    Next(Machine),
    Halt(Outcome),
}

impl Machine {
    /// The machine before the first instruction, with an empty stack.
    pub open spec fn start() -> Machine {
        Machine { ip: 0, stack: Seq::empty() }
    }

    /// The machine after `op` has replaced the topmost `taken` values by
    /// `value`.
    pub open spec fn replace(self, op: OpCode, taken: nat, value: Value) -> Machine {
        Machine {
            ip: Program::after(self.ip as int, op) as nat,
            stack: self.stack.take(self.stack.len() - taken).push(value),
        }
    }

    /// The value on top of the stack.
    pub open spec fn top(self) -> Value {
        self.stack[self.stack.len() - 1]
    }

    /// The value below the top of the stack.
    pub open spec fn below(self) -> Value {
        self.stack[self.stack.len() - 2]
    }
}

impl Outcome {
    /// The classification that the machine reports for this outcome.
    pub open spec fn result(self) -> InterpretResult {
        match self {
            Outcome::Done(_) => InterpretResult::Success,
            Outcome::Fault => InterpretResult::RuntimeError,
        }
    }

    /// The value that the run produced, if it produced one.
    pub open spec fn value(self) -> Option<Value> {
        match self {
            Outcome::Done(value) => value,
            Outcome::Fault => None,
        }
    }

    /// The two outcomes are of one kind: both are faults, both are done
    /// with a value, or both are done without one.
    pub open spec fn alike(self, other: Outcome) -> bool {
        self.result() == other.result() && (self.value() is Some <==> other.value() is Some)
    }
}

/// The arithmetic operation that instruction `op` asks for when `left` lies
/// below `right` on the stack, if `op` is a binary instruction.
pub open spec fn binary_operation(op: OpCode, left: Value, right: Value) -> Option<Operation> {
    match op {
        OpCode::Add => Some(Operation::Add(left, right)),
        OpCode::Subtract => Some(Operation::Subtract(left, right)),
        OpCode::Multiply => Some(Operation::Multiply(left, right)),
        OpCode::Divide => Some(Operation::Divide(left, right)),
        _ => None,
    }
}

/// One step of the machine on program `p`.
///
/// At the end of the code the run is done without a value. A byte that is
/// no instruction, an operand that the code or the pool does not hold, a
/// pop from an empty stack and a push onto a full one are faults.
pub open spec fn step(p: Program, m: Machine, arith: Arithmetic) -> Step {
    if m.ip >= p.code.len() {
        Step::Halt(Outcome::Done(None))
    } else {
        match OpCode::decode(p.code[m.ip as int]) {
            None => Step::Halt(Outcome::Fault),
            Some(op) => {
                if !p.holds(m.ip as int, op) {
                    Step::Halt(Outcome::Fault)
                } else {
                    match op {
                        OpCode::Return => {
                            if m.stack.len() < 1 {
                                Step::Halt(Outcome::Fault)
                            } else {
                                Step::Halt(Outcome::Done(Some(m.top())))
                            }
                        },
                        OpCode::Constant | OpCode::ConstantLong => {
                            let index = p.operand(m.ip as int, op);
                            if index >= p.constants.len() || m.stack.len() >= STACK_MAX {
                                Step::Halt(Outcome::Fault)
                            } else {
                                Step::Next(m.replace(op, 0, p.constants[index]))
                            }
                        },
                        OpCode::Negate => {
                            if m.stack.len() < 1 {
                                Step::Halt(Outcome::Fault)
                            } else {
                                Step::Next(m.replace(op, 1, arith(Operation::Negate(m.top()))))
                            }
                        },
                        _ => {
                            if m.stack.len() < 2 {
                                Step::Halt(Outcome::Fault)
                            } else {
                                Step::Next(
                                    m.replace(
                                        op,
                                        2,
                                        arith(binary_operation(op, m.below(), m.top())->0),
                                    ),
                                )
                            }
                        },
                    }
                }
            },
        }
    }
}

/// The outcome of running program `p` from state `m` until it halts.
pub open spec fn run(p: Program, m: Machine, arith: Arithmetic) -> Outcome
    decreases p.code.len() - m.ip,
{
    match step(p, m, arith) {
        Step::Halt(outcome) => outcome,
        Step::Next(next) => run(p, next, arith),
    }
}

/// The outcome of executing program `p` from its first instruction on an
/// empty stack.
pub open spec fn execute(p: Program, arith: Arithmetic) -> Outcome {
    run(p, Machine::start(), arith)
}

/// How a run ends depends on the code, the size of the pool, the
/// instruction pointer and the depth of the stack alone: not on the values
/// in the pool or on the stack, and not on the arithmetic.
pub proof fn lemma_run_alike(
    p: Program,
    q: Program,
    m: Machine,
    n: Machine,
    f: Arithmetic,
    g: Arithmetic,
)
    requires
        p.code == q.code,
        p.constants.len() == q.constants.len(),
        m.ip == n.ip,
        m.stack.len() == n.stack.len(),
    ensures
        run(p, m, f).alike(run(q, n, g)),
    decreases p.code.len() - m.ip,
{
    match (step(p, m, f), step(q, n, g)) {
        (Step::Next(m2), Step::Next(n2)) => {
            lemma_run_alike(p, q, m2, n2, f, g);
        },
        _ => {},
    }
}

/// A run that comes to a byte that is no instruction is a fault, whatever
/// is on the stack.
pub proof fn lemma_unknown_opcode_faults(p: Program, m: Machine, arith: Arithmetic)
    requires
        m.ip < p.code.len(),
        OpCode::decode(p.code[m.ip as int]) is None,
    ensures
        run(p, m, arith) == Outcome::Fault,
{
}

/// A virtual machine. It can interpret one chunk after another: every
/// interpretation starts from the first instruction with an empty stack.
pub struct VM {
    chunk: Chunk,
    ip: usize,
    stack: [Value; STACK_MAX],
    stack_top: usize,
    result: Option<Value>,
    diagnostics: Vec<Report>,
}

impl VM {
    /// The stack depth is within the capacity.
    pub closed spec fn wf(&self) -> bool {
        self.stack_top <= STACK_MAX
    }

    /// The program that the machine holds.
    pub closed spec fn program(&self) -> Program {
        self.chunk@
    }

    /// The state of the machine.
    pub closed spec fn machine(&self) -> Machine {
        Machine { ip: self.ip as nat, stack: self.stack@.take(self.stack_top as int) }
    }

    /// The value that the last interpretation produced.
    pub closed spec fn yielded(&self) -> Option<Value> {
        self.result
    }

    /// The compile errors that the last interpretation reported.
    pub closed spec fn reported(&self) -> Seq<Report> {
        self.diagnostics@
    }

    /// A machine that holds an empty chunk.
    pub fn new() -> (vm: VM)
        ensures
            vm.wf(),
            vm.program() == Program::empty(),
            vm.machine() == Machine::start(),
            vm.yielded() is None,
            vm.reported().len() == 0,
    {
        let vm = VM {
            chunk: Chunk::new(),
            ip: 0,
            stack: [Value { bits: 0 };STACK_MAX],
            stack_top: 0,
            result: None,
            diagnostics: Vec::new(),
        };
        assert(vm.machine().stack =~= Machine::start().stack);
        vm
    }

    /// The value that the last interpretation produced: the value that
    /// `Return` popped, or nothing where the interpretation failed or the
    /// code ended without a `Return`.
    pub fn result(&self) -> (value: Option<Value>)
        ensures
            value == self.yielded(),
    {
        self.result
    }

    /// The compile errors that the last interpretation reported.
    pub fn diagnostics(&self) -> (reports: &Vec<Report>)
        ensures
            reports@ == self.reported(),
    {
        &self.diagnostics
    }

    /// Executes `chunk` from its first instruction on an empty stack, with
    /// `arith` for the arithmetic, and reports how the run ended. The value
    /// that the run produced is kept for [`VM::result`].
    ///
    /// How the run ends does not depend on what `arith` returns; the value
    /// does. Nothing of an earlier interpretation is carried over.
    pub fn interpret<A: Fn(Operation) -> Value>(&mut self, chunk: Chunk, arith: &A) -> (r:
        InterpretResult)
        requires
            total(*arith),
        ensures
            final(self).wf(),
            final(self).program() == chunk@,
            final(self).reported().len() == 0,
            forall|g: Arithmetic|
                {
                    let outcome = #[trigger] execute(chunk@, g);
                    &&& r == outcome.result()
                    &&& final(self).yielded() is Some <==> outcome.value() is Some
                },
            forall|g: Arithmetic| #[trigger]
                computes(*arith, g) ==> final(self).yielded() == execute(chunk@, g).value(),
    {
        self.chunk = chunk;
        self.ip = 0;
        self.result = None;
        self.diagnostics = Vec::new();
        self.reset_stack();
        assert(self.machine().stack =~= Machine::start().stack);
        self.run(arith)
    }

    fn run<A: Fn(Operation) -> Value>(&mut self, arith: &A) -> (r: InterpretResult)
        requires
            total(*arith),
            old(self).wf(),
            old(self).result is None,
        ensures
            final(self).wf(),
            final(self).chunk == old(self).chunk,
            final(self).diagnostics == old(self).diagnostics,
            forall|g: Arithmetic|
                {
                    let outcome = #[trigger] run(old(self).chunk@, old(self).machine(), g);
                    &&& r == outcome.result()
                    &&& final(self).result is Some <==> outcome.value() is Some
                },
            forall|g: Arithmetic| #[trigger]
                computes(*arith, g) ==> final(self).result == run(
                    old(self).chunk@,
                    old(self).machine(),
                    g,
                ).value(),
    {
        let ghost p = self.chunk@;
        let ghost first = self.machine();
        loop
            invariant
                total(*arith),
                self.wf(),
                self.result is None,
                self.chunk == old(self).chunk,
                self.diagnostics == old(self).diagnostics,
                p == self.chunk@,
                first == old(self).machine(),
                forall|g: Arithmetic|
                    run(p, self.machine(), g).alike(#[trigger] run(p, first, g)),
                forall|g: Arithmetic| #[trigger]
                    computes(*arith, g) ==> run(p, self.machine(), g) == run(p, first, g),
            decreases self.chunk.code.len() - self.ip,
        {
            let ghost m = self.machine();
            let byte = match self.read_byte() {
                Some(byte) => byte,
                None => {
                    return InterpretResult::Success;
                },
            };
            let op = match OpCode::try_from(byte) {
                Ok(op) => op,
                Err(_) => {
                    return InterpretResult::RuntimeError;
                },
            };
            match op {
                OpCode::Return => {
                    match self.pop() {
                        Some(value) => {
                            self.result = Some(value);
                            return InterpretResult::Success;
                        },
                        None => {
                            return InterpretResult::RuntimeError;
                        },
                    }
                },
                OpCode::Constant => {
                    let value = match self.read_constant() {
                        Some(value) => value,
                        None => {
                            return InterpretResult::RuntimeError;
                        },
                    };
                    if !self.push(value) {
                        return InterpretResult::RuntimeError;
                    }
                    assert(self.machine().stack =~= m.replace(op, 0, value).stack);
                },
                OpCode::ConstantLong => {
                    let value = match self.read_constant_long() {
                        Some(value) => value,
                        None => {
                            return InterpretResult::RuntimeError;
                        },
                    };
                    if !self.push(value) {
                        return InterpretResult::RuntimeError;
                    }
                    assert(self.machine().stack =~= m.replace(op, 0, value).stack);
                },
                OpCode::Negate => {
                    let value = match self.pop() {
                        Some(value) => value,
                        None => {
                            return InterpretResult::RuntimeError;
                        },
                    };
                    let negated = arith(Operation::Negate(value));
                    let pushed = self.push(negated);
                    assert(pushed);
                    proof {
                        self.kept(p, first, m);
                    }
                },
                OpCode::Add | OpCode::Subtract | OpCode::Multiply | OpCode::Divide => {
                    let right = match self.pop() {
                        Some(value) => value,
                        None => {
                            return InterpretResult::RuntimeError;
                        },
                    };
                    let left = match self.pop() {
                        Some(value) => value,
                        None => {
                            return InterpretResult::RuntimeError;
                        },
                    };
                    let operation = match op {
                        OpCode::Add => Operation::Add(left, right),
                        OpCode::Subtract => Operation::Subtract(left, right),
                        OpCode::Multiply => Operation::Multiply(left, right),
                        _ => Operation::Divide(left, right),
                    };
                    let value = arith(operation);
                    let pushed = self.push(value);
                    assert(pushed);
                    assert(self.machine().stack =~= m.replace(op, 2, value).stack);
                    proof {
                        self.kept(p, first, m);
                    }
                },
            }
        }
    }

    /// Fetches the byte at the instruction pointer and moves past it, or
    /// returns nothing at the end of the code.
    fn read_byte(&mut self) -> (byte: Option<u8>)
        ensures
            final(self).chunk == old(self).chunk,
            final(self).stack == old(self).stack,
            final(self).stack_top == old(self).stack_top,
            final(self).result == old(self).result,
            final(self).diagnostics == old(self).diagnostics,
            match byte {
                Some(byte) => {
                    &&& old(self).ip < old(self).chunk.code.len()
                    &&& byte == old(self).chunk.code[old(self).ip as int]
                    &&& final(self).ip == old(self).ip + 1
                },
                None => {
                    &&& old(self).ip >= old(self).chunk.code.len()
                    &&& final(self).ip == old(self).ip
                },
            },
    {
        if self.ip < self.chunk.code.len() {
            let byte = self.chunk.code[self.ip];
            self.ip = self.ip + 1;
            Some(byte)
        } else {
            None
        }
    }

    /// Fetches a one-byte index and the constant that it refers to.
    fn read_constant(&mut self) -> (value: Option<Value>)
        requires
            0 < old(self).ip <= old(self).chunk.code.len(),
        ensures
            final(self).chunk == old(self).chunk,
            final(self).stack == old(self).stack,
            final(self).stack_top == old(self).stack_top,
            final(self).result == old(self).result,
            final(self).diagnostics == old(self).diagnostics,
            old(self).ip <= final(self).ip <= old(self).ip + 1,
            ({
                let p = old(self).chunk@;
                let at = old(self).ip - 1;
                let op = OpCode::Constant;
                match value {
                    Some(value) => {
                        &&& p.holds(at, op)
                        &&& p.operand(at, op) < p.constants.len()
                        &&& value == p.constants[p.operand(at, op)]
                        &&& final(self).ip == Program::after(at, op)
                    },
                    None => !p.holds(at, op) || p.operand(at, op) >= p.constants.len(),
                }
            }),
    {
        let index = match self.read_byte() {
            Some(byte) => byte as usize,
            None => {
                return None;
            },
        };
        if index < self.chunk.constants.len() {
            Some(self.chunk.constants[index])
        } else {
            None
        }
    }

    /// Fetches a three-byte index, most significant byte first, and the
    /// constant that it refers to.
    fn read_constant_long(&mut self) -> (value: Option<Value>)
        requires
            0 < old(self).ip <= old(self).chunk.code.len(),
        ensures
            final(self).chunk == old(self).chunk,
            final(self).stack == old(self).stack,
            final(self).stack_top == old(self).stack_top,
            final(self).result == old(self).result,
            final(self).diagnostics == old(self).diagnostics,
            old(self).ip <= final(self).ip <= old(self).ip + 3,
            ({
                let p = old(self).chunk@;
                let at = old(self).ip - 1;
                let op = OpCode::ConstantLong;
                match value {
                    Some(value) => {
                        &&& p.holds(at, op)
                        &&& p.operand(at, op) < p.constants.len()
                        &&& value == p.constants[p.operand(at, op)]
                        &&& final(self).ip == Program::after(at, op)
                    },
                    None => !p.holds(at, op) || p.operand(at, op) >= p.constants.len(),
                }
            }),
    {
        if self.chunk.code.len() - self.ip < 3 {
            return None;
        }
        let index0 = self.chunk.code[self.ip] as usize;
        let index1 = self.chunk.code[self.ip + 1] as usize;
        let index2 = self.chunk.code[self.ip + 2] as usize;
        self.ip = self.ip + 3;
        let index = index0 * 65536 + index1 * 256 + index2;
        if index < self.chunk.constants.len() {
            Some(self.chunk.constants[index])
        } else {
            None
        }
    }

    /// Empties the stack.
    fn reset_stack(&mut self)
        ensures
            final(self).stack_top == 0,
            final(self).chunk == old(self).chunk,
            final(self).ip == old(self).ip,
            final(self).result == old(self).result,
            final(self).diagnostics == old(self).diagnostics,
    {
        self.stack_top = 0;
    }

    /// Puts `value` on top of the stack, unless the stack is full.
    fn push(&mut self, value: Value) -> (pushed: bool)
        requires
            old(self).wf(),
        ensures
            final(self).wf(),
            final(self).chunk == old(self).chunk,
            final(self).ip == old(self).ip,
            final(self).result == old(self).result,
            final(self).diagnostics == old(self).diagnostics,
            pushed <==> old(self).stack_top < STACK_MAX,
            pushed ==> final(self).machine().stack == old(self).machine().stack.push(value),
            !pushed ==> final(self).machine() == old(self).machine(),
    {
        if self.stack_top < STACK_MAX {
            self.stack[self.stack_top] = value;
            self.stack_top = self.stack_top + 1;
            true
        } else {
            false
        }
    }

    /// Takes the top value off the stack, unless the stack is empty.
    fn pop(&mut self) -> (value: Option<Value>)
        requires
            old(self).wf(),
        ensures
            final(self).wf(),
            final(self).chunk == old(self).chunk,
            final(self).ip == old(self).ip,
            final(self).result == old(self).result,
            final(self).diagnostics == old(self).diagnostics,
            final(self).stack == old(self).stack,
            match value {
                Some(value) => {
                    &&& old(self).stack_top > 0
                    &&& value == old(self).machine().top()
                    &&& final(self).stack_top == old(self).stack_top - 1
                    &&& final(self).machine().stack == old(self).machine().stack.drop_last()
                },
                None => old(self).stack_top == 0 && final(self).stack_top == 0,
            },
    {
        if self.stack_top > 0 {
            self.stack_top = self.stack_top - 1;
            Some(self.stack[self.stack_top])
        } else {
            None
        }
    }
}

/// Compiles `source` and executes it on `vm`: `number` reads the number
/// literals and `arith` does the arithmetic.
///
/// A source that does not compile is a `CompileError`: the report of its
/// first error is kept for [`VM::diagnostics`], and nothing is executed.
/// A source that compiles is executed: the value of its expression is kept
/// for [`VM::result`], unless the expression needs more than the stack's
/// capacity, which is a `RuntimeError`. Which of the three it is does not
/// depend on what `number` and `arith` return.
pub fn interpret<N: Fn(&str) -> Value, A: Fn(Operation) -> Value>(
    vm: &mut VM,
    source: &str,
    number: &N,
    arith: &A,
) -> (r: InterpretResult)
    requires
        reads_all(*number),
        total(*arith),
    ensures
        final(vm).wf(),
        match parse(readable(source@)) {
            Err(d) => {
                &&& r == InterpretResult::CompileError
                &&& final(vm).yielded() is None
                &&& final(vm).reported().len() == 1
                &&& final(vm).reported()[0]@ == d
            },
            Ok(parsed) => {
                &&& final(vm).reported().len() == 0
                &&& if parsed.expr.depth() <= STACK_MAX {
                    &&& r == InterpretResult::Success
                    &&& final(vm).yielded() is Some
                    &&& forall|lit: Literals, g: Arithmetic|
                        #![trigger reads(*number, lit), computes(*arith, g)]
                        reads(*number, lit) && computes(*arith, g) ==> final(vm).yielded() == Some(
                            parsed.expr.value(lit, g),
                        )
                } else {
                    &&& r == InterpretResult::RuntimeError
                    &&& final(vm).yielded() is None
                }
            },
        },
{
    match compile(source, number) {
        Ok(chunk) => {
            let ghost p = chunk@;
            let r = vm.interpret(chunk, arith);
            proof {
                let parsed = parse(readable(source@))->Ok_0;
                let end = parsed.cursor.previous.line;
                lemma_parse_count(readable(source@));
                lemma_code_length(parsed.expr, 0);
                let lit = |text: Seq<char>| Value { bits: 0 };
                let g = |operation: Operation| Value { bits: 0 };
                let model = assemble(parsed.expr, end, lit);
                lemma_round_trip(parsed.expr, end, lit, g);
                lemma_run_alike(p, model, Machine::start(), Machine::start(), g, g);
                assert(r == execute(p, g).result());
                assert forall|lit: Literals, g: Arithmetic| #[trigger]
                    reads(*number, lit) && #[trigger] computes(*arith, g)
                        && parsed.expr.depth() <= STACK_MAX implies vm.yielded() == Some(
                    parsed.expr.value(lit, g),
                ) by {
                    lemma_round_trip(parsed.expr, end, lit, g);
                }
            }
            r
        },
        Err(failure) => {
            vm.fail(failure.reports);
            InterpretResult::CompileError
        },
    }
}

impl VM {
    /// After a step from machine `m` that went on, the run still ends as
    /// the run from `first` does, whatever value the step pushed.
    proof fn kept(&self, p: Program, first: Machine, m: Machine)
        requires
            forall|g: Arithmetic| run(p, m, g).alike(#[trigger] run(p, first, g)),
            forall|g: Arithmetic|
                (#[trigger] step(p, m, g)) matches Step::Next(next) && next.ip == self.machine().ip
                    && next.stack.len() == self.machine().stack.len(),
        ensures
            forall|g: Arithmetic| run(p, self.machine(), g).alike(#[trigger] run(p, first, g)),
    {
        assert forall|g: Arithmetic| run(p, self.machine(), g).alike(
            #[trigger] run(p, first, g),
        ) by {
            let next = step(p, m, g)->Next_0;
            lemma_run_alike(p, p, self.machine(), next, g, g);
        }
    }

    /// Keeps the reports of a failed compilation; no value was produced.
    fn fail(&mut self, reports: Vec<Report>)
        ensures
            final(self).wf(),
            final(self).result is None,
            final(self).diagnostics == reports,
    {
        self.reset_stack();
        self.result = None;
        self.diagnostics = reports;
    }
}

} // verus!
