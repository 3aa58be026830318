//! What compiling and running have to do with each other.
use vstd::prelude::*;
use crate::chunk::lemma_load;
use crate::chunk::OpCode;
use crate::chunk::Program;
use crate::chunk::MAX_CONSTANTS;
use crate::grammar::assemble;
use crate::grammar::compiled;
use crate::grammar::lemma_code_length;
use crate::grammar::lemma_parse_moves;
use crate::grammar::parse;
use crate::grammar::Cursor;
use crate::grammar::Expr;
use crate::grammar::Precedence;
use crate::value::Arithmetic;
use crate::value::Literals;
use crate::value::Operation;
use crate::vm::execute;
use crate::vm::run;
use crate::vm::Machine;
use crate::vm::Outcome;
use crate::vm::STACK_MAX;

verus! {

/// Where program `p` holds the code of expression `e` at the instruction
/// pointer of machine `m`, and its pool the values of the literals of `e`,
/// running from `m` is running from the machine after the expression, with
/// the value of `e` on top of the stack. Where the stack of `m` has not the
/// room that `e` needs, the run is a fault.
pub proof fn lemma_run_expression(
    e: Expr,
    pool: nat,
    p: Program,
    m: Machine,
    lit: Literals,
    arith: Arithmetic,
)
    requires
        m.ip + e.code(pool).len() <= p.code.len(),
        p.code.subrange(m.ip as int, (m.ip + e.code(pool).len()) as int) == e.code(pool),
        pool + e.count() <= p.constants.len(),
        pool + e.count() <= MAX_CONSTANTS + 1,
        forall|j: int|
            0 <= j < e.literals().len() ==> p.constants[pool + j] == lit(e.literals()[j]),
        m.stack.len() <= STACK_MAX,
    ensures
        run(p, m, arith) == if m.stack.len() + e.depth() <= STACK_MAX {
            run(
                p,
                Machine {
                    ip: m.ip + e.code(pool).len(),
                    stack: m.stack.push(e.value(lit, arith)),
                },
                arith,
            )
        } else {
            Outcome::Fault
        },
    decreases e,
{
    let at = m.ip as int;
    let code = e.code(pool);
    let part = p.code.subrange(at, at + code.len());
    lemma_code_length(e, pool);
    match e {
        Expr::Number { text, .. } => {
            lemma_load(p, at, pool);
            assert(e.literals()[0] == text);
            if m.stack.len() < STACK_MAX {
                let op = OpCode::decode(p.code[at])->0;
                let next = m.replace(op, 0, p.constants[pool as int]);
                assert(next.stack =~= m.stack.push(lit(text)));
            }
        },
        Expr::Grouping { inner } => {
            lemma_run_expression(*inner, pool, p, m, lit, arith);
        },
        Expr::Negate { operand, .. } => {
            let inner = operand.code(pool);
            assert(p.code.subrange(at, at + inner.len()) =~= inner);
            lemma_run_expression(*operand, pool, p, m, lit, arith);
            if m.stack.len() + operand.depth() <= STACK_MAX {
                let v = operand.value(lit, arith);
                let m1 = Machine { ip: (m.ip + inner.len()) as nat, stack: m.stack.push(v) };
                assert(p.code[at + inner.len()] == part[inner.len() as int]);
                let next = m1.replace(
                    OpCode::Negate,
                    1,
                    arith(Operation::Negate(v)),
                );
                assert(next.stack =~= m.stack.push(e.value(lit, arith)));
            }
        },
        Expr::Binary { operator, left, right, .. } => {
            let first = left.code(pool);
            let second = right.code(pool + left.count());
            lemma_code_length(*left, pool);
            lemma_code_length(*right, pool + left.count());
            assert(p.code.subrange(at, at + first.len()) =~= first);
            assert forall|j: int| 0 <= j < second.len() implies p.code[at + first.len() + j]
                == second[j] by {
                assert(p.code[at + first.len() + j] == part[first.len() + j]);
            }
            assert(p.code.subrange(at + first.len(), at + first.len() + second.len()) =~= second);
            assert forall|j: int| 0 <= j < left.literals().len() implies p.constants[pool + j]
                == lit(left.literals()[j]) by {
                assert(e.literals()[j] == left.literals()[j]);
            }
            assert forall|j: int| 0 <= j < right.literals().len() implies p.constants[pool
                + left.count() + j] == lit(right.literals()[j]) by {
                assert(e.literals()[left.count() + j] == right.literals()[j]);
            }
            lemma_run_expression(*left, pool, p, m, lit, arith);
            if m.stack.len() + left.depth() <= STACK_MAX {
                let a = left.value(lit, arith);
                let m1 = Machine { ip: m.ip + first.len(), stack: m.stack.push(a) };
                lemma_run_expression(*right, pool + left.count(), p, m1, lit, arith);
                if m1.stack.len() + right.depth() <= STACK_MAX {
                    let b = right.value(lit, arith);
                    let m2 = Machine { ip: m1.ip + second.len(), stack: m1.stack.push(b) };
                    assert(p.code[at + first.len() + second.len()] == part[(first.len()
                        + second.len()) as int]);
                    let next = m2.replace(operator.opcode(), 2, arith(operator.apply(a, b)));
                    assert(next.stack =~= m.stack.push(e.value(lit, arith)));
                }
            }
        },
    }
}

/// Round trip: the program of an expression, run from the start, yields
/// the value of the expression, evaluated from left to right with each
/// operation's operands in source order. This holds of every expression
/// whose code needs no more than the stack's capacity; the run of any
/// other is a fault.
pub proof fn lemma_round_trip(e: Expr, end: nat, lit: Literals, arith: Arithmetic)
    requires
        e.count() <= MAX_CONSTANTS + 1,
    ensures
        execute(assemble(e, end, lit), arith) == if e.depth() <= STACK_MAX {
            Outcome::Done(Some(e.value(lit, arith)))
        } else {
            Outcome::Fault
        },
{
    let p = assemble(e, end, lit);
    let m = Machine::start();
    let n = e.code(0).len();
    lemma_code_length(e, 0);
    assert(p.code.subrange(0, n as int) =~= e.code(0));
    lemma_run_expression(e, 0, p, m, lit, arith);
}

/// The constants of a source that parses have indices that the format
/// can address.
pub proof fn lemma_parse_count(s: Seq<char>)
    ensures
        parse(s) matches Ok(parsed) ==> parsed.expr.count() <= MAX_CONSTANTS + 1,
{
    if let Ok(c) = Cursor::initial().advance(s) {
        lemma_parse_moves(s, c, Precedence::Assignment, 0);
    }
}

/// Round trip, from the source: a source that compiles, run from the
/// start, yields the value of the expression that it is, or a fault where
/// the expression needs more than the stack's capacity.
pub proof fn lemma_source_round_trip(s: Seq<char>, lit: Literals, arith: Arithmetic)
    ensures
        match parse(s) {
            Ok(parsed) => compiled(s, lit) matches Ok(p) && execute(p, arith)
                == if parsed.expr.depth() <= STACK_MAX {
                Outcome::Done(Some(parsed.expr.value(lit, arith)))
            } else {
                Outcome::Fault
            },
            Err(d) => compiled(s, lit) == Err::<Program, _>(d),
        },
{
    lemma_parse_count(s);
    if let Ok(parsed) = parse(s) {
        lemma_round_trip(parsed.expr, parsed.cursor.previous.line, lit, arith);
    }
}

} // verus!
