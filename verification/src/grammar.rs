//! The grammar of expressions: what the compiler is to find in a source
//! and what code it is to write for it.
//!
//! Nothing here is executed. The parser of the compiler writes code as it
//! goes and builds no tree; this module says which tree it follows.
use vstd::prelude::*;
use crate::chunk::lemma_load;
use crate::chunk::lines_for;
use crate::chunk::OpCode;
use crate::chunk::Program;
use crate::chunk::MAX_CONSTANTS;
use crate::scanner::lemma_scan_advances;
use crate::scanner::scan;
use crate::scanner::Lexeme;
use crate::scanner::Place;
use crate::scanner::TokenType;
use crate::text::digits;
use crate::value::Arithmetic;
use crate::value::Literals;
use crate::value::Operation;
use crate::value::Value;

verus! {


/// How tightly an operator binds, from loosest to tightest. `Lowest` is the
/// level of the tokens that are no operators: nothing binds at it.
#[derive(Clone, Copy, PartialEq, Eq, Structural, Debug)]
pub enum Precedence {
    Lowest,
    Assignment,
    Or,
    And,
    Equality,
    Comparison,
    Term,
    Factor,
    Unary,
    Call,
    Primary,
}

impl Precedence {
    /// The position of the level in the order of levels.
    pub open spec fn level(self) -> nat {
        match self {
            Precedence::Lowest => 0,
            Precedence::Assignment => 1,
            Precedence::Or => 2,
            Precedence::And => 3,
            Precedence::Equality => 4,
            Precedence::Comparison => 5,
            Precedence::Term => 6,
            Precedence::Factor => 7,
            Precedence::Unary => 8,
            Precedence::Call => 9,
            Precedence::Primary => 10,
        }
    }

    /// The level one step above this one; the highest level is its own
    /// successor.
    pub open spec fn above(self) -> Precedence {
        match self {
            Precedence::Lowest => Precedence::Assignment,
            Precedence::Assignment => Precedence::Or,
            Precedence::Or => Precedence::And,
            Precedence::And => Precedence::Equality,
            Precedence::Equality => Precedence::Comparison,
            Precedence::Comparison => Precedence::Term,
            Precedence::Term => Precedence::Factor,
            Precedence::Factor => Precedence::Unary,
            Precedence::Unary => Precedence::Call,
            Precedence::Call => Precedence::Primary,
            Precedence::Primary => Precedence::Primary,
        }
    }

    /// The position of the level in the order of levels.
    pub fn rank(self) -> (r: u8)
        ensures
            r == self.level(),
    {
        match self {
            Precedence::Lowest => 0,
            Precedence::Assignment => 1,
            Precedence::Or => 2,
            Precedence::And => 3,
            Precedence::Equality => 4,
            Precedence::Comparison => 5,
            Precedence::Term => 6,
            Precedence::Factor => 7,
            Precedence::Unary => 8,
            Precedence::Call => 9,
            Precedence::Primary => 10,
        }
    }

    /// The level one step above this one.
    pub fn next(self) -> (r: Precedence)
        ensures
            r == self.above(),
    {
        match self {
            Precedence::Lowest => Precedence::Assignment,
            Precedence::Assignment => Precedence::Or,
            Precedence::Or => Precedence::And,
            Precedence::And => Precedence::Equality,
            Precedence::Equality => Precedence::Comparison,
            Precedence::Comparison => Precedence::Term,
            Precedence::Term => Precedence::Factor,
            Precedence::Factor => Precedence::Unary,
            Precedence::Unary => Precedence::Call,
            Precedence::Call => Precedence::Primary,
            Precedence::Primary => Precedence::Primary,
        }
    }
}

/// The ways to parse at a token.
#[derive(Clone, Copy, PartialEq, Eq, Structural, Debug)]
pub enum ParseFn {
    Grouping,
    Unary,
    Binary,
    Number,
}

/// What a kind of token means to the parser: how to parse an expression
/// that starts with it, how to go on with an expression at it, and how
/// tightly it binds as an operator.
#[derive(Clone, Copy, PartialEq, Eq, Structural, Debug)]
pub struct ParseRule {
    pub prefix: Option<ParseFn>,
    pub infix: Option<ParseFn>,
    pub precedence: Precedence,
}

/// The parse rule of each kind of token.
pub open spec fn rule(kind: TokenType) -> ParseRule {
    match kind {
        TokenType::LeftParen => ParseRule {
            prefix: Some(ParseFn::Grouping),
            infix: None,
            precedence: Precedence::Lowest,
        },
        TokenType::Minus => ParseRule {
            prefix: Some(ParseFn::Unary),
            infix: Some(ParseFn::Binary),
            precedence: Precedence::Term,
        },
        TokenType::Plus => ParseRule {
            prefix: None,
            infix: Some(ParseFn::Binary),
            precedence: Precedence::Term,
        },
        TokenType::Slash => ParseRule {
            prefix: None,
            infix: Some(ParseFn::Binary),
            precedence: Precedence::Factor,
        },
        TokenType::Star => ParseRule {
            prefix: None,
            infix: Some(ParseFn::Binary),
            precedence: Precedence::Factor,
        },
        TokenType::Number => ParseRule {
            prefix: Some(ParseFn::Number),
            infix: None,
            precedence: Precedence::Lowest,
        },
        _ => ParseRule { prefix: None, infix: None, precedence: Precedence::Lowest },
    }
}

/// The parse rule of a kind of token.
pub fn get_rule(kind: TokenType) -> (r: ParseRule)
    ensures
        r == rule(kind),
{
    match kind {
        TokenType::LeftParen => ParseRule {
            prefix: Some(ParseFn::Grouping),
            infix: None,
            precedence: Precedence::Lowest,
        },
        TokenType::Minus => ParseRule {
            prefix: Some(ParseFn::Unary),
            infix: Some(ParseFn::Binary),
            precedence: Precedence::Term,
        },
        TokenType::Plus => ParseRule {
            prefix: None,
            infix: Some(ParseFn::Binary),
            precedence: Precedence::Term,
        },
        TokenType::Slash => ParseRule {
            prefix: None,
            infix: Some(ParseFn::Binary),
            precedence: Precedence::Factor,
        },
        TokenType::Star => ParseRule {
            prefix: None,
            infix: Some(ParseFn::Binary),
            precedence: Precedence::Factor,
        },
        TokenType::Number => ParseRule {
            prefix: Some(ParseFn::Number),
            infix: None,
            precedence: Precedence::Lowest,
        },
        _ => ParseRule { prefix: None, infix: None, precedence: Precedence::Lowest },
    }
}

/// The binary operators.
pub enum Operator {
    Add,
    Subtract,
    Multiply,
    Divide,
}

impl Operator {
    /// The operator that a kind of token stands for; `Add` where it stands
    /// for none.
    pub open spec fn of(kind: TokenType) -> Operator {
        match kind {
            TokenType::Minus => Operator::Subtract,
            TokenType::Slash => Operator::Divide,
            TokenType::Star => Operator::Multiply,
            _ => Operator::Add,
        }
    }

    /// The kind of token that the operator is written as.
    pub open spec fn token(self) -> TokenType {
        match self {
            Operator::Add => TokenType::Plus,
            Operator::Subtract => TokenType::Minus,
            Operator::Multiply => TokenType::Star,
            Operator::Divide => TokenType::Slash,
        }
    }

    /// How tightly the operator binds.
    pub open spec fn precedence(self) -> Precedence {
        rule(self.token()).precedence
    }

    /// The instruction that computes the operator.
    pub open spec fn opcode(self) -> OpCode {
        match self {
            Operator::Add => OpCode::Add,
            Operator::Subtract => OpCode::Subtract,
            Operator::Multiply => OpCode::Multiply,
            Operator::Divide => OpCode::Divide,
        }
    }

    /// The operation that applies the operator to `left` and `right`.
    pub open spec fn apply(self, left: Value, right: Value) -> Operation {
        match self {
            Operator::Add => Operation::Add(left, right),
            Operator::Subtract => Operation::Subtract(left, right),
            Operator::Multiply => Operation::Multiply(left, right),
            Operator::Divide => Operation::Divide(left, right),
        }
    }
}

/// An expression as the parser understands it. The compiler never builds
/// this tree: it is what the contracts speak of.
pub enum Expr {
    /// A number literal with its text and its line.
    Number { text: Seq<char>, line: nat },
    /// An expression in parentheses.
    Grouping { inner: Box<Expr> },
    /// A negation, with the line of its `-`.
    Negate { line: nat, operand: Box<Expr> },
    /// A binary operation, with the line of its operator.
    Binary { operator: Operator, line: nat, left: Box<Expr>, right: Box<Expr> },
}

impl Expr {
    /// The number of literals in the expression.
    pub open spec fn count(self) -> nat
        decreases self,
    {
        match self {
            Expr::Number { .. } => 1,
            Expr::Grouping { inner } => inner.count(),
            Expr::Negate { operand, .. } => operand.count(),
            Expr::Binary { left, right, .. } => left.count() + right.count(),
        }
    }

    /// The texts of the literals in the expression, from left to right.
    pub open spec fn literals(self) -> Seq<Seq<char>>
        decreases self,
    {
        match self {
            Expr::Number { text, .. } => seq![text],
            Expr::Grouping { inner } => inner.literals(),
            Expr::Negate { operand, .. } => operand.literals(),
            Expr::Binary { left, right, .. } => left.literals() + right.literals(),
        }
    }

    /// The value of the expression: operands are evaluated from left to
    /// right and handed to each operation in that order.
    pub open spec fn value(self, lit: Literals, arith: Arithmetic) -> Value
        decreases self,
    {
        match self {
            Expr::Number { text, .. } => lit(text),
            Expr::Grouping { inner } => inner.value(lit, arith),
            Expr::Negate { operand, .. } => arith(Operation::Negate(operand.value(lit, arith))),
            Expr::Binary { operator, left, right, .. } => arith(
                operator.apply(left.value(lit, arith), right.value(lit, arith)),
            ),
        }
    }

    /// The code of the expression where the pool holds `pool` constants
    /// before it: the code of the operands from left to right, then the
    /// operator. It leaves the value of the expression on the stack.
    pub open spec fn code(self, pool: nat) -> Seq<u8>
        decreases self,
    {
        match self {
            Expr::Number { .. } => Program::load(pool),
            Expr::Grouping { inner } => inner.code(pool),
            Expr::Negate { operand, .. } => operand.code(pool).push(OpCode::Negate.byte()),
            Expr::Binary { operator, left, right, .. } => (left.code(pool) + right.code(
                pool + left.count(),
            )).push(operator.opcode().byte()),
        }
    }

    /// The source line of each byte of the code of the expression.
    pub open spec fn lines(self, pool: nat) -> Seq<usize>
        decreases self,
    {
        match self {
            Expr::Number { line, .. } => lines_for(Program::load(pool), line as usize),
            Expr::Grouping { inner } => inner.lines(pool),
            Expr::Negate { line, operand } => operand.lines(pool).push(line as usize),
            Expr::Binary { line, left, right, .. } => (left.lines(pool) + right.lines(
                pool + left.count(),
            )).push(line as usize),
        }
    }

    /// The number of tokens that the expression is written with.
    pub open spec fn size(self) -> nat
        decreases self,
    {
        match self {
            Expr::Number { .. } => 1,
            Expr::Grouping { inner } => inner.size() + 2,
            Expr::Negate { operand, .. } => operand.size() + 1,
            Expr::Binary { left, right, .. } => left.size() + 1 + right.size(),
        }
    }

    /// How tightly the expression holds together: as its operator binds,
    /// and a number or an expression in parentheses as tightly as can be.
    pub open spec fn binds(self) -> Precedence {
        match self {
            Expr::Number { .. } => Precedence::Primary,
            Expr::Grouping { .. } => Precedence::Primary,
            Expr::Negate { .. } => Precedence::Unary,
            Expr::Binary { operator, .. } => operator.precedence(),
        }
    }

    /// The expression is grouped as precedence and associativity ask:
    /// without parentheses, the operand of a negation binds as tightly as
    /// negation does, the left operand of a binary operator at least as
    /// tightly as the operator, and its right operand more tightly.
    pub open spec fn shaped(self) -> bool
        decreases self,
    {
        match self {
            Expr::Number { .. } => true,
            Expr::Grouping { inner } => inner.shaped(),
            Expr::Negate { operand, .. } => operand.shaped() && operand.binds().level()
                >= Precedence::Unary.level(),
            Expr::Binary { operator, left, right, .. } => {
                &&& left.shaped()
                &&& right.shaped()
                &&& left.binds().level() >= operator.precedence().level()
                &&& right.binds().level() > operator.precedence().level()
            },
        }
    }

    /// The stack space that the code of the expression needs.
    pub open spec fn depth(self) -> nat
        decreases self,
    {
        match self {
            Expr::Number { .. } => 1,
            Expr::Grouping { inner } => inner.depth(),
            Expr::Negate { operand, .. } => operand.depth(),
            Expr::Binary { left, right, .. } => if left.depth() >= right.depth() + 1 {
                left.depth()
            } else {
                right.depth() + 1
            },
        }
    }
}

/// Where in the source a compile error was found.
pub enum Spot {
    /// At a piece of text that is no token.
    Nowhere,
    /// At the end of the source.
    End,
    /// At the token with this text.
    Text(Seq<char>),
}

/// What an error report says.
pub struct Diagnostic {
    pub line: nat,
    pub spot: Spot,
    pub message: Seq<char>,
}

/// The diagnostic `message` at token `token`.
pub open spec fn error_at(token: Lexeme, message: Seq<char>) -> Diagnostic {
    Diagnostic {
        line: token.line,
        spot: match token.kind {
            TokenType::Eof => Spot::End,
            TokenType::Error => Spot::Nowhere,
            _ => Spot::Text(token.text),
        },
        message,
    }
}

/// The parser's window on the source: the token it has just passed, the
/// token it looks at, and the position after that.
pub struct Cursor {
    pub previous: Lexeme,
    pub current: Lexeme,
    pub next: Place,
}

/// An expression that was parsed, and the window after it.
pub struct Parsed {
    pub expr: Expr,
    pub cursor: Cursor,
}

impl Cursor {
    /// The window before the first token.
    pub open spec fn initial() -> Cursor {
        let blank = Lexeme { kind: TokenType::Error, text: Seq::empty(), line: 0 };
        Cursor { previous: blank, current: blank, next: Place::origin() }
    }

    /// A bound on the tokens that are left, `Eof` not counted: none when
    /// the parser looks at `Eof`, and else one more than the characters
    /// after the window.
    pub open spec fn left(self, s: Seq<char>) -> nat {
        if self.current.kind == TokenType::Eof {
            0
        } else if self.next.at <= s.len() {
            (1 + s.len() - self.next.at) as nat
        } else {
            1
        }
    }

    /// The window moved on by one token, whatever the scanner gives.
    pub open spec fn shift(self, s: Seq<char>) -> Cursor {
        let scanned = scan(s, self.next);
        Cursor { previous: self.current, current: scanned.token, next: scanned.next }
    }

    /// The window moved on by `n` tokens.
    pub open spec fn shifted(self, s: Seq<char>, n: nat) -> Cursor
        decreases n,
    {
        if n == 0 {
            self
        } else {
            self.shift(s).shifted(s, (n - 1) as nat)
        }
    }

    /// The window moved on by one token, or the diagnostic that the
    /// scanner gave in place of a token.
    pub open spec fn advance(self, s: Seq<char>) -> Result<Cursor, Diagnostic> {
        let moved = self.shift(s);
        if moved.current.kind == TokenType::Error {
            Err(error_at(moved.current, moved.current.text))
        } else {
            Ok(moved)
        }
    }

    /// The window moved past a token of kind `kind`, or the diagnostic
    /// `message` where the parser looks at another kind.
    pub open spec fn consume(self, s: Seq<char>, kind: TokenType, message: Seq<char>) -> Result<
        Cursor,
        Diagnostic,
    > {
        if self.current.kind == kind {
            self.advance(s)
        } else {
            Err(error_at(self.current, message))
        }
    }
}

/// Moving on from a token other than `Eof` leaves fewer tokens, and at the
/// end of the source the window stays at `Eof`.
pub proof fn lemma_advance(s: Seq<char>, c: Cursor)
    ensures
        c.advance(s) matches Ok(d) ==> {
            &&& d.previous == c.current
            &&& c.current.kind != TokenType::Eof ==> d.left(s) < c.left(s)
            &&& c.next.at >= s.len() ==> d.current.kind == TokenType::Eof && d.next == c.next
            &&& d.current.kind == TokenType::Eof ==> d.next.at >= s.len()
        },
{
    lemma_scan_advances(s, c.next);
}

/// The number literal that the window has just passed. `pool` is the
/// number of constants before it: one more than the format can address is
/// an error.
pub open spec fn number(c: Cursor, pool: nat) -> Result<Parsed, Diagnostic> {
    if pool > MAX_CONSTANTS {
        Err(error_at(c.previous, "Too many constants in one chunk"@))
    } else {
        Ok(
            Parsed {
                expr: Expr::Number { text: c.previous.text, line: c.previous.line },
                cursor: c,
            },
        )
    }
}

/// The expression in parentheses whose `(` the window has just passed.
pub open spec fn grouping(s: Seq<char>, c: Cursor, pool: nat) -> Result<Parsed, Diagnostic>
    decreases c.left(s), 2nat,
{
    match parse_precedence(s, c, Precedence::Assignment, pool) {
        Err(d) => Err(d),
        Ok(inner) => match inner.cursor.consume(
            s,
            TokenType::RightParen,
            "Expect ')' after expression"@,
        ) {
            Err(d) => Err(d),
            Ok(after) => Ok(
                Parsed { expr: Expr::Grouping { inner: Box::new(inner.expr) }, cursor: after },
            ),
        },
    }
}

/// The negation whose `-` the window has just passed: its operand is made
/// of operators that bind at least as tightly as negation.
pub open spec fn unary(s: Seq<char>, c: Cursor, pool: nat) -> Result<Parsed, Diagnostic>
    decreases c.left(s), 2nat,
{
    match parse_precedence(s, c, Precedence::Unary, pool) {
        Err(d) => Err(d),
        Ok(operand) => Ok(
            Parsed {
                expr: Expr::Negate { line: c.previous.line, operand: Box::new(operand.expr) },
                cursor: operand.cursor,
            },
        ),
    }
}

/// The binary operation on `left` whose operator the window has just
/// passed: its right operand is made of operators that bind more tightly
/// than the operator, so that operators of one level group from the left.
pub open spec fn binary(s: Seq<char>, c: Cursor, left: Expr, pool: nat) -> Result<
    Parsed,
    Diagnostic,
>
    decreases c.left(s), 2nat,
{
    match parse_precedence(
        s,
        c,
        rule(c.previous.kind).precedence.above(),
        pool + left.count(),
    ) {
        Err(d) => Err(d),
        Ok(right) => Ok(
            Parsed {
                expr: Expr::Binary {
                    operator: Operator::of(c.previous.kind),
                    line: c.previous.line,
                    left: Box::new(left),
                    right: Box::new(right.expr),
                },
                cursor: right.cursor,
            },
        ),
    }
}

/// An expression that starts at the token the window looks at: a number,
/// an expression in parentheses or a negation. Any other token is the
/// error "Expect expression". `pool` is the number of constants before the
/// expression.
pub open spec fn prefix(s: Seq<char>, c: Cursor, pool: nat) -> Result<Parsed, Diagnostic>
    decreases c.left(s), 0nat,
{
    match c.advance(s) {
        Err(d) => Err(d),
        Ok(c1) => {
            proof {
                lemma_advance(s, c);
            }
            match rule(c1.previous.kind).prefix {
                Some(ParseFn::Number) => number(c1, pool),
                Some(ParseFn::Grouping) => grouping(s, c1, pool),
                Some(ParseFn::Unary) => unary(s, c1, pool),
                _ => Err(error_at(c1.previous, "Expect expression"@)),
            }
        },
    }
}

/// An expression of operators that bind at least as tightly as `min`:
/// what starts at the token the window looks at, continued over every
/// such operator that follows.
pub open spec fn parse_precedence(s: Seq<char>, c: Cursor, min: Precedence, pool: nat) -> Result<
    Parsed,
    Diagnostic,
>
    decreases c.left(s), 1nat,
{
    match prefix(s, c, pool) {
        Err(d) => Err(d),
        Ok(first) => if first.cursor.left(s) < c.left(s) {
            infix(s, first.cursor, min, first.expr, pool)
        } else {
            Ok(first)
        },
    }
}

/// A token of kind `kind` continues an expression of level `min`: it is a
/// binary operator that binds at least that tightly.
pub open spec fn continues(kind: TokenType, min: nat) -> bool {
    rule(kind).infix == Some(ParseFn::Binary) && rule(kind).precedence.level() >= min
}

/// The expression `left` continued over the binary operators that follow
/// it and bind at least as tightly as `min`.
///
/// Here and in [`parse_precedence`], the test on what is left only shows
/// that the definition is well founded: it always holds
/// ([`lemma_parse_moves`]).
pub open spec fn infix(s: Seq<char>, c: Cursor, min: Precedence, left: Expr, pool: nat) -> Result<
    Parsed,
    Diagnostic,
>
    decreases c.left(s), 0nat,
{
    if continues(c.current.kind, min.level()) {
        match c.advance(s) {
            Err(d) => Err(d),
            Ok(c1) => {
                proof {
                    lemma_advance(s, c);
                }
                match binary(s, c1, left, pool) {
                    Err(d) => Err(d),
                    Ok(whole) => if whole.cursor.left(s) < c.left(s) {
                        infix(s, whole.cursor, min, whole.expr, pool)
                    } else {
                        Ok(whole)
                    },
                }
            },
        }
    } else {
        Ok(Parsed { expr: left, cursor: c })
    }
}

/// What holds of an expression that was parsed from window `c` with
/// `pool` constants before it: the parser has moved forwards, and the
/// constants of the expression have indices that the format can address.
pub open spec fn moved(
    s: Seq<char>,
    c: Cursor,
    pool: nat,
    outcome: Result<Parsed, Diagnostic>,
) -> bool {
    outcome matches Ok(parsed) ==> {
        &&& parsed.cursor.left(s) < c.left(s)
        &&& pool + parsed.expr.count() <= MAX_CONSTANTS + 1
    }
}

/// Like [`moved`], for a parse that may leave the window where it is.
pub open spec fn stayed(
    s: Seq<char>,
    c: Cursor,
    pool: nat,
    outcome: Result<Parsed, Diagnostic>,
) -> bool {
    outcome matches Ok(parsed) ==> {
        &&& parsed.cursor.left(s) <= c.left(s)
        &&& pool + parsed.expr.count() <= MAX_CONSTANTS + 1
    }
}

/// Parsing an expression moves the window forwards, so that the tests on
/// what is left in [`parse_precedence`] and [`infix`] always hold.
pub proof fn lemma_parse_moves(s: Seq<char>, c: Cursor, min: Precedence, pool: nat)
    ensures
        moved(s, c, pool, parse_precedence(s, c, min, pool)),
    decreases c.left(s), 1nat,
{
    lemma_prefix_moves(s, c, pool);
    if let Ok(first) = prefix(s, c, pool) {
        lemma_infix_moves(s, first.cursor, min, first.expr, pool);
    }
}

/// Parsing what starts an expression moves the window forwards.
pub proof fn lemma_prefix_moves(s: Seq<char>, c: Cursor, pool: nat)
    ensures
        moved(s, c, pool, prefix(s, c, pool)),
    decreases c.left(s), 0nat,
{
    lemma_advance(s, c);
    if let Ok(c1) = c.advance(s) {
        match rule(c1.previous.kind).prefix {
            Some(ParseFn::Grouping) => {
                lemma_parse_moves(s, c1, Precedence::Assignment, pool);
                if let Ok(inner) = parse_precedence(s, c1, Precedence::Assignment, pool) {
                    lemma_advance(s, inner.cursor);
                }
            },
            Some(ParseFn::Unary) => {
                lemma_parse_moves(s, c1, Precedence::Unary, pool);
            },
            _ => {},
        }
    }
}

/// Parsing the operators after an expression does not move the window
/// backwards.
pub proof fn lemma_infix_moves(s: Seq<char>, c: Cursor, min: Precedence, left: Expr, pool: nat)
    requires
        pool + left.count() <= MAX_CONSTANTS + 1,
    ensures
        stayed(s, c, pool, infix(s, c, min, left, pool)),
    decreases c.left(s), 0nat,
{
    if continues(c.current.kind, min.level()) {
        lemma_advance(s, c);
        if let Ok(c1) = c.advance(s) {
            lemma_parse_moves(
                s,
                c1,
                rule(c.current.kind).precedence.above(),
                pool + left.count(),
            );
            if let Ok(whole) = binary(s, c1, left, pool) {
                lemma_infix_moves(s, whole.cursor, min, whole.expr, pool);
            }
        }
    }
}

/// The expression that source `s` is, with the window after its end, or
/// the first error in it: the source is one expression and nothing more.
pub open spec fn parse(s: Seq<char>) -> Result<Parsed, Diagnostic> {
    match Cursor::initial().advance(s) {
        Err(d) => Err(d),
        Ok(c) => match parse_precedence(s, c, Precedence::Assignment, 0) {
            Err(d) => Err(d),
            Ok(parsed) => match parsed.cursor.consume(
                s,
                TokenType::Eof,
                "Expect end of expression"@,
            ) {
                Err(d) => Err(d),
                Ok(end) => Ok(Parsed { expr: parsed.expr, cursor: end }),
            },
        },
    }
}

/// The program that source `s` compiles to, or the first error in the
/// source: the code of the expression and a `Return` on the last line.
pub open spec fn compiled(s: Seq<char>, lit: Literals) -> Result<Program, Diagnostic> {
    match parse(s) {
        Err(d) => Err(d),
        Ok(parsed) => Ok(assemble(parsed.expr, parsed.cursor.previous.line, lit)),
    }
}

/// The program of expression `e`: its code, a `Return` for line `end`, and
/// the values of its literals as the pool.
pub open spec fn assemble(e: Expr, end: nat, lit: Literals) -> Program {
    Program {
        code: e.code(0).push(OpCode::Return.byte()),
        lines: e.lines(0).push(end as usize),
        constants: e.literals().map_values(lit),
    }
}

impl Diagnostic {
    /// The report as a line of text: `[line N] Error`, then ` at end` or
    /// the text of the token between ` at '` and `'` where the error has
    /// such a place, then `: ` and the message.
    pub open spec fn text(self) -> Seq<char> {
        "[line "@ + digits(self.line) + "] Error"@ + match self.spot {
            Spot::Nowhere => Seq::empty(),
            Spot::End => " at end"@,
            Spot::Text(text) => " at '"@ + text + "'"@,
        } + ": "@ + self.message
    }
}

/// The code of an expression has as many lines as bytes and at least one
/// byte; the expression has a literal, and needs room on the stack.
pub proof fn lemma_code_length(e: Expr, pool: nat)
    ensures
        e.code(pool).len() == e.lines(pool).len(),
        e.code(pool).len() > 0,
        e.count() > 0,
        e.count() == e.literals().len(),
        e.depth() > 0,
    decreases e,
{
    match e {
        Expr::Number { .. } => {},
        Expr::Grouping { inner } => {
            lemma_code_length(*inner, pool);
        },
        Expr::Negate { operand, .. } => {
            lemma_code_length(*operand, pool);
        },
        Expr::Binary { left, right, .. } => {
            lemma_code_length(*left, pool);
            lemma_code_length(*right, pool + left.count());
        },
    }
}

/// Where program `p` holds the code of expression `e` at offset `at`, and
/// its pool the constants of `e`, the code from `at` on is well formed
/// exactly when the code after the expression is.
pub proof fn lemma_code_well_formed(e: Expr, pool: nat, p: Program, at: int)
    requires
        0 <= at,
        at + e.code(pool).len() <= p.code.len(),
        p.code.subrange(at, at + e.code(pool).len()) == e.code(pool),
        pool + e.count() <= p.constants.len(),
        pool + e.count() <= MAX_CONSTANTS + 1,
    ensures
        p.well_formed_from(at) == p.well_formed_from(at + e.code(pool).len()),
    decreases e,
{
    let code = e.code(pool);
    let part = p.code.subrange(at, at + code.len());
    match e {
        Expr::Number { .. } => {
            lemma_load(p, at, pool);
        },
        Expr::Grouping { inner } => {
            lemma_code_well_formed(*inner, pool, p, at);
        },
        Expr::Negate { operand, .. } => {
            let inner = operand.code(pool);
            assert(p.code.subrange(at, at + inner.len()) =~= inner);
            lemma_code_well_formed(*operand, pool, p, at);
            assert(p.code[at + inner.len()] == part[inner.len() as int]);
        },
        Expr::Binary { operator, left, right, .. } => {
            let first = left.code(pool);
            let second = right.code(pool + left.count());
            lemma_code_length(*left, pool);
            lemma_code_length(*right, pool + left.count());
            assert(p.code.subrange(at, at + first.len()) =~= first);
            assert forall|j: int| 0 <= j < second.len() implies p.code[at + first.len() + j]
                == second[j] by {
                assert(p.code[at + first.len() + j] == part[first.len() + j]);
            }
            assert(p.code.subrange(at + first.len(), at + first.len() + second.len()) =~= second);
            lemma_code_well_formed(*left, pool, p, at);
            lemma_code_well_formed(*right, pool + left.count(), p, at + first.len());
            assert(p.code[at + first.len() + second.len()] == part[(first.len()
                + second.len()) as int]);
        },
    }
}

/// The program of an expression is well formed and ends with `Return`.
pub proof fn lemma_assembled_finished(e: Expr, p: Program, line: usize)
    requires
        e.count() <= MAX_CONSTANTS + 1,
        p.code == e.code(0).push(OpCode::Return.byte()),
        p.lines == e.lines(0).push(line),
        p.constants.len() == e.count(),
    ensures
        p.finished(),
{
    lemma_code_length(e, 0);
    let n = e.code(0).len() as int;
    let short = Program { code: p.code.drop_last(), lines: p.lines.drop_last(), ..p };
    assert(p.code.subrange(0, n) =~= e.code(0));
    assert(short.code.subrange(0, n) =~= e.code(0));
    lemma_code_well_formed(e, 0, p, 0);
    lemma_code_well_formed(e, 0, short, 0);
    assert(p.well_formed_from(n + 1));
}

} // verus!
