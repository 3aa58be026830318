//! The single-pass compiler: a Pratt parser that writes bytecode as it
//! parses, without building a syntax tree.
use vstd::prelude::*;
use vstd::string::StringExecFns;
use crate::chunk::Chunk;
use crate::chunk::OpCode;
use crate::chunk::Program;
use crate::chunk::MAX_CONSTANTS;
use crate::grammar;
use crate::grammar::assemble;
use crate::grammar::binary;
use crate::grammar::error_at;
use crate::grammar::get_rule;
use crate::grammar::grouping;
use crate::grammar::infix;
use crate::grammar::lemma_assembled_finished;
use crate::grammar::parse;
use crate::grammar::parse_precedence;
use crate::grammar::prefix;
use crate::grammar::rule;
use crate::grammar::unary;
use crate::grammar::Cursor;
use crate::grammar::Diagnostic;
use crate::grammar::Expr;
use crate::grammar::Operator;
use crate::grammar::ParseFn;
use crate::grammar::Parsed;
use crate::grammar::Precedence;
use crate::grammar::Spot;
use crate::scanner::lemma_scan_advances;
use crate::scanner::lemma_scan_number;
use crate::scanner::readable;
use crate::scanner::Lexeme;
use crate::scanner::Scanner;
use crate::scanner::Token;
use crate::scanner::TokenType;
use crate::text::push_decimal;
use crate::value::is_number_literal;
use crate::value::reads;
use crate::value::reads_all;
use crate::value::Literals;
use crate::value::Value;

verus! {

/// Where in the source a compile error was found.
#[derive(Debug, PartialEq, Eq)]
pub enum Location {
    /// At a piece of text that is no token.
    Nowhere,
    /// At the end of the source.
    End,
    /// At the token with this text.
    Text(String),
}

/// The report of a compile error.
#[derive(Debug, PartialEq, Eq)]
pub struct Report {
    pub line: usize,
    pub location: Location,
    pub message: String,
}

/// The failure of a compilation, with the errors that were reported.
#[derive(Debug)]
pub struct CompileFailed {
    pub reports: Vec<Report>,
}

impl View for Location {
    type V = Spot;

    open spec fn view(&self) -> Spot {
        match *self {
            Location::Nowhere => Spot::Nowhere,
            Location::End => Spot::End,
            Location::Text(text) => Spot::Text(text@),
        }
    }
}

impl View for Report {
    type V = Diagnostic;

    open spec fn view(&self) -> Diagnostic {
        Diagnostic { line: self.line as nat, spot: self.location@, message: self.message@ }
    }
}

impl Report {
    /// The report as a line of text.
    pub fn render(&self) -> (line: String)
        ensures
            line@ == self@.text(),
    {
        let mut line = String::from_str("[line ");
        push_decimal(&mut line, self.line);
        line.append("] Error");
        match &self.location {
            Location::Nowhere => {
            },
            Location::End => {
                line.append(" at end");
            },
            Location::Text(text) => {
                line.append(" at '");
                line.append(text.as_str());
                line.append("'");
            },
        }
        line.append(": ");
        line.append(self.message.as_str());
        line
    }
}

/// A number token has the text of a number literal.
spec fn sound(token: Lexeme) -> bool {
    token.kind == TokenType::Number ==> is_number_literal(token.text)
}

/// Program `after` is program `before` with the code of expression `e`
/// written to it, and with the values that `number` gave for the literals
/// of `e` added to the pool.
spec fn emitted<N: Fn(&str) -> Value>(
    before: Program,
    after: Program,
    e: Expr,
    number: N,
) -> bool {
    &&& after.code == before.code + e.code(before.constants.len())
    &&& after.lines == before.lines + e.lines(before.constants.len())
    &&& after.constants.len() == before.constants.len() + e.count()
    &&& forall|g: Literals| #[trigger]
        reads(number, g) ==> after.constants == before.constants + e.literals().map_values(g)
}

/// The report of `message` at `token`.
fn describe(token: &Token, message: &str) -> (report: Report)
    ensures
        report@ == error_at(token@, message@),
{
    let location = match token.token_type() {
        TokenType::Eof => Location::End,
        TokenType::Error => Location::Nowhere,
        _ => Location::Text(String::from_str(token.text())),
    };
    Report { line: token.line(), location, message: String::from_str(message) }
}

/// The state of one compilation: the scanner, a window of two tokens on
/// its output, the error flags with the reports so far, and the chunk
/// being written.
struct Parser {
    scanner: Scanner,
    previous: Token,
    current: Token,
    had_error: bool,
    panic_mode: bool,
    reports: Vec<Report>,
    chunk: Chunk,
}

impl Parser {
    spec fn source(&self) -> Seq<char> {
        self.scanner.source()
    }

    spec fn cursor(&self) -> Cursor {
        Cursor { previous: self.previous@, current: self.current@, next: self.scanner.place() }
    }

    spec fn left(&self) -> nat {
        self.cursor().left(self.source())
    }

    spec fn pool(&self) -> nat {
        self.chunk@.constants.len()
    }

    /// The parts are well formed, `Eof` is the current token only at the
    /// end of the source, and the flags say what the reports say: there is
    /// one report once there was an error, and none before.
    spec fn wf(&self) -> bool {
        &&& self.scanner.wf()
        &&& self.previous.wf() && self.current.wf()
        &&& sound(self.previous@) && sound(self.current@)
        &&& self.current@.kind == TokenType::Eof ==> self.scanner.place().at >= self.source().len()
        &&& self.had_error == self.panic_mode
        &&& self.had_error <==> self.reports.len() == 1
        &&& self.reports.len() <= 1
        &&& self.chunk.constants.len() <= MAX_CONSTANTS + 1
    }

    /// The one report is `d`.
    spec fn failed(&self, d: Diagnostic) -> bool {
        self.had_error && self.reports.len() == 1 && self.reports[0]@ == d
    }

    /// State `self` came about from state `old` as `outcome` says: with
    /// the window after the expression and its code added to `base`, or
    /// with the report of the error. After an error nothing more is
    /// reported.
    spec fn follows<N: Fn(&str) -> Value>(
        &self,
        old: &Parser,
        outcome: Result<Parsed, Diagnostic>,
        base: Program,
        number: N,
    ) -> bool {
        &&& self.wf()
        &&& self.source() == old.source()
        &&& if old.had_error {
            self.had_error && self.reports == old.reports
        } else {
            match outcome {
                Ok(parsed) => {
                    &&& !self.had_error
                    &&& self.cursor() == parsed.cursor
                    &&& emitted(base, self.chunk@, parsed.expr, number)
                },
                Err(d) => self.failed(d),
            }
        }
    }

    /// A parser at the start of `source`, with an empty chunk.
    fn new(source: String) -> (parser: Parser)
        ensures
            parser.wf(),
            parser.source() == readable(source@),
            parser.cursor() == Cursor::initial(),
            !parser.had_error,
            parser.chunk@ == Program::empty(),
    {
        Parser {
            scanner: Scanner::new(source),
            previous: Token::Error { message: String::new(), line: 0 },
            current: Token::Error { message: String::new(), line: 0 },
            had_error: false,
            panic_mode: false,
            reports: Vec::new(),
            chunk: Chunk::new(),
        }
    }

    /// Reports an error, unless one was reported before: the first error
    /// puts the parser in panic mode, in which every later error is
    /// swallowed.
    fn report(&mut self, report: Report)
        requires
            old(self).wf(),
        ensures
            final(self).wf(),
            final(self).had_error,
            *final(self) == (Parser {
                had_error: true,
                panic_mode: true,
                reports: final(self).reports,
                ..*old(self)
            }),
            old(self).had_error ==> final(self).reports == old(self).reports,
            !old(self).had_error ==> final(self).reports@ == seq![report],
    {
        if self.panic_mode {
            return ;
        }
        self.panic_mode = true;
        self.had_error = true;
        self.reports.push(report);
    }

    /// Reports `message` at the token that the parser looks at.
    fn error_at_current(&mut self, message: &str)
        requires
            old(self).wf(),
        ensures
            final(self).wf(),
            final(self).had_error,
            *final(self) == (Parser {
                had_error: true,
                panic_mode: true,
                reports: final(self).reports,
                ..*old(self)
            }),
            old(self).had_error ==> final(self).reports == old(self).reports,
            !old(self).had_error ==> final(self).failed(error_at(old(self).current@, message@)),
    {
        let report = describe(&self.current, message);
        self.report(report);
    }

    /// Reports `message` at the token that the parser has just passed.
    fn error(&mut self, message: &str)
        requires
            old(self).wf(),
        ensures
            final(self).wf(),
            final(self).had_error,
            *final(self) == (Parser {
                had_error: true,
                panic_mode: true,
                reports: final(self).reports,
                ..*old(self)
            }),
            old(self).had_error ==> final(self).reports == old(self).reports,
            !old(self).had_error ==> final(self).failed(error_at(old(self).previous@, message@)),
    {
        let report = describe(&self.previous, message);
        self.report(report);
    }

    /// Moves the window on by one token. A diagnostic from the scanner is
    /// reported and passed over.
    fn advance(&mut self)
        requires
            old(self).wf(),
        ensures
            final(self).wf(),
            final(self).source() == old(self).source(),
            final(self).chunk == old(self).chunk,
            final(self).previous == old(self).current,
            final(self).left() <= old(self).left(),
            old(self).current@.kind != TokenType::Eof ==> final(self).left() < old(self).left(),
            old(self).had_error ==> final(self).had_error && final(self).reports
                == old(self).reports,
            !old(self).had_error ==> match old(self).cursor().advance(old(self).source()) {
                Ok(c) => !final(self).had_error && final(self).cursor() == c,
                Err(d) => final(self).failed(d),
            },
    {
        let ghost s = self.source();
        proof {
            self.scanner.lemma_within();
            lemma_scan_advances(s, self.scanner.place());
            lemma_scan_number(s, self.scanner.place());
        }
        let mut token = self.scanner.scan_token();
        proof {
            self.scanner.lemma_within();
        }
        while token.token_type() == TokenType::Error
            invariant
                self.wf(),
                token.wf(),
                sound(token@),
                s == self.source(),
                self.previous == old(self).previous,
                self.current == old(self).current,
                self.chunk == old(self).chunk,
                old(self).scanner.place().at <= self.scanner.place().at <= s.len(),
                token@.kind != TokenType::Eof ==> old(self).scanner.place().at
                    < self.scanner.place().at,
                token@.kind == TokenType::Eof ==> self.scanner.place().at >= s.len(),
                old(self).had_error ==> self.had_error && self.reports == old(self).reports,
                !old(self).had_error ==> match old(self).cursor().advance(s) {
                    Ok(c) => !self.had_error && c.current == token@ && c.next
                        == self.scanner.place(),
                    Err(d) => if self.had_error {
                        self.failed(d)
                    } else {
                        token@.kind == TokenType::Error && d == error_at(token@, token@.text)
                    },
                },
            decreases
                    s.len() - self.scanner.place().at + if token@.kind == TokenType::Error {
                        1int
                    } else {
                        0int
                    },
        {
            let report = describe(&token, token.text());
            self.report(report);
            proof {
                lemma_scan_advances(s, self.scanner.place());
                lemma_scan_number(s, self.scanner.place());
            }
            token = self.scanner.scan_token();
            proof {
                self.scanner.lemma_within();
            }
        }
        std::mem::swap(&mut self.current, &mut token);
        self.previous = token;
    }

    /// Moves past a token of kind `kind`, or reports `message` where the
    /// parser looks at another kind.
    fn consume(&mut self, kind: TokenType, message: &str)
        requires
            old(self).wf(),
        ensures
            final(self).wf(),
            final(self).source() == old(self).source(),
            final(self).chunk == old(self).chunk,
            final(self).left() <= old(self).left(),
            old(self).had_error ==> final(self).had_error && final(self).reports
                == old(self).reports,
            !old(self).had_error ==> match old(self).cursor().consume(
                old(self).source(),
                kind,
                message@,
            ) {
                Ok(c) => !final(self).had_error && final(self).cursor() == c,
                Err(d) => final(self).failed(d),
            },
    {
        if self.current.token_type() == kind {
            self.advance();
            return ;
        }
        self.error_at_current(message);
    }

    /// Writes one byte of code for line `line`. After an error no more
    /// code is written.
    fn emit_byte(&mut self, byte: u8, line: usize)
        requires
            old(self).wf(),
        ensures
            final(self).wf(),
            *final(self) == (Parser { chunk: final(self).chunk, ..*old(self) }),
            final(self).chunk@ == if old(self).had_error {
                old(self).chunk@
            } else {
                old(self).chunk@.write(byte, line)
            },
    {
        if !self.had_error {
            self.chunk.write(byte, line);
        }
    }

    /// Compiles the number literal that the parser has just passed: its
    /// value, as `number` reads it, goes to the pool, and the instruction
    /// that loads it is written.
    fn number<N: Fn(&str) -> Value>(&mut self, number: &N)
        requires
            old(self).wf(),
            old(self).previous@.kind == TokenType::Number,
            reads_all(*number),
        ensures
            final(self).follows(
                old(self),
                grammar::number(old(self).cursor(), old(self).pool()),
                old(self).chunk@,
                *number,
            ),
            final(self).cursor() == old(self).cursor(),
    {
        if self.had_error {
            return ;
        }
        if self.chunk.constants.len() > MAX_CONSTANTS {
            self.error("Too many constants in one chunk");
            return ;
        }
        let value = number(self.previous.text());
        let line = self.previous.line();
        proof {
            lemma_emitted_number(self.chunk@, value, self.previous@, *number);
        }
        self.chunk.write_constant(value, line);
    }

    /// Compiles the expression in parentheses whose `(` the parser has
    /// just passed.
    fn grouping<N: Fn(&str) -> Value>(&mut self, number: &N)
        requires
            old(self).wf(),
            reads_all(*number),
        ensures
            final(self).follows(
                old(self),
                grammar::grouping(old(self).source(), old(self).cursor(), old(self).pool()),
                old(self).chunk@,
                *number,
            ),
            final(self).left() <= old(self).left(),
        decreases old(self).left(), 3nat,
    {
        self.expression(number);
        self.consume(TokenType::RightParen, "Expect ')' after expression");
    }

    /// Compiles the negation whose `-` the parser has just passed: the
    /// operand first, then the instruction.
    fn unary<N: Fn(&str) -> Value>(&mut self, number: &N)
        requires
            old(self).wf(),
            reads_all(*number),
            old(self).previous@.kind == TokenType::Minus,
        ensures
            final(self).follows(
                old(self),
                grammar::unary(old(self).source(), old(self).cursor(), old(self).pool()),
                old(self).chunk@,
                *number,
            ),
            final(self).left() <= old(self).left(),
        decreases old(self).left(), 2nat,
    {
        let operator_type = self.previous.token_type();
        let line = self.previous.line();
        // Compile the operand.
        self.parse_precedence(Precedence::Unary, number);
        // Emit the operator instruction.
        match operator_type {
            TokenType::Minus => self.emit_byte(OpCode::Negate.into(), line),
            // No other token has this rule.
            _ => {},
        }
    }

    /// Compiles the binary operation whose operator the parser has just
    /// passed and whose left operand `left` is compiled: the right operand
    /// first, then the instruction.
    fn binary<N: Fn(&str) -> Value>(
        &mut self,
        number: &N,
        Ghost(left): Ghost<Expr>,
        Ghost(base): Ghost<Program>,
    )
        requires
            old(self).wf(),
            reads_all(*number),
            rule(old(self).previous@.kind).infix == Some(ParseFn::Binary),
            !old(self).had_error ==> emitted(base, old(self).chunk@, left, *number),
        ensures
            final(self).follows(
                old(self),
                grammar::binary(old(self).source(), old(self).cursor(), left, base.constants.len()),
                base,
                *number,
            ),
            final(self).left() <= old(self).left(),
        decreases old(self).left(), 2nat,
    {
        let operator_type = self.previous.token_type();
        let line = self.previous.line();
        let rule = get_rule(operator_type);
        let ghost mid = self.chunk@;
        self.parse_precedence(rule.precedence.next(), number);
        let ghost last = self.chunk@;
        match operator_type {
            TokenType::Plus => self.emit_byte(OpCode::Add.into(), line),
            TokenType::Minus => self.emit_byte(OpCode::Subtract.into(), line),
            TokenType::Star => self.emit_byte(OpCode::Multiply.into(), line),
            TokenType::Slash => self.emit_byte(OpCode::Divide.into(), line),
            // No other token has this rule.
            _ => {},
        }
        proof {
            if !self.had_error {
                let right = parse_precedence(
                    old(self).source(),
                    old(self).cursor(),
                    rule.precedence.above(),
                    mid.constants.len(),
                )->Ok_0;
                lemma_emitted_binary(
                    base,
                    mid,
                    last,
                    left,
                    right.expr,
                    old(self).previous@,
                    *number,
                );
            }
        }
    }

    /// Compiles an expression of operators that bind at least as tightly
    /// as `precedence`: what starts at the current token, then every such
    /// operator with its right operand.
    fn parse_precedence<N: Fn(&str) -> Value>(&mut self, precedence: Precedence, number: &N)
        requires
            old(self).wf(),
            reads_all(*number),
            precedence.level() >= 1,
        ensures
            final(self).follows(
                old(self),
                grammar::parse_precedence(
                    old(self).source(),
                    old(self).cursor(),
                    precedence,
                    old(self).pool(),
                ),
                old(self).chunk@,
                *number,
            ),
            final(self).left() <= old(self).left(),
            old(self).current@.kind != TokenType::Eof ==> final(self).left() < old(self).left(),
        decreases old(self).left(), 1nat,
    {
        let ghost s = self.source();
        let ghost c0 = self.cursor();
        let ghost base = self.chunk@;
        let ghost pool = self.pool();
        self.advance();
        match get_rule(self.previous.token_type()).prefix {
            Some(ParseFn::Number) => self.number(number),
            Some(ParseFn::Grouping) => self.grouping(number),
            Some(ParseFn::Unary) => self.unary(number),
            _ => {
                self.error("Expect expression");
                return ;
            },
        }
        let ghost mut left: Expr = match prefix(s, c0, pool) {
            Ok(first) => first.expr,
            Err(_) => arbitrary(),
        };
        while get_rule(self.current.token_type()).precedence.rank() >= precedence.rank()
            invariant
                self.wf(),
                reads_all(*number),
                precedence.level() >= 1,
                s == self.source(),
                s == old(self).source(),
                c0 == old(self).cursor(),
                base == old(self).chunk@,
                pool == base.constants.len(),
                self.left() < c0.left(s),
                old(self).had_error ==> self.had_error && self.reports == old(self).reports,
                !old(self).had_error ==> if self.had_error {
                    parse_precedence(s, c0, precedence, pool) matches Err(d) && self.failed(d)
                } else {
                    &&& emitted(base, self.chunk@, left, *number)
                    &&& infix(s, self.cursor(), precedence, left, pool) == parse_precedence(
                        s,
                        c0,
                        precedence,
                        pool,
                    )
                },
            decreases self.left(),
        {
            let ghost before = self.cursor();
            self.advance();
            match get_rule(self.previous.token_type()).infix {
                Some(ParseFn::Binary) => self.binary(number, Ghost(left), Ghost(base)),
                // A token that binds has this rule.
                _ => {},
            }
            proof {
                if !self.had_error {
                    let c1 = before.advance(s)->Ok_0;
                    left = binary(s, c1, left, pool)->Ok_0.expr;
                }
            }
        }
    }

    /// Compiles an expression.
    fn expression<N: Fn(&str) -> Value>(&mut self, number: &N)
        requires
            old(self).wf(),
            reads_all(*number),
        ensures
            final(self).follows(
                old(self),
                grammar::parse_precedence(
                    old(self).source(),
                    old(self).cursor(),
                    Precedence::Assignment,
                    old(self).pool(),
                ),
                old(self).chunk@,
                *number,
            ),
            final(self).left() <= old(self).left(),
            old(self).current@.kind != TokenType::Eof ==> final(self).left() < old(self).left(),
        decreases old(self).left(), 2nat,
    {
        self.parse_precedence(Precedence::Assignment, number);
    }
}

/// Writing the constant that `number` gave for a literal emits the literal.
proof fn lemma_emitted_number<N: Fn(&str) -> Value>(
    before: Program,
    value: Value,
    token: Lexeme,
    number: N,
)
    requires
        token.line <= usize::MAX,
        forall|g: Literals| #[trigger] reads(number, g) ==> value == g(token.text),
    ensures
        emitted(
            before,
            before.write_constant(value, token.line as usize),
            Expr::Number { text: token.text, line: token.line },
            number,
        ),
{
    let e = Expr::Number { text: token.text, line: token.line };
    let after = before.write_constant(value, token.line as usize);
    assert forall|g: Literals| #[trigger] reads(number, g) implies after.constants
        == before.constants + e.literals().map_values(g) by {
    }
}

/// Writing the operator after the code of both operands emits the binary
/// operation.
proof fn lemma_emitted_binary<N: Fn(&str) -> Value>(
    base: Program,
    mid: Program,
    last: Program,
    left: Expr,
    right: Expr,
    operator: Lexeme,
    number: N,
)
    requires
        emitted(base, mid, left, number),
        emitted(mid, last, right, number),
    ensures
        emitted(
            base,
            last.write(Operator::of(operator.kind).opcode().byte(), operator.line as usize),
            Expr::Binary {
                operator: Operator::of(operator.kind),
                line: operator.line,
                left: Box::new(left),
                right: Box::new(right),
            },
            number,
        ),
{
    let whole = Expr::Binary {
        operator: Operator::of(operator.kind),
        line: operator.line,
        left: Box::new(left),
        right: Box::new(right),
    };
    let after = last.write(Operator::of(operator.kind).opcode().byte(), operator.line as usize);
    let pool = base.constants.len();
    assert(after.code =~= base.code + whole.code(pool));
    assert(after.lines =~= base.lines + whole.lines(pool));
    assert forall|g: Literals| #[trigger] reads(number, g) implies after.constants
        == base.constants + whole.literals().map_values(g) by {
    }
}

/// Program `p` is what the parsed source compiles to: its code is the code
/// of the expression and a `Return` for the line of the end of the source,
/// and its pool holds the values that `number` gave for the literals.
pub open spec fn compiles<N: Fn(&str) -> Value>(p: Program, parsed: Parsed, number: N) -> bool {
    &&& p.code == parsed.expr.code(0).push(OpCode::Return.byte())
    &&& p.lines == parsed.expr.lines(0).push(parsed.cursor.previous.line as usize)
    &&& p.constants.len() == parsed.expr.count()
    &&& forall|g: Literals| #[trigger]
        reads(number, g) ==> p == assemble(parsed.expr, parsed.cursor.previous.line, g)
}

/// Compiles `source`, which is to be one expression, to a chunk that
/// computes the expression and returns its value. `number` reads the
/// number literals.
///
/// The compilation succeeds exactly when [`parse`] finds no error. The
/// chunk is then well formed and ends with `Return`. If not, the failure
/// holds the report of the first error, and of no other.
pub fn compile<N: Fn(&str) -> Value>(source: &str, number: &N) -> (r: Result<
    Chunk,
    CompileFailed,
>)
    requires
        reads_all(*number),
    ensures
        match parse(readable(source@)) {
            Ok(parsed) => r matches Ok(chunk) && chunk@.finished() && compiles(
                chunk@,
                parsed,
                *number,
            ),
            Err(d) => r matches Err(failure) && failure.reports.len() == 1
                && failure.reports[0]@ == d,
        },
{
    let mut parser = Parser::new(String::from_str(source));
    parser.advance();
    parser.expression(number);
    parser.consume(TokenType::Eof, "Expect end of expression");
    let r = parser.end(number);
    proof {
        if let Ok(parsed) = parse(readable(source@)) {
            let e = parsed.expr;
            let p = r->Ok_0@;
            let line = parsed.cursor.previous.line;
            lemma_assembled_finished(e, p, line as usize);
        }
    }
    r
}

impl Parser {
    /// Ends the compilation: writes the `Return`, and hands out the chunk
    /// or, after an error, the failure.
    fn end<N: Fn(&str) -> Value>(self, number: &N) -> (r: Result<Chunk, CompileFailed>)
        requires
            self.wf(),
        ensures
            match r {
                Ok(chunk) => !self.had_error && chunk@ == self.chunk@.write(
                    OpCode::Return.byte(),
                    self.previous@.line as usize,
                ),
                Err(failure) => self.had_error && failure.reports == self.reports,
            },
    {
        let mut parser = self;
        let line = parser.previous.line();
        parser.emit_byte(OpCode::Return.into(), line);
        if parser.had_error {
            Err(CompileFailed { reports: parser.reports })
        } else {
            Ok(parser.chunk)
        }
    }
}

} // verus!
