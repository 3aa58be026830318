//! What the parser finds: exactly the expressions that are written in the
//! source and grouped as precedence and associativity ask.
use vstd::prelude::*;
use crate::chunk::MAX_CONSTANTS;
use crate::grammar::binary;
use crate::grammar::continues;
use crate::grammar::infix;
use crate::grammar::lemma_advance;
use crate::grammar::lemma_parse_moves;
use crate::grammar::lemma_prefix_moves;
use crate::grammar::parse;
use crate::grammar::parse_precedence;
use crate::grammar::prefix;
use crate::grammar::rule;
use crate::grammar::Cursor;
use crate::grammar::Diagnostic;
use crate::grammar::Expr;
use crate::grammar::ParseFn;
use crate::grammar::Parsed;
use crate::grammar::Precedence;
use crate::scanner::TokenType;

verus! {

/// Expression `e` is written in source `s` from the token that window `c`
/// looks at: token by token the source has the number, the parentheses,
/// the `-` and the operators of `e`, on the lines that `e` has them on.
pub open spec fn written(e: Expr, s: Seq<char>, c: Cursor) -> bool
    decreases e,
{
    match e {
        Expr::Number { text, line } => {
            &&& c.current.kind == TokenType::Number
            &&& c.current.text == text
            &&& c.current.line == line
        },
        Expr::Grouping { inner } => {
            &&& c.current.kind == TokenType::LeftParen
            &&& written(*inner, s, c.shift(s))
            &&& c.shifted(s, 1 + inner.size()).current.kind == TokenType::RightParen
        },
        Expr::Negate { line, operand } => {
            &&& c.current.kind == TokenType::Minus
            &&& c.current.line == line
            &&& written(*operand, s, c.shift(s))
        },
        Expr::Binary { operator, line, left, right } => {
            let at = c.shifted(s, left.size());
            &&& written(*left, s, c)
            &&& at.current.kind == operator.token()
            &&& at.current.line == line
            &&& written(*right, s, at.shift(s))
        },
    }
}

/// What holds of an expression that was parsed at level `min` from window
/// `c`, with `pool` constants before it: it is written there, the window
/// after the parse is the one after its tokens, it is grouped as
/// precedence and associativity ask and binds at least as tightly as
/// `min`, no operator of level `min` follows it, and its constants have
/// indices that the format can address.
pub open spec fn derived(
    s: Seq<char>,
    c: Cursor,
    min: Precedence,
    pool: nat,
    parsed: Parsed,
) -> bool {
    &&& written(parsed.expr, s, c)
    &&& parsed.cursor == c.shifted(s, parsed.expr.size())
    &&& parsed.expr.shaped()
    &&& parsed.expr.binds().level() >= min.level()
    &&& !continues(parsed.cursor.current.kind, min.level())
    &&& parsed.cursor.current.kind != TokenType::Error
    &&& pool + parsed.expr.count() <= MAX_CONSTANTS + 1
}

/// Moving the window on by `n` tokens and then by `m` is moving it on by
/// `n + m`.
pub proof fn lemma_shifted(s: Seq<char>, c: Cursor, n: nat, m: nat)
    ensures
        c.shifted(s, n + m) == c.shifted(s, n).shifted(s, m),
    decreases n,
{
    if n > 0 {
        lemma_shifted(s, c.shift(s), (n - 1) as nat, m);
    }
}

/// Moving the window on by one token more.
pub proof fn lemma_shifted_once(s: Seq<char>, c: Cursor, n: nat)
    ensures
        c.shifted(s, n + 1) == c.shifted(s, n).shift(s),
        c.shifted(s, 1 + n) == c.shift(s).shifted(s, n),
        c.shifted(s, 1) == c.shift(s),
        c.shifted(s, 0) == c,
{
    reveal_with_fuel(Cursor::shifted, 2);
    lemma_shifted(s, c, n, 1);
}

/// An expression is written with at least one token, and its first token
/// starts an expression.
pub proof fn lemma_written_starts(e: Expr, s: Seq<char>, c: Cursor)
    requires
        written(e, s, c),
    ensures
        e.size() > 0,
        rule(c.current.kind).prefix is Some,
        c.current.kind != TokenType::Error,
        c.current.kind != TokenType::Eof,
    decreases e,
{
    match e {
        Expr::Binary { left, .. } => {
            lemma_written_starts(*left, s, c);
        },
        _ => {},
    }
}

/// Soundness: an expression that was parsed is written in the source,
/// token by token, and grouped as precedence and associativity ask.
pub proof fn lemma_parse_sound(s: Seq<char>, c: Cursor, min: Precedence, pool: nat)
    requires
        min.level() <= Precedence::Unary.level(),
    ensures
        parse_precedence(s, c, min, pool) matches Ok(parsed) ==> derived(s, c, min, pool, parsed),
    decreases c.left(s), 1nat,
{
    lemma_prefix_sound(s, c, pool);
    lemma_prefix_moves(s, c, pool);
    if let Ok(first) = prefix(s, c, pool) {
        lemma_infix_sound(s, c, first.cursor, min, first.expr, pool);
    }
}

/// What starts an expression is written in the source, binds at least as
/// tightly as negation, and is followed by a token.
pub proof fn lemma_prefix_sound(s: Seq<char>, c: Cursor, pool: nat)
    ensures
        prefix(s, c, pool) matches Ok(parsed) ==> {
            &&& written(parsed.expr, s, c)
            &&& parsed.cursor == c.shifted(s, parsed.expr.size())
            &&& parsed.expr.shaped()
            &&& parsed.expr.binds().level() >= Precedence::Unary.level()
            &&& parsed.cursor.current.kind != TokenType::Error
            &&& pool + parsed.expr.count() <= MAX_CONSTANTS + 1
        },
    decreases c.left(s), 0nat,
{
    lemma_advance(s, c);
    if let Ok(c1) = c.advance(s) {
        match rule(c1.previous.kind).prefix {
            Some(ParseFn::Number) => {
                lemma_shifted_once(s, c, 0);
            },
            Some(ParseFn::Grouping) => {
                lemma_parse_sound(s, c1, Precedence::Assignment, pool);
                if let Ok(inner) = parse_precedence(s, c1, Precedence::Assignment, pool) {
                    if let Ok(after) = inner.cursor.consume(
                        s,
                        TokenType::RightParen,
                        "Expect ')' after expression"@,
                    ) {
                        let n = inner.expr.size();
                        lemma_shifted_once(s, c, n);
                        lemma_shifted_once(s, c, n + 1);
                    }
                }
            },
            Some(ParseFn::Unary) => {
                lemma_parse_sound(s, c1, Precedence::Unary, pool);
                if let Ok(operand) = parse_precedence(s, c1, Precedence::Unary, pool) {
                    lemma_shifted_once(s, c, operand.expr.size());
                }
            },
            _ => {},
        }
    }
}

/// An expression continued over the operators that follow it is written
/// in the source from window `start`, where the expression started, and
/// stays grouped as precedence and associativity ask.
pub proof fn lemma_infix_sound(
    s: Seq<char>,
    start: Cursor,
    c: Cursor,
    min: Precedence,
    left: Expr,
    pool: nat,
)
    requires
        min.level() <= Precedence::Unary.level(),
        written(left, s, start),
        c == start.shifted(s, left.size()),
        left.shaped(),
        left.binds().level() >= min.level(),
        !continues(c.current.kind, left.binds().level() + 1),
        c.current.kind != TokenType::Error,
        pool + left.count() <= MAX_CONSTANTS + 1,
    ensures
        infix(s, c, min, left, pool) matches Ok(parsed) ==> derived(s, start, min, pool, parsed),
    decreases c.left(s), 0nat,
{
    if continues(c.current.kind, min.level()) {
        lemma_advance(s, c);
        if let Ok(c1) = c.advance(s) {
            let above = rule(c.current.kind).precedence.above();
            lemma_parse_sound(s, c1, above, pool + left.count());
            lemma_parse_moves(s, c1, above, pool + left.count());
            if let Ok(whole) = binary(s, c1, left, pool) {
                let right = parse_precedence(s, c1, above, pool + left.count())->Ok_0;
                lemma_shifted(s, start, left.size(), 1 + right.expr.size());
                lemma_shifted_once(s, c, right.expr.size());
                lemma_infix_sound(s, start, whole.cursor, min, whole.expr, pool);
            }
        }
    }
}

/// An expression that is written in the source and grouped as precedence
/// and associativity ask is what the parser finds there, at any level up
/// to the one that it binds at, before it goes on to the operators that
/// follow the expression. This holds where no operator follows that binds
/// more tightly than the expression, and no diagnostic.
pub proof fn lemma_written_parses(e: Expr, s: Seq<char>, c: Cursor, min: Precedence, pool: nat)
    requires
        written(e, s, c),
        e.shaped(),
        1 <= min.level() <= e.binds().level(),
        !continues(c.shifted(s, e.size()).current.kind, e.binds().level() + 1),
        c.shifted(s, e.size()).current.kind != TokenType::Error,
        pool + e.count() <= MAX_CONSTANTS + 1,
    ensures
        parse_precedence(s, c, min, pool) == infix(s, c.shifted(s, e.size()), min, e, pool),
    decreases e,
{
    match e {
        Expr::Number { .. } => {
            lemma_number_starts(e, s, c, pool);
        },
        Expr::Grouping { inner } => {
            let c1 = c.shift(s);
            lemma_shifted_once(s, c, inner.size());
            lemma_written_parses(*inner, s, c1, Precedence::Assignment, pool);
            lemma_grouping_starts(e, s, c, pool);
        },
        Expr::Negate { operand, .. } => {
            let c1 = c.shift(s);
            lemma_shifted_once(s, c, operand.size());
            lemma_written_parses(*operand, s, c1, Precedence::Unary, pool);
            lemma_negate_starts(e, s, c, pool);
        },
        Expr::Binary { operator, left, right, .. } => {
            let at = c.shifted(s, left.size());
            let c1 = at.shift(s);
            lemma_shifted(s, c, left.size(), 1 + right.size());
            lemma_shifted_once(s, at, right.size());
            lemma_written_parses(*left, s, c, min, pool);
            lemma_written_parses(
                *right,
                s,
                c1,
                operator.precedence().above(),
                pool + left.count(),
            );
            lemma_binary_continues(e, s, c, min, pool);
            return ;
        },
    }
    lemma_prefix_moves(s, c, pool);
}

/// A number that is written in the source is what starts an expression
/// there.
proof fn lemma_number_starts(e: Expr, s: Seq<char>, c: Cursor, pool: nat)
    requires
        e is Number,
        written(e, s, c),
        c.shifted(s, e.size()).current.kind != TokenType::Error,
        pool + e.count() <= MAX_CONSTANTS + 1,
    ensures
        prefix(s, c, pool) == Ok::<Parsed, Diagnostic>(
            Parsed { expr: e, cursor: c.shifted(s, e.size()) },
        ),
{
    lemma_shifted_once(s, c, 0);
    lemma_advance(s, c);
}

/// An expression in parentheses that is written in the source is what
/// starts an expression there, where the parser finds what is in the
/// parentheses.
proof fn lemma_grouping_starts(e: Expr, s: Seq<char>, c: Cursor, pool: nat)
    requires
        e matches Expr::Grouping { inner } && parse_precedence(
            s,
            c.shift(s),
            Precedence::Assignment,
            pool,
        ) == infix(
            s,
            c.shift(s).shifted(s, inner.size()),
            Precedence::Assignment,
            *inner,
            pool,
        ),
        written(e, s, c),
        c.shifted(s, e.size()).current.kind != TokenType::Error,
    ensures
        prefix(s, c, pool) == Ok::<Parsed, Diagnostic>(
            Parsed { expr: e, cursor: c.shifted(s, e.size()) },
        ),
{
    let inner = e->Grouping_inner;
    let c1 = c.shift(s);
    let n = inner.size();
    lemma_written_starts(*inner, s, c1);
    lemma_shifted_once(s, c, n);
    lemma_shifted_once(s, c, n + 1);
    lemma_advance(s, c);
}

/// A negation that is written in the source is what starts an expression
/// there, where the parser finds its operand.
proof fn lemma_negate_starts(e: Expr, s: Seq<char>, c: Cursor, pool: nat)
    requires
        e matches Expr::Negate { operand, .. } && parse_precedence(
            s,
            c.shift(s),
            Precedence::Unary,
            pool,
        ) == infix(s, c.shift(s).shifted(s, operand.size()), Precedence::Unary, *operand, pool),
        written(e, s, c),
    ensures
        prefix(s, c, pool) == Ok::<Parsed, Diagnostic>(
            Parsed { expr: e, cursor: c.shifted(s, e.size()) },
        ),
{
    let operand = e->Negate_operand;
    let c1 = c.shift(s);
    let n = operand.size();
    lemma_written_starts(*operand, s, c1);
    lemma_shifted_once(s, c, n);
    lemma_advance(s, c);
}

/// A binary operation that is written in the source is what the parser
/// comes to there, where it finds both operands.
proof fn lemma_binary_continues(e: Expr, s: Seq<char>, c: Cursor, min: Precedence, pool: nat)
    requires
        e matches Expr::Binary { operator, left, right, .. } && {
            let at = c.shifted(s, left.size());
            &&& parse_precedence(s, c, min, pool) == infix(s, at, min, *left, pool)
            &&& parse_precedence(
                s,
                at.shift(s),
                operator.precedence().above(),
                pool + left.count(),
            ) == infix(
                s,
                at.shift(s).shifted(s, right.size()),
                operator.precedence().above(),
                *right,
                pool + left.count(),
            )
        },
        written(e, s, c),
        e.shaped(),
        1 <= min.level() <= e.binds().level(),
        !continues(c.shifted(s, e.size()).current.kind, e.binds().level() + 1),
        pool + e.count() <= MAX_CONSTANTS + 1,
    ensures
        parse_precedence(s, c, min, pool) == infix(s, c.shifted(s, e.size()), min, e, pool),
{
    let operator = e->Binary_operator;
    let left = e->Binary_left;
    let right = e->Binary_right;
    let at = c.shifted(s, left.size());
    let c1 = at.shift(s);
    let above = operator.precedence().above();
    let after = c.shifted(s, e.size());
    lemma_written_starts(*right, s, c1);
    lemma_shifted(s, c, left.size(), 1 + right.size());
    lemma_shifted_once(s, at, right.size());
    lemma_advance(s, at);
    assert(binary(s, c1, *left, pool) == Ok::<Parsed, Diagnostic>(
        Parsed { expr: e, cursor: after },
    ));
    lemma_parse_moves(s, c1, above, pool + left.count());
}

/// Completeness: an expression that is written in the source and grouped
/// as precedence and associativity ask is what the parser finds there, at
/// any level up to the one that it binds at, where no operator of that
/// level follows it, and no diagnostic.
pub proof fn lemma_parse_complete(e: Expr, s: Seq<char>, c: Cursor, min: Precedence, pool: nat)
    requires
        written(e, s, c),
        e.shaped(),
        1 <= min.level() <= e.binds().level(),
        !continues(c.shifted(s, e.size()).current.kind, min.level()),
        c.shifted(s, e.size()).current.kind != TokenType::Error,
        pool + e.count() <= MAX_CONSTANTS + 1,
    ensures
        parse_precedence(s, c, min, pool) == Ok::<Parsed, Diagnostic>(
            Parsed { expr: e, cursor: c.shifted(s, e.size()) },
        ),
{
    lemma_written_parses(e, s, c, min, pool);
}

/// The window on the first token of a source.
pub open spec fn opening(s: Seq<char>) -> Cursor {
    Cursor::initial().shift(s)
}

/// A source parses as expression `e` exactly when `e` is written in it
/// from its first token to its end, is grouped as precedence and
/// associativity ask, and has no more constants than the format can
/// address.
pub proof fn lemma_parse_exact(s: Seq<char>, e: Expr)
    ensures
        (parse(s) matches Ok(parsed) && parsed.expr == e) <==> {
            &&& written(e, s, opening(s))
            &&& e.shaped()
            &&& opening(s).shifted(s, e.size()).current.kind == TokenType::Eof
            &&& e.count() <= MAX_CONSTANTS + 1
        },
{
    let first = opening(s);
    let end = first.shifted(s, e.size());
    if parse(s) matches Ok(parsed) && parsed.expr == e {
        lemma_parse_sound(s, first, Precedence::Assignment, 0);
    }
    if written(e, s, first) && e.shaped() && end.current.kind == TokenType::Eof && e.count()
        <= MAX_CONSTANTS + 1 {
        lemma_written_starts(e, s, first);
        lemma_parse_complete(e, s, first, Precedence::Assignment, 0);
        let before = first.shifted(s, (e.size() - 1) as nat);
        lemma_shifted_once(s, first, (e.size() - 1) as nat);
        lemma_advance(s, before);
        lemma_advance(s, end);
    }
}

} // verus!
