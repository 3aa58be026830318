use rslox::chunk::Chunk;
use rslox::compiler::compile;
use rslox::grammar::get_rule;
use rslox::compiler::CompileFailed;
use rslox::compiler::Location;
use rslox::grammar::ParseFn;
use rslox::grammar::Precedence;
use rslox::compiler::Report;
use rslox::scanner::TokenType;
use rslox::value::Value;

fn number(text: &str) -> Value {
    Value { bits: text.parse::<f64>().unwrap().to_bits() }
}

fn val(x: f64) -> Value {
    Value { bits: x.to_bits() }
}

fn compiled(source: &str) -> Chunk {
    compile(source, &number).expect("the source compiles")
}

fn failure(source: &str) -> CompileFailed {
    compile(source, &number).expect_err("the source does not compile")
}

fn only_report(source: &str) -> String {
    let failed = failure(source);
    assert_eq!(failed.reports.len(), 1);
    failed.reports[0].render()
}

#[test]
fn a_number_compiles_to_a_load_and_a_return() {
    let chunk = compiled("1.5");
    assert_eq!(chunk.code, vec![1, 0, 0]);
    assert_eq!(chunk.lines, vec![1, 1, 1]);
    assert_eq!(chunk.constants, vec![val(1.5)]);
}

#[test]
fn the_literal_is_read_by_the_given_function() {
    let chunk = compile("12 + 345", &|text: &str| Value { bits: text.len() as u64 }).unwrap();
    assert_eq!(chunk.constants, vec![Value { bits: 2 }, Value { bits: 3 }]);
}

#[test]
fn a_binary_operation_compiles_to_postfix_code() {
    assert_eq!(compiled("1 + 2").code, vec![1, 0, 1, 1, 4, 0]);
    assert_eq!(compiled("1 - 2").code, vec![1, 0, 1, 1, 5, 0]);
    assert_eq!(compiled("1 * 2").code, vec![1, 0, 1, 1, 6, 0]);
    assert_eq!(compiled("1 / 2").code, vec![1, 0, 1, 1, 7, 0]);
    assert_eq!(compiled("1 + 2").constants, vec![val(1.0), val(2.0)]);
}

#[test]
fn negation_compiles_after_its_operand() {
    assert_eq!(compiled("-1").code, vec![1, 0, 3, 0]);
    assert_eq!(compiled("--1").code, vec![1, 0, 3, 3, 0]);
}

#[test]
fn negation_binds_tighter_than_the_binary_operators() {
    // (-1) + 2, not -(1 + 2)
    assert_eq!(compiled("-1 + 2").code, vec![1, 0, 3, 1, 1, 4, 0]);
    assert_eq!(compiled("-1 * 2").code, vec![1, 0, 3, 1, 1, 6, 0]);
    // 1 - (-2)
    assert_eq!(compiled("1 - -2").code, vec![1, 0, 1, 1, 3, 5, 0]);
}

#[test]
fn factors_bind_tighter_than_terms() {
    // 2 + (3 * 4)
    assert_eq!(compiled("2 + 3 * 4").code, vec![1, 0, 1, 1, 1, 2, 6, 4, 0]);
    // (2 * 3) + 4
    assert_eq!(compiled("2 * 3 + 4").code, vec![1, 0, 1, 1, 6, 1, 2, 4, 0]);
}

#[test]
fn operators_of_one_level_group_from_the_left() {
    // (8 - 3) - 2
    assert_eq!(compiled("8 - 3 - 2").code, vec![1, 0, 1, 1, 5, 1, 2, 5, 0]);
    // (16 / 4) / 2
    assert_eq!(compiled("16 / 4 / 2").code, vec![1, 0, 1, 1, 7, 1, 2, 7, 0]);
    // (1 - 2) + 3
    assert_eq!(compiled("1 - 2 + 3").code, vec![1, 0, 1, 1, 5, 1, 2, 4, 0]);
}

#[test]
fn parentheses_group() {
    // (2 + 3) * 4
    assert_eq!(compiled("(2 + 3) * 4").code, vec![1, 0, 1, 1, 4, 1, 2, 6, 0]);
    // 8 - (3 - 2)
    assert_eq!(compiled("8 - (3 - 2)").code, vec![1, 0, 1, 1, 1, 2, 5, 5, 0]);
    assert_eq!(compiled("((1))").code, vec![1, 0, 0]);
}

#[test]
fn every_byte_has_the_line_of_its_token() {
    let chunk = compiled("1 +\n2\n");
    assert_eq!(chunk.code, vec![1, 0, 1, 1, 4, 0]);
    // the loads on the lines of the literals, the operator on its own line,
    // the return on the line of the end of the source
    assert_eq!(chunk.lines, vec![1, 1, 2, 2, 1, 3]);
    let chunk = compiled("-\n(\n7\n)");
    assert_eq!(chunk.code, vec![1, 0, 3, 0]);
    assert_eq!(chunk.lines, vec![3, 3, 1, 4]);
}

#[test]
fn a_compiled_chunk_has_a_line_for_every_byte_and_ends_with_return() {
    for source in ["1", "1 + 2 * 3", "-(1 + 2) / (3 - 4)", "((((1))))", "1 - 2 - 3 - 4"] {
        let chunk = compiled(source);
        assert_eq!(chunk.code.len(), chunk.lines.len());
        assert_eq!(chunk.code.last(), Some(&0));
    }
}

#[test]
fn the_257th_literal_and_those_after_it_are_loaded_in_the_long_form() {
    let mut source = String::from("0");
    for i in 1..300 {
        source.push_str(&format!(" + {}", i));
    }
    let chunk = compiled(&source);
    assert_eq!(chunk.constants.len(), 300);
    // literal 0, then for each of the literals 1..=255 a short load and an Add
    assert_eq!(&chunk.code[0..2], &[1, 0]);
    let mut at = 2;
    for i in 1..256 {
        assert_eq!(&chunk.code[at..at + 3], &[1, i as u8, 4]);
        at += 3;
    }
    // from literal 256 on, a long load and an Add
    for i in 256..300usize {
        assert_eq!(&chunk.code[at..at + 5], &[2, 0, (i / 256) as u8, (i % 256) as u8, 4]);
        at += 5;
    }
    assert_eq!(&chunk.code[at..], &[0]);
}

#[test]
fn an_empty_source_expects_an_expression() {
    assert_eq!(only_report(""), "[line 1] Error at end: Expect expression");
    assert_eq!(only_report("  \n // nothing\n"), "[line 3] Error at end: Expect expression");
}

#[test]
fn a_token_that_starts_no_expression() {
    assert_eq!(only_report("+"), "[line 1] Error at '+': Expect expression");
    assert_eq!(only_report("1 + * 2"), "[line 1] Error at '*': Expect expression");
    assert_eq!(only_report("1 +\n)"), "[line 2] Error at ')': Expect expression");
    assert_eq!(only_report("true"), "[line 1] Error at 'true': Expect expression");
    assert_eq!(only_report("x"), "[line 1] Error at 'x': Expect expression");
    assert_eq!(only_report("\"text\""), "[line 1] Error at '\"text\"': Expect expression");
}

#[test]
fn an_operator_without_a_right_operand() {
    assert_eq!(only_report("1 +"), "[line 1] Error at end: Expect expression");
    assert_eq!(only_report("-"), "[line 1] Error at end: Expect expression");
}

#[test]
fn an_unclosed_group() {
    assert_eq!(only_report("(1 + 2"), "[line 1] Error at end: Expect ')' after expression");
    assert_eq!(only_report("(1 2)"), "[line 1] Error at '2': Expect ')' after expression");
}

#[test]
fn more_after_the_expression() {
    assert_eq!(only_report("1 2"), "[line 1] Error at '2': Expect end of expression");
    assert_eq!(only_report("1)"), "[line 1] Error at ')': Expect end of expression");
    assert_eq!(only_report("(1) (2)"), "[line 1] Error at '(': Expect end of expression");
    assert_eq!(only_report("1 == 1"), "[line 1] Error at '==': Expect end of expression");
}

#[test]
fn a_diagnostic_of_the_scanner_is_a_compile_error() {
    assert_eq!(only_report("1 + @"), "[line 1] Error: Unexpected character");
    assert_eq!(only_report("@"), "[line 1] Error: Unexpected character");
    assert_eq!(only_report("1 +\n\"abc"), "[line 2] Error: Unterminated string.");
}

#[test]
fn two_independent_errors_give_one_report() {
    let failed = failure("(1 + ) * (2 + )");
    assert_eq!(
        failed.reports,
        vec![Report {
            line: 1,
            location: Location::Text(")".to_string()),
            message: "Expect expression".to_string(),
        }]
    );
}

#[test]
fn errors_after_the_first_are_swallowed() {
    assert_eq!(only_report("@ # $"), "[line 1] Error: Unexpected character");
    assert_eq!(only_report("(1 +\n@) * (2 +\n) 3 4"), "[line 2] Error: Unexpected character");
    assert_eq!(only_report("+ + +"), "[line 1] Error at '+': Expect expression");
    assert_eq!(only_report("(1 2 3"), "[line 1] Error at '2': Expect ')' after expression");
}

#[test]
fn report_locations() {
    let at_end = failure("");
    assert_eq!(at_end.reports[0].location, Location::End);
    assert_eq!(at_end.reports[0].line, 1);
    assert_eq!(at_end.reports[0].message, "Expect expression");
    let nowhere = failure("@");
    assert_eq!(nowhere.reports[0].location, Location::Nowhere);
    let at_token = failure("\n\n1 1");
    assert_eq!(at_token.reports[0].location, Location::Text("1".to_string()));
    assert_eq!(at_token.reports[0].line, 3);
}

#[test]
fn render_gives_the_three_shapes_of_a_report() {
    let report = |location| Report { line: 12, location, message: "Oops".to_string() };
    assert_eq!(report(Location::Nowhere).render(), "[line 12] Error: Oops");
    assert_eq!(report(Location::End).render(), "[line 12] Error at end: Oops");
    assert_eq!(report(Location::Text("+".to_string())).render(), "[line 12] Error at '+': Oops");
}

#[test]
fn precedence_levels_are_ordered() {
    let levels = [
        Precedence::Lowest,
        Precedence::Assignment,
        Precedence::Or,
        Precedence::And,
        Precedence::Equality,
        Precedence::Comparison,
        Precedence::Term,
        Precedence::Factor,
        Precedence::Unary,
        Precedence::Call,
        Precedence::Primary,
    ];
    for (i, level) in levels.iter().enumerate() {
        assert_eq!(level.rank() as usize, i);
        let above = if i + 1 < levels.len() { levels[i + 1] } else { levels[i] };
        assert_eq!(level.next(), above);
    }
}

#[test]
fn parse_rules() {
    let rule = |kind| {
        let rule = get_rule(kind);
        (rule.prefix, rule.infix, rule.precedence)
    };
    let binary = Some(ParseFn::Binary);
    assert_eq!(rule(TokenType::Minus), (Some(ParseFn::Unary), binary, Precedence::Term));
    assert_eq!(rule(TokenType::Plus), (None, binary, Precedence::Term));
    assert_eq!(rule(TokenType::Star), (None, binary, Precedence::Factor));
    assert_eq!(rule(TokenType::Slash), (None, binary, Precedence::Factor));
    assert_eq!(rule(TokenType::LeftParen), (Some(ParseFn::Grouping), None, Precedence::Lowest));
    assert_eq!(rule(TokenType::Number), (Some(ParseFn::Number), None, Precedence::Lowest));
    for kind in [
        TokenType::RightParen,
        TokenType::Eof,
        TokenType::Error,
        TokenType::Identifier,
        TokenType::Bang,
        TokenType::String,
        TokenType::True,
    ] {
        assert_eq!(rule(kind), (None, None, Precedence::Lowest));
    }
}
