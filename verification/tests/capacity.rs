use rslox::chunk::MAX_CONSTANTS;
use rslox::compiler::compile;
use rslox::compiler::Location;
use rslox::value::Value;

fn number(text: &str) -> Value {
    Value { bits: text.parse::<f64>().unwrap().to_bits() }
}

fn sum_of_ones(literals: usize) -> String {
    let mut source = String::with_capacity(2 * literals + 1);
    source.push('1');
    for _ in 1..literals {
        source.push_str("+1");
    }
    source.push_str("\n+2");
    source
}

#[test]
fn one_constant_more_than_the_format_can_address_is_a_compile_error() {
    // the literals before the last fill the pool; the last, on line 2, has
    // no index
    let failed = compile(&sum_of_ones(MAX_CONSTANTS + 1), &number).expect_err("too many constants");
    assert_eq!(failed.reports.len(), 1);
    assert_eq!(failed.reports[0].line, 2);
    assert_eq!(failed.reports[0].location, Location::Text("2".to_string()));
    assert_eq!(failed.reports[0].message, "Too many constants in one chunk");
}
