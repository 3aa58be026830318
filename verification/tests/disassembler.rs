use rslox::chunk::Chunk;
use rslox::compiler::compile;
use rslox::disassembler::disassemble_chunk;
use rslox::disassembler::disassemble_instruction;
use rslox::disassembler::name_of;
use rslox::chunk::OpCode;
use rslox::value::Value;

fn number(text: &str) -> Value {
    Value { bits: text.parse::<f64>().unwrap().to_bits() }
}

fn val(x: f64) -> Value {
    Value { bits: x.to_bits() }
}

fn show(value: Value) -> String {
    format!("{}", f64::from_bits(value.bits))
}

#[test]
fn mnemonics() {
    assert_eq!(name_of(OpCode::Return), "Return");
    assert_eq!(name_of(OpCode::Constant), "Constant");
    assert_eq!(name_of(OpCode::ConstantLong), "ConstantLong");
    assert_eq!(name_of(OpCode::Negate), "Negate");
    assert_eq!(name_of(OpCode::Add), "Add");
    assert_eq!(name_of(OpCode::Subtract), "Subtract");
    assert_eq!(name_of(OpCode::Multiply), "Multiply");
    assert_eq!(name_of(OpCode::Divide), "Divide");
}

#[test]
fn an_empty_chunk_is_a_heading() {
    assert_eq!(disassemble_chunk(&Chunk::new(), "empty", &show), "=== empty ===\n");
}

#[test]
fn a_chunk_is_listed_line_by_line() {
    let chunk = compile("1.5 +\n-2 * 3", &number).unwrap();
    let expected = "\
=== test chunk ===
0000    1 Constant         0000 '1.5'
0002    2 Constant         0001 '2'
0004    | Negate
0005    | Constant         0002 '3'
0007    | Multiply
0008    1 Add
0009    2 Return
";
    assert_eq!(disassemble_chunk(&chunk, "test chunk", &show), expected);
    assert_eq!(chunk.disassemble("test chunk", &show), expected);
}

#[test]
fn the_line_column_compares_with_the_byte_before() {
    let mut chunk = Chunk::new();
    chunk.write(3, 7);
    chunk.write(3, 7);
    chunk.write(3, 12345);
    chunk.write(0, 7);
    assert_eq!(
        disassemble_chunk(&chunk, "lines", &show),
        "=== lines ===\n0000    7 Negate\n0001    | Negate\n0002 12345 Negate\n0003    7 Return\n"
    );
}

#[test]
fn a_long_load_is_listed_with_its_index() {
    let mut chunk = Chunk::new();
    chunk.constants = vec![val(0.0); 300];
    chunk.write_constant(val(0.25), 1);
    chunk.write(0, 1);
    assert_eq!(
        disassemble_chunk(&chunk, "long", &show),
        "=== long ===\n0000    1 ConstantLong     0300 '0.25'\n0004    | Return\n"
    );
}

#[test]
fn an_index_of_more_than_four_digits_is_listed_whole() {
    let mut chunk = Chunk::new();
    chunk.constants = vec![val(0.0); 123456];
    chunk.write_constant(val(1.0), 1);
    let mut out = String::new();
    assert_eq!(disassemble_instruction(&chunk, 0, &show, &mut out), 4);
    assert_eq!(out, "0000    1 ConstantLong     123456 '1'\n");
}

#[test]
fn a_byte_that_is_no_instruction_is_listed_as_unknown() {
    let mut chunk = Chunk::new();
    chunk.write(3, 1);
    chunk.write(200, 1);
    chunk.write(0, 2);
    assert_eq!(
        disassemble_chunk(&chunk, "odd", &show),
        "=== odd ===\n0000    1 Negate\n0001    | Unknown opcode 200\n0002    2 Return\n"
    );
}

#[test]
fn disassemble_instruction_appends_one_line_and_returns_the_next_offset() {
    let chunk = compile("1 + 2", &number).unwrap();
    let mut out = String::from("> ");
    assert_eq!(disassemble_instruction(&chunk, 0, &show, &mut out), 2);
    assert_eq!(out, "> 0000    1 Constant         0000 '1'\n");
    assert_eq!(disassemble_instruction(&chunk, 2, &show, &mut out), 4);
    assert_eq!(chunk.disassemble_instruction(4, &show, &mut out), 5);
    assert_eq!(disassemble_instruction(&chunk, 5, &show, &mut out), 6);
    assert_eq!(
        out,
        "> 0000    1 Constant         0000 '1'\n\
         0002    | Constant         0001 '2'\n\
         0004    | Add\n\
         0005    | Return\n"
    );
}

#[test]
fn the_constant_is_shown_by_the_given_function() {
    let chunk = compile("1", &number).unwrap();
    let text = disassemble_chunk(&chunk, "c", &|value: Value| format!("<{:x}>", value.bits));
    assert_eq!(
        text,
        "=== c ===\n0000    1 Constant         0000 '<3ff0000000000000>'\n0002    | Return\n"
    );
}

#[test]
fn disassembling_twice_gives_the_same_text() {
    let chunk = compile("(1 + 2) * -3 / 4 - 5", &number).unwrap();
    let first = disassemble_chunk(&chunk, "again", &show);
    let second = disassemble_chunk(&chunk, "again", &show);
    assert_eq!(first, second);
    // and it leaves the chunk as it was
    let copy = chunk.clone();
    let _ = disassemble_chunk(&chunk, "again", &show);
    assert_eq!(chunk.code, copy.code);
    assert_eq!(chunk.lines, copy.lines);
    assert_eq!(chunk.constants, copy.constants);
}
