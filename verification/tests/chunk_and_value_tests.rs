use caurora::memoryslice::MemorySlice;
use caurora::virtualmachine::VM;
use caurora::numbers::{add_numbers, div_numbers, eq_numbers, gt_numbers, lt_numbers, mul_numbers, neg_number, parse_number, render_number, sub_numbers};
use caurora::opcodes::{opcode_of_word, OpCode, PANIC_WORD};
use caurora::values::{chars_eq, chars_lt, render_value, same_value, value_eq, Object, Value};

fn chars(s: &str) -> Vec<char> {
    s.chars().collect()
}

#[test]
fn opcode_words_round_trip() {
    let all = [
        OpCode::Add,
        OpCode::Subtract,
        OpCode::Multiply,
        OpCode::Divide,
        OpCode::Constant,
        OpCode::Equal,
        OpCode::Greater,
        OpCode::Less,
        OpCode::Nil,
        OpCode::True,
        OpCode::False,
        OpCode::Not,
        OpCode::Negate,
        OpCode::Print,
        OpCode::Pop,
        OpCode::SetGlobalVar,
        OpCode::GetGlobalVar,
        OpCode::DefineGlobalVar,
        OpCode::SetLocalVar,
        OpCode::GetLocalVar,
        OpCode::Jmp,
        OpCode::JmpTrue,
        OpCode::JmpFalse,
        OpCode::Loop,
        OpCode::Return,
        OpCode::SetSP,
        OpCode::PopStoreTmp,
        OpCode::Call,
        OpCode::Eof,
        OpCode::Panic,
    ];
    for op in all {
        assert_eq!(opcode_of_word(op.repr()), Some(op));
    }
    assert_eq!(opcode_of_word(12345), None);
    assert_eq!(OpCode::Panic.repr(), PANIC_WORD);
}

#[test]
fn constant_pool_deduplicates_structurally_equal_values() {
    let mut m = MemorySlice::new();
    m.push_constant(OpCode::Constant, Value::Number(7));
    m.push_constant(OpCode::Constant, Value::Number(7));
    assert_eq!(m.constants_count(), 1);
    m.push_constant(OpCode::Constant, Value::Number(8));
    assert_eq!(m.constants_count(), 2);
    m.push_constant(OpCode::Constant, Value::Object(Object::String(chars("abc"))));
    m.push_constant(OpCode::Constant, Value::Object(Object::String(chars("abc"))));
    assert_eq!(m.constants_count(), 3);
    // both emissions of the first constant reference the same pool id
    assert_eq!(m.read_at_ip(1), Some(0));
    assert_eq!(m.read_at_ip(3), Some(0));
    assert_eq!(m.read_at_ip(5), Some(1));
}

#[test]
fn get_constant_fetches_by_id_and_rejects_out_of_range() {
    let mut m = MemorySlice::new();
    m.push_constant(OpCode::Constant, Value::Bool(true));
    assert_eq!(m.get_constant(0), Some(Value::Bool(true)));
    assert_eq!(m.get_constant(1), None);
}

#[test]
fn forward_jump_placeholder_is_panic_until_patched() {
    let mut m = MemorySlice::new();
    let off = m.push_jmp(OpCode::Jmp);
    assert_eq!(off, 1);
    assert_eq!(m.read_at_ip(0), Some(OpCode::Jmp.repr()));
    assert_eq!(m.read_at_ip(1), Some(PANIC_WORD));
    m.push(OpCode::Nil);
    m.push(OpCode::Pop);
    m.replace_at_location(off, 2);
    assert_eq!(m.read_at_ip(1), Some(2));
}

#[test]
fn push_loop_writes_the_backward_distance() {
    let mut m = MemorySlice::new();
    m.push(OpCode::Nil);
    m.push(OpCode::Pop);
    m.push_loop(0);
    // the machine will be at offset 4 after reading the operand and
    // must land back on offset 0
    assert_eq!(m.read_at_ip(2), Some(OpCode::Loop.repr()));
    assert_eq!(m.read_at_ip(3), Some(4));
}

#[test]
fn line_table_counts_marks_at_or_before_an_offset() {
    let mut m = MemorySlice::new();
    m.line_end();
    assert_eq!(m.get_line(0), 0);
    m.push(OpCode::Nil);
    m.line_end();
    m.push(OpCode::Pop);
    m.push(OpCode::Pop);
    m.line_end();
    assert_eq!(m.get_line(0), 1);
    assert_eq!(m.get_line(1), 1);
    assert_eq!(m.get_line(2), 2);
}

#[test]
fn language_equality_is_ieee_on_numbers() {
    let zero = 0.0f64.to_bits();
    let neg_zero = (-0.0f64).to_bits();
    let nan = (0.0f64 / 0.0f64).to_bits();
    assert!(value_eq(&Value::Number(zero), &Value::Number(neg_zero)));
    assert!(!value_eq(&Value::Number(nan), &Value::Number(nan)));
    assert!(eq_numbers(zero, neg_zero));
    assert!(!eq_numbers(nan, nan));
    // pool deduplication stays structural: bit-identical NaNs are one
    // entry, the two zeroes are two
    assert!(same_value(&Value::Number(nan), &Value::Number(nan)));
    assert!(!same_value(&Value::Number(zero), &Value::Number(neg_zero)));
}

#[test]
fn value_equality_is_structural() {
    assert!(value_eq(&Value::Number(3), &Value::Number(3)));
    assert!(!value_eq(&Value::Number(3), &Value::Number(4)));
    assert!(value_eq(&Value::Nil, &Value::Nil));
    assert!(!value_eq(&Value::Nil, &Value::Bool(false)));
    assert!(value_eq(
        &Value::Object(Object::String(chars("abc"))),
        &Value::Object(Object::String(chars("abc"))),
    ));
    assert!(!value_eq(
        &Value::Object(Object::String(chars("abc"))),
        &Value::Object(Object::String(chars("abd"))),
    ));
    assert!(value_eq(
        &Value::Object(Object::Function { name: chars("f"), address: 3, arity: 2 }),
        &Value::Object(Object::Function { name: chars("f"), address: 3, arity: 2 }),
    ));
    assert!(!value_eq(
        &Value::Object(Object::Function { name: chars("f"), address: 3, arity: 2 }),
        &Value::Object(Object::Function { name: chars("f"), address: 4, arity: 2 }),
    ));
}

#[test]
fn text_order_is_lexicographic() {
    assert!(chars_lt(&chars("abc"), &chars("abd")));
    assert!(chars_lt(&chars("ab"), &chars("abc")));
    assert!(!chars_lt(&chars("abc"), &chars("abc")));
    assert!(!chars_lt(&chars("b"), &chars("ab")));
    assert!(chars_eq(&chars("abc"), &chars("abc")));
    assert!(!chars_eq(&chars("abc"), &chars("ab")));
}

#[test]
fn number_wrappers_agree_with_native_doubles() {
    let a = 1.5f64.to_bits();
    let b = 2.25f64.to_bits();
    assert_eq!(add_numbers(a, b), 3.75f64.to_bits());
    assert_eq!(sub_numbers(a, b), (-0.75f64).to_bits());
    assert_eq!(mul_numbers(a, b), 3.375f64.to_bits());
    assert_eq!(div_numbers(b, a), 1.5f64.to_bits());
    assert_eq!(neg_number(a), (-1.5f64).to_bits());
    assert!(lt_numbers(a, b));
    assert!(!lt_numbers(b, a));
    assert!(gt_numbers(b, a));
    assert!(!gt_numbers(a, a));
}

#[test]
fn parse_number_matches_native_parsing() {
    assert_eq!(parse_number(&chars("7")), 7.0f64.to_bits());
    assert_eq!(parse_number(&chars("12.5")), 12.5f64.to_bits());
    assert_eq!(parse_number(&chars("0.1")), 0.1f64.to_bits());
    assert_eq!(parse_number(&chars("123456789")), 123456789.0f64.to_bits());
}

#[test]
fn numbers_render_without_a_trailing_fraction_when_integral() {
    let rendered: String = render_number(7.0f64.to_bits()).iter().collect();
    assert_eq!(rendered, "7");
    let rendered: String = render_number(2.5f64.to_bits()).iter().collect();
    assert_eq!(rendered, "2.5");
    let rendered: String = render_number(0.0f64.to_bits()).iter().collect();
    assert_eq!(rendered, "0");
}

#[test]
fn values_render_for_printing() {
    let line: String = render_value(&Value::Nil).iter().collect();
    assert_eq!(line, "nil");
    let line: String = render_value(&Value::Bool(true)).iter().collect();
    assert_eq!(line, "true");
    let line: String = render_value(&Value::Object(Object::String(chars("hey")))).iter().collect();
    assert_eq!(line, "hey");
    let line: String = render_value(
        &Value::Object(Object::Function { name: chars("f"), address: 0, arity: 0 }),
    )
        .iter()
        .collect();
    assert_eq!(line, "<fn f>");
}

#[test]
fn chunk_debug_dump_lists_words_and_constants() {
    let mut m = MemorySlice::new();
    m.push(OpCode::Nil);
    m.push_constant(OpCode::Constant, Value::Bool(true));
    let dump: String = m.debug(&chars("main")).iter().collect();
    assert_eq!(
        dump,
        format!(
            "== main ==\n0 -- {}\n1 -- {}\n2 -- 0\n0 = true\n",
            OpCode::Nil.repr(),
            OpCode::Constant.repr()
        )
    );
}

#[test]
fn vm_debug_dump_lists_registers_and_stack() {
    let mut vm = VM::new();
    vm.stack.push(Value::Number(7.0f64.to_bits()));
    vm.stack.push(Value::Nil);
    let dump: String = vm.debug().iter().collect();
    assert_eq!(dump, "ip 0\nsp 0\n0 -- 7\n1 -- nil\n");
}
