use rustyj::codegen::instruction::{get_instructions_length, Instruction};
use rustyj::codegen::reljumps::convert_to_absolute_jumps;

#[test]
fn test_if_expansion() {
    let instructions = vec![
        Instruction::iload(1),
        Instruction::iload(2),
        Instruction::isub,
        Instruction::reljumpifne(3),
        Instruction::bipush(1),
        Instruction::ireturn,
        Instruction::bipush(0),
        Instruction::ireturn,
    ];
    let mut expected = vec![
        Instruction::iload(1),
        Instruction::iload(2),
        Instruction::isub,
    ];
    let if_block = vec![Instruction::bipush(1), Instruction::ireturn];
    let if_block_size = get_instructions_length(&if_block).unwrap();
    let expected_size = get_instructions_length(&expected).unwrap();
    expected.push(Instruction::ifne((if_block_size + expected_size) as i16, 3));
    expected.extend(if_block);
    expected.extend_from_slice(&[Instruction::bipush(0), Instruction::ireturn]);
    assert_eq!(convert_to_absolute_jumps(instructions).unwrap(), expected);
}

#[test]
fn test_negative_expansion() {
    let instructions = vec![
        Instruction::iload(1),
        Instruction::iload(2),
        Instruction::isub,
        Instruction::reljumpifne(-3),
        Instruction::bipush(1),
        Instruction::ireturn,
        Instruction::bipush(0),
        Instruction::ireturn,
    ];
    let expected = vec![
        Instruction::iload(1),
        Instruction::iload(2),
        Instruction::isub,
        Instruction::ifne(0, -3),
        Instruction::bipush(1),
        Instruction::ireturn,
        Instruction::bipush(0),
        Instruction::ireturn,
    ];
    assert_eq!(convert_to_absolute_jumps(instructions).unwrap(), expected);
}

#[test]
fn backward_jump_gets_the_byte_address_of_its_target() {
    let instructions = vec![
        Instruction::bipush(1),
        Instruction::iload(2),
        Instruction::isub,
        Instruction::relgoto(-2),
    ];
    let converted = convert_to_absolute_jumps(instructions).unwrap();
    assert_eq!(converted[3], Instruction::goto(2, -2));
}

#[test]
fn backward_jump_before_the_start_is_refused() {
    let instructions = vec![Instruction::iload(1), Instruction::reljumpifeq(-2)];
    assert!(convert_to_absolute_jumps(instructions).is_none());
}
