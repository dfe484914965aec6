use puzzles::alu::{AluError, Instruction, Operand, Register, ALU};

#[test]
fn input_and_arithmetic() {
    let mut alu = ALU::new(vec![7, -3]);
    assert_eq!(alu.execute(Instruction::INP(Register::X)), Ok(()));
    assert_eq!(alu.execute(Instruction::MUL(Register::X, Operand::VAL(-1))), Ok(()));
    assert_eq!(alu.register(Register::X), -7);
    assert_eq!(alu.execute(Instruction::INP(Register::Z)), Ok(()));
    assert_eq!(alu.execute(Instruction::ADD(Register::Z, Operand::REG(Register::X))), Ok(()));
    assert_eq!(alu.register(Register::Z), -10);
    assert_eq!(alu.input_num, 2);
}

#[test]
fn binary_digits_program() {
    // Stores the lowest four bits of the input in w, x, y, z (z lowest).
    let program = vec![
        Instruction::INP(Register::W),
        Instruction::ADD(Register::Z, Operand::REG(Register::W)),
        Instruction::MOD(Register::Z, Operand::VAL(2)),
        Instruction::DIV(Register::W, Operand::VAL(2)),
        Instruction::ADD(Register::Y, Operand::REG(Register::W)),
        Instruction::MOD(Register::Y, Operand::VAL(2)),
        Instruction::DIV(Register::W, Operand::VAL(2)),
        Instruction::ADD(Register::X, Operand::REG(Register::W)),
        Instruction::MOD(Register::X, Operand::VAL(2)),
        Instruction::DIV(Register::W, Operand::VAL(2)),
        Instruction::MOD(Register::W, Operand::VAL(2)),
    ];
    let mut alu = ALU::new(vec![13]);
    for instr in program {
        assert_eq!(alu.execute(instr), Ok(()));
    }
    assert_eq!((alu.w, alu.x, alu.y, alu.z), (1, 1, 0, 1));
}

#[test]
fn division_truncates_and_remainder_keeps_sign() {
    let mut alu = ALU::new(vec![]);
    alu.set_register(Register::Y, -7);
    alu.set_register(Register::X, -7);
    assert_eq!(alu.execute(Instruction::DIV(Register::Y, Operand::VAL(2))), Ok(()));
    assert_eq!(alu.execute(Instruction::MOD(Register::X, Operand::VAL(2))), Ok(()));
    assert_eq!(alu.y, -3);
    assert_eq!(alu.x, -1);
}

#[test]
fn equality_instruction() {
    let mut alu = ALU::new(vec![]);
    alu.set_register(Register::W, 5);
    assert_eq!(alu.execute(Instruction::EQL(Register::W, Operand::VAL(5))), Ok(()));
    assert_eq!(alu.w, 1);
    assert_eq!(alu.execute(Instruction::EQL(Register::W, Operand::VAL(5))), Ok(()));
    assert_eq!(alu.w, 0);
}

#[test]
fn errors_leave_the_unit_unchanged() {
    let mut alu = ALU::new(vec![]);
    alu.set_register(Register::Z, i64::MAX);
    assert_eq!(alu.execute(Instruction::INP(Register::W)), Err(AluError::InputExhausted));
    assert_eq!(
        alu.execute(Instruction::DIV(Register::Z, Operand::REG(Register::W))),
        Err(AluError::DivisionByZero)
    );
    assert_eq!(
        alu.execute(Instruction::MOD(Register::Z, Operand::VAL(0))),
        Err(AluError::DivisionByZero)
    );
    assert_eq!(
        alu.execute(Instruction::ADD(Register::Z, Operand::VAL(1))),
        Err(AluError::Overflow)
    );
    assert_eq!(alu.z, i64::MAX);
    alu.set_register(Register::Y, i64::MIN);
    assert_eq!(
        alu.execute(Instruction::DIV(Register::Y, Operand::VAL(-1))),
        Err(AluError::Overflow)
    );
}

#[test]
fn reset_keeps_input() {
    let mut alu = ALU::new(vec![4]);
    assert_eq!(alu.execute(Instruction::INP(Register::Y)), Ok(()));
    alu.reset();
    assert_eq!((alu.w, alu.x, alu.y, alu.z, alu.input_num), (0, 0, 0, 0, 0));
    assert_eq!(alu.input, vec![4]);
}

#[test]
fn operands_resolve() {
    let mut alu = ALU::new(vec![]);
    alu.set_register(Register::Y, 9);
    assert_eq!(Register::Y.resolve(&alu), 9);
    assert_eq!(Operand::REG(Register::Y).resolve(&alu), 9);
    assert_eq!(Operand::VAL(-2).resolve(&alu), -2);
}

#[test]
fn instructions_parse() {
    assert_eq!(Instruction::parse(b"inp w"), Some(Instruction::INP(Register::W)));
    assert_eq!(
        Instruction::parse(b"add x -5"),
        Some(Instruction::ADD(Register::X, Operand::VAL(-5)))
    );
    assert_eq!(
        Instruction::parse(b"mul z y"),
        Some(Instruction::MUL(Register::Z, Operand::REG(Register::Y)))
    );
    assert_eq!(
        Instruction::parse(b"eql x +3"),
        Some(Instruction::EQL(Register::X, Operand::VAL(3)))
    );
    assert_eq!(
        Instruction::parse(b"mod y 26"),
        Some(Instruction::MOD(Register::Y, Operand::VAL(26)))
    );
    assert_eq!(
        "div w -9223372036854775808".parse::<Instruction>(),
        Ok(Instruction::DIV(Register::W, Operand::VAL(i64::MIN)))
    );
}

#[test]
fn malformed_instructions_are_rejected() {
    assert_eq!(Instruction::parse(b"mod q 1"), None);
    assert_eq!(Instruction::parse(b"inp w 1"), None);
    assert_eq!(Instruction::parse(b"add x"), None);
    assert_eq!(Instruction::parse(b"add x "), None);
    assert_eq!(Instruction::parse(b"add x 9223372036854775808"), None);
    assert_eq!(Instruction::parse(b"add x 1a"), None);
    assert_eq!(Instruction::parse(b"sub x 1"), None);
    assert_eq!(Instruction::parse(b"add x -"), None);
    assert_eq!("addx 1".parse::<Instruction>(), Err(()));
}
