use vstd::prelude::*;

verus! {

/// One of the four registers of the arithmetic unit.
#[derive(Debug, Clone, Copy, PartialEq, Eq, Structural)]
pub enum Register {
    W,
    X,
    Y,
    Z,
}

/// The second operand of an instruction: a register or a constant.
#[derive(Debug, Clone, Copy, PartialEq, Eq, Structural)]
pub enum Operand {
    REG(Register),
    VAL(i64),
}

/// An instruction; the register named first receives the result.
#[derive(Debug, Clone, Copy, PartialEq, Eq, Structural)]
pub enum Instruction {
    INP(Register),
    ADD(Register, Operand),
    MUL(Register, Operand),
    DIV(Register, Operand),
    MOD(Register, Operand),
    EQL(Register, Operand),
}

/// Why an instruction could not run.
#[derive(Debug, Clone, Copy, PartialEq, Eq, Structural)]
pub enum AluError {
    /// `inp` found every input value already read.
    InputExhausted,
    /// `div` or `mod` by zero.
    DivisionByZero,
    /// The result does not fit in an `i64`.
    Overflow,
}

/// Four registers, a list of input values and how many of them were read.
#[derive(Debug)]
pub struct ALU {
    pub w: i64,
    pub x: i64,
    pub y: i64,
    pub z: i64,
    pub input: Vec<i64>,
    pub input_num: usize,
}

impl ALU {
    /// The value held in register `r`.
    pub open spec fn reg(&self, r: Register) -> i64 {
        match r {
            Register::W => self.w,
            Register::X => self.x,
            Register::Y => self.y,
            Register::Z => self.z,
        }
    }

    /// The unit with register `r` set to `v`, all else unchanged.
    pub open spec fn with_reg(self, r: Register, v: i64) -> ALU {
        match r {
            Register::W => ALU { w: v, ..self },
            Register::X => ALU { x: v, ..self },
            Register::Y => ALU { y: v, ..self },
            Register::Z => ALU { z: v, ..self },
        }
    }

    /// The value an operand stands for.
    pub open spec fn operand(&self, o: Operand) -> i64 {
        match o {
            Operand::REG(r) => self.reg(r),
            Operand::VAL(v) => v,
        }
    }

    /// The unit after `instr`: `inp` reads the next input value; `add`,
    /// `mul`, `div` (rounding toward zero) and `mod` (remainder with the
    /// sign of the dividend) combine the register with the operand; `eql`
    /// stores 1 when they are equal, else 0.
    pub open spec fn step(self, instr: Instruction) -> Result<ALU, AluError> {
        match instr {
            Instruction::INP(r) => if self.input_num < self.input.len() {
                Ok(
                    ALU {
                        input_num: (self.input_num + 1) as usize,
                        ..self.with_reg(r, self.input[self.input_num as int])
                    },
                )
            } else {
                Err(AluError::InputExhausted)
            },
            Instruction::ADD(r, o) => match self.reg(r).checked_add(self.operand(o)) {
                Some(v) => Ok(self.with_reg(r, v)),
                None => Err(AluError::Overflow),
            },
            Instruction::MUL(r, o) => match self.reg(r).checked_mul(self.operand(o)) {
                Some(v) => Ok(self.with_reg(r, v)),
                None => Err(AluError::Overflow),
            },
            Instruction::DIV(r, o) => if self.operand(o) == 0 {
                Err(AluError::DivisionByZero)
            } else {
                match self.reg(r).checked_div(self.operand(o)) {
                    Some(v) => Ok(self.with_reg(r, v)),
                    None => Err(AluError::Overflow),
                }
            },
            Instruction::MOD(r, o) => if self.operand(o) == 0 {
                Err(AluError::DivisionByZero)
            } else {
                match self.reg(r).checked_rem(self.operand(o)) {
                    Some(v) => Ok(self.with_reg(r, v)),
                    None => Err(AluError::Overflow),
                }
            },
            Instruction::EQL(r, o) => Ok(
                self.with_reg(r, if self.reg(r) == self.operand(o) { 1 } else { 0 }),
            ),
        }
    }

    /// A unit with all registers zero that will read `input`.
    pub fn new(input: Vec<i64>) -> (r: ALU)
        ensures
            r.w == 0 && r.x == 0 && r.y == 0 && r.z == 0,
            r.input == input,
            r.input_num == 0,
    {
        ALU { w: 0, x: 0, y: 0, z: 0, input, input_num: 0 }
    }

    /// The value held in register `reg`.
    pub fn register(&self, reg: Register) -> (r: i64)
        ensures
            r == self.reg(reg),
    {
        match reg {
            Register::W => self.w,
            Register::X => self.x,
            Register::Y => self.y,
            Register::Z => self.z,
        }
    }

    /// Stores `v` in register `reg`.
    pub fn set_register(&mut self, reg: Register, v: i64)
        ensures
            *final(self) == old(self).with_reg(reg, v),
    {
        match reg {
            Register::W => self.w = v,
            Register::X => self.x = v,
            Register::Y => self.y = v,
            Register::Z => self.z = v,
        }
    }

    /// Runs one instruction. On an error the unit is left as it was.
    pub fn execute(&mut self, instr: Instruction) -> (r: Result<(), AluError>)
        ensures
            match old(self).step(instr) {
                Ok(next) => *final(self) == next && r is Ok,
                Err(e) => *final(self) == *old(self) && r == Err::<(), AluError>(e),
            },
    {
        match instr {
            Instruction::INP(reg) => {
                if self.input_num >= self.input.len() {
                    return Err(AluError::InputExhausted);
                }
                let v = self.input[self.input_num];
                self.set_register(reg, v);
                self.input_num = self.input_num + 1;
                Ok(())
            },
            Instruction::ADD(lhs, rhs) => {
                let val = self.register(lhs);
                let rhs = rhs.resolve(self);
                match val.checked_add(rhs) {
                    Some(v) => {
                        self.set_register(lhs, v);
                        Ok(())
                    },
                    None => Err(AluError::Overflow),
                }
            },
            Instruction::MUL(lhs, rhs) => {
                let val = self.register(lhs);
                let rhs = rhs.resolve(self);
                match val.checked_mul(rhs) {
                    Some(v) => {
                        self.set_register(lhs, v);
                        Ok(())
                    },
                    None => Err(AluError::Overflow),
                }
            },
            Instruction::DIV(lhs, rhs) => {
                let val = self.register(lhs);
                let rhs = rhs.resolve(self);
                if rhs == 0 {
                    return Err(AluError::DivisionByZero);
                }
                match val.checked_div(rhs) {
                    Some(v) => {
                        self.set_register(lhs, v);
                        Ok(())
                    },
                    None => Err(AluError::Overflow),
                }
            },
            Instruction::MOD(lhs, rhs) => {
                let val = self.register(lhs);
                let rhs = rhs.resolve(self);
                if rhs == 0 {
                    return Err(AluError::DivisionByZero);
                }
                match val.checked_rem(rhs) {
                    Some(v) => {
                        self.set_register(lhs, v);
                        Ok(())
                    },
                    None => Err(AluError::Overflow),
                }
            },
            Instruction::EQL(lhs, rhs) => {
                let val = self.register(lhs);
                let rhs = rhs.resolve(self);
                self.set_register(lhs, if val == rhs { 1 } else { 0 });
                Ok(())
            },
        }
    }

    /// Clears the registers and rewinds the input; the input values stay.
    pub fn reset(&mut self)
        ensures
            final(self).w == 0 && final(self).x == 0 && final(self).y == 0 && final(self).z == 0,
            final(self).input == old(self).input,
            final(self).input_num == 0,
    {
        self.w = 0;
        self.x = 0;
        self.y = 0;
        self.z = 0;
        self.input_num = 0;
    }
}

impl Register {
    /// The value this register holds in `alu`.
    pub fn resolve(&self, alu: &ALU) -> (r: i64)
        ensures
            r == alu.reg(*self),
    {
        match self {
            Register::W => alu.w,
            Register::X => alu.x,
            Register::Y => alu.y,
            Register::Z => alu.z,
        }
    }
}

impl Operand {
    /// The value this operand stands for in `alu`.
    pub fn resolve(&self, alu: &ALU) -> (r: i64)
        ensures
            r == alu.operand(*self),
    {
        match self {
            Operand::REG(reg) => reg.resolve(alu),
            Operand::VAL(val) => *val,
        }
    }
}

/// The register named by a letter: 'w', 'x', 'y' or 'z' (ASCII 119 to 122).
pub open spec fn register_named(c: u8) -> Option<Register> {
    if c == 119 {
        Some(Register::W)
    } else if c == 120 {
        Some(Register::X)
    } else if c == 121 {
        Some(Register::Y)
    } else if c == 122 {
        Some(Register::Z)
    } else {
        None
    }
}

/// The value of the decimal digits `s[from..to]`, when every one of them is
/// a digit.
pub open spec fn decimal_value(s: Seq<u8>, from: int, to: int) -> Option<nat>
    decreases to - from,
{
    if to <= from {
        Some(0)
    } else if !(48 <= s[to - 1] <= 57) {
        None
    } else {
        match decimal_value(s, from, to - 1) {
            Some(v) => Some(v * 10 + (s[to - 1] - 48) as nat),
            None => None,
        }
    }
}

/// The integer written in `s[from..]`: an optional sign ('+' is 43, '-' is
/// 45) and at least one decimal digit, when it fits in an `i64`.
pub open spec fn integer_value(s: Seq<u8>, from: int) -> Option<i64> {
    let negative = from < s.len() && s[from] == 45;
    let start = if from < s.len() && (s[from] == 45 || s[from] == 43) {
        from + 1
    } else {
        from
    };
    if start >= s.len() {
        None
    } else {
        signed(decimal_value(s, start, s.len() as int), negative)
    }
}

/// A magnitude with its sign, when it fits in an `i64`.
pub open spec fn signed(magnitude: Option<nat>, negative: bool) -> Option<i64> {
    match magnitude {
        Some(v) => {
            let value = if negative {
                -(v as int)
            } else {
                v as int
            };
            if i64::MIN <= value <= i64::MAX {
                Some(value as i64)
            } else {
                None
            }
        },
        None => None,
    }
}

/// The operand written in `s[from..]`: a lone register letter, or an integer.
pub open spec fn operand_value(s: Seq<u8>, from: int) -> Option<Operand> {
    if from + 1 == s.len() && register_named(s[from]) is Some {
        Some(Operand::REG(register_named(s[from])->0))
    } else {
        match integer_value(s, from) {
            Some(v) => Some(Operand::VAL(v)),
            None => None,
        }
    }
}

/// Which instruction a three-letter name stands for, by its index in
/// inp, add, mul, div, mod, eql.
pub open spec fn opcode_of(a: u8, b: u8, c: u8) -> Option<nat> {
    if a == 105 && b == 110 && c == 112 {
        Some(0)
    } else if a == 97 && b == 100 && c == 100 {
        Some(1)
    } else if a == 109 && b == 117 && c == 108 {
        Some(2)
    } else if a == 100 && b == 105 && c == 118 {
        Some(3)
    } else if a == 109 && b == 111 && c == 100 {
        Some(4)
    } else if a == 101 && b == 113 && c == 108 {
        Some(5)
    } else {
        None
    }
}

/// The instruction that a line of text states: a three-letter name, a
/// space and a register letter, then for every name but `inp` a space and
/// an operand.
pub open spec fn instruction_of(line: Seq<u8>) -> Option<Instruction> {
    if line.len() < 5 || line[3] != 32 || register_named(line[4]) is None || opcode_of(
        line[0],
        line[1],
        line[2],
    ) is None {
        None
    } else {
        let r = register_named(line[4])->0;
        let code = opcode_of(line[0], line[1], line[2])->0;
        if code == 0 {
            if line.len() == 5 {
                Some(Instruction::INP(r))
            } else {
                None
            }
        } else if line.len() < 7 || line[5] != 32 || operand_value(line, 6) is None {
            None
        } else {
            let o = operand_value(line, 6)->0;
            Some(
                if code == 1 {
                    Instruction::ADD(r, o)
                } else if code == 2 {
                    Instruction::MUL(r, o)
                } else if code == 3 {
                    Instruction::DIV(r, o)
                } else if code == 4 {
                    Instruction::MOD(r, o)
                } else {
                    Instruction::EQL(r, o)
                },
            )
        }
    }
}

impl Register {
    /// The register named by a letter.
    pub fn parse(c: u8) -> (r: Option<Register>)
        ensures
            r == register_named(c),
    {
        if c == 119 {
            Some(Register::W)
        } else if c == 120 {
            Some(Register::X)
        } else if c == 121 {
            Some(Register::Y)
        } else if c == 122 {
            Some(Register::Z)
        } else {
            None
        }
    }
}

fn parse_integer(s: &[u8], from: usize) -> (r: Option<i64>)
    requires
        from <= s@.len(),
    ensures
        r == integer_value(s@, from as int),
{
    let negative = from < s.len() && s[from] == 45;
    let start = if from < s.len() && (s[from] == 45 || s[from] == 43) {
        from + 1
    } else {
        from
    };
    if start >= s.len() {
        return None;
    }
    let mut magnitude: u64 = 0;
    let mut i: usize = start;
    let ghost whole = decimal_value(s@, start as int, s@.len() as int);
    while i < s.len()
        invariant
            start <= i <= s@.len(),
            start < s@.len(),
            whole == decimal_value(s@, start as int, s@.len() as int),
            integer_value(s@, from as int) == signed(whole, negative),
            decimal_value(s@, start as int, i as int) == Some(magnitude as nat),
            magnitude <= 9223372036854775808u64,
        decreases s@.len() - i,
    {
        let c = s[i];
        if c < 48 || c > 57 {
            proof {
                lemma_decimal_none_extends(s@, start as int, i + 1, s@.len() as int);
            }
            return None;
        }
        let d = (c - 48) as u64;
        if magnitude > (9223372036854775808u64 - d) / 10 {
            proof {
                lemma_decimal_grows(s@, start as int, i + 1, s@.len() as int);
                assert(decimal_value(s@, start as int, i + 1) == Some((magnitude * 10 + d) as nat));
            }
            return None;
        }
        magnitude = magnitude * 10 + d;
        i = i + 1;
    }
    if negative {
        if magnitude == 9223372036854775808u64 {
            Some(i64::MIN)
        } else {
            Some(0 - magnitude as i64)
        }
    } else if magnitude > 9223372036854775807u64 {
        None
    } else {
        Some(magnitude as i64)
    }
}

proof fn lemma_decimal_none_extends(s: Seq<u8>, from: int, k: int, to: int)
    requires
        from <= k <= to,
        decimal_value(s, from, k) is None,
    ensures
        decimal_value(s, from, to) is None,
    decreases to - k,
{
    if k < to {
        lemma_decimal_none_extends(s, from, k + 1, to);
    }
}

proof fn lemma_decimal_grows(s: Seq<u8>, from: int, k: int, to: int)
    requires
        from <= k <= to,
    ensures
        decimal_value(s, from, k) matches Some(a) ==> decimal_value(s, from, to) matches Some(b)
            ==> a <= b,
    decreases to - k,
{
    if k < to {
        lemma_decimal_grows(s, from, k + 1, to);
        if decimal_value(s, from, k + 1) is None {
            lemma_decimal_none_extends(s, from, k + 1, to);
        }
    }
}

impl Operand {
    /// The operand written in `s[from..]`.
    pub fn parse(s: &[u8], from: usize) -> (r: Option<Operand>)
        requires
            from <= s@.len(),
        ensures
            r == operand_value(s@, from as int),
    {
        if s.len() - from == 1 {
            if let Some(reg) = Register::parse(s[from]) {
                return Some(Operand::REG(reg));
            }
        }
        match parse_integer(s, from) {
            Some(v) => Some(Operand::VAL(v)),
            None => None,
        }
    }
}

fn opcode(a: u8, b: u8, c: u8) -> (r: Option<u8>)
    ensures
        match opcode_of(a, b, c) {
            Some(k) => r == Some(k as u8),
            None => r is None,
        },
{
    if a == 105 && b == 110 && c == 112 {
        Some(0)
    } else if a == 97 && b == 100 && c == 100 {
        Some(1)
    } else if a == 109 && b == 117 && c == 108 {
        Some(2)
    } else if a == 100 && b == 105 && c == 118 {
        Some(3)
    } else if a == 109 && b == 111 && c == 100 {
        Some(4)
    } else if a == 101 && b == 113 && c == 108 {
        Some(5)
    } else {
        None
    }
}

impl Instruction {
    /// Reads one line of a program, as in `add x -5` or `inp w`.
    pub fn parse(line: &[u8]) -> (r: Option<Instruction>)
        ensures
            r == instruction_of(line@),
    {
        if line.len() < 5 || line[3] != 32 {
            return None;
        }
        let reg = match Register::parse(line[4]) {
            Some(r) => r,
            None => return None,
        };
        let code = match opcode(line[0], line[1], line[2]) {
            Some(c) => c,
            None => return None,
        };
        if code == 0 {
            return if line.len() == 5 {
                Some(Instruction::INP(reg))
            } else {
                None
            };
        }
        if line.len() < 7 || line[5] != 32 {
            return None;
        }
        let operand = match Operand::parse(line, 6) {
            Some(o) => o,
            None => return None,
        };
        Some(
            if code == 1 {
                Instruction::ADD(reg, operand)
            } else if code == 2 {
                Instruction::MUL(reg, operand)
            } else if code == 3 {
                Instruction::DIV(reg, operand)
            } else if code == 4 {
                Instruction::MOD(reg, operand)
            } else {
                Instruction::EQL(reg, operand)
            },
        )
    }
}

impl core::str::FromStr for Instruction {
    type Err = ();

    fn from_str(s: &str) -> Result<Instruction, ()> {
        match Instruction::parse(s.as_bytes()) {
            Some(i) => Ok(i),
            None => Err(()),
        }
    }
}

} // verus!
