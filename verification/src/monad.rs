//! A tiny register machine with four registers and an input tape, whose
//! instructions read a register and an argument and write the register
//! back.

use vstd::prelude::*;

use crate::numbers::{iabs, tdiv};

verus! {

/// The failure an instruction can hit: naming a register that does not
/// exist.
pub enum InstructionError {
    RegisterNotExist,
}

/// An instruction operand: a register name or an immediate value.
pub enum Argument {
    Register(char),
    Value(i32),
}

/// One instruction: the register it writes, and its operation.
pub struct Instruction {
    pub reg: char,
    pub op: Operation,
}

impl Instruction {
    pub fn new(register: char, operation: Operation) -> (r: Instruction)
        ensures
            r.reg == register,
            r.op == operation,
    {
        Instruction { reg: register, op: operation }
    }
}

/// The operations: read the next input, or combine the register with an
/// argument.
pub enum Operation {
    Inp(),
    Add(Argument),
    Mul(Argument),
    Div(Argument),
    Mod(Argument),
    Eql(Argument),
}

/// The machine: registers `w`, `x`, `y`, `z`, the input numbers, and how
/// many inputs were consumed.
pub struct Monad {
    pub w: i32,
    pub x: i32,
    pub y: i32,
    pub z: i32,
    pub input_nums: Vec<i32>,
    pub i: usize,
}

/// The four register names.
pub open spec fn is_register(c: char) -> bool {
    c == 'w' || c == 'x' || c == 'y' || c == 'z'
}

/// The value a register holds.
pub open spec fn reg_val(m: Monad, c: char) -> int {
    if c == 'w' {
        m.w as int
    } else if c == 'x' {
        m.x as int
    } else if c == 'y' {
        m.y as int
    } else {
        m.z as int
    }
}

/// The value an argument denotes.
pub open spec fn arg_val(m: Monad, a: Argument) -> int {
    match a {
        Argument::Value(v) => v as int,
        Argument::Register(c) => reg_val(m, c),
    }
}

/// Remainder truncated toward zero, as machine remainder is.
pub open spec fn trem(a: int, b: int) -> int {
    if a < 0 {
        -(iabs(a) % iabs(b))
    } else {
        iabs(a) % iabs(b)
    }
}

/// Whether a mathematical integer fits in an `i32`.
pub open spec fn in_i32(v: int) -> bool {
    i32::MIN <= v <= i32::MAX
}

/// The value an instruction writes to its register.
pub open spec fn exec_value(m: Monad, inst: Instruction) -> int {
    match inst.op {
        Operation::Inp() => m.input_nums@[m.i as int] as int,
        Operation::Add(a) => reg_val(m, inst.reg) + arg_val(m, a),
        Operation::Mul(a) => reg_val(m, inst.reg) * arg_val(m, a),
        Operation::Div(a) => tdiv(reg_val(m, inst.reg), arg_val(m, a)),
        Operation::Mod(a) => trem(reg_val(m, inst.reg), arg_val(m, a)),
        Operation::Eql(a) => if reg_val(m, inst.reg) == arg_val(m, a) {
            1
        } else {
            0
        },
    }
}

/// What an instruction demands of the machine: its registers exist, the
/// input tape has a number left for `Inp`, and the arithmetic neither
/// overflows nor divides by zero.
pub open spec fn instruction_ok(m: Monad, inst: Instruction) -> bool {
    &&& is_register(inst.reg)
    &&& match inst.op {
        Operation::Inp() => m.i < m.input_nums@.len(),
        Operation::Add(a) => arg_register_ok(a) && in_i32(reg_val(m, inst.reg) + arg_val(m, a)),
        Operation::Mul(a) => arg_register_ok(a) && in_i32(reg_val(m, inst.reg) * arg_val(m, a)),
        Operation::Div(a) => arg_register_ok(a) && arg_val(m, a) != 0 && !(reg_val(m, inst.reg)
            == i32::MIN && arg_val(m, a) == -1),
        Operation::Mod(a) => arg_register_ok(a) && arg_val(m, a) != 0 && !(reg_val(m, inst.reg)
            == i32::MIN && arg_val(m, a) == -1),
        Operation::Eql(a) => arg_register_ok(a),
    }
}

/// A register argument must name a real register.
pub open spec fn arg_register_ok(a: Argument) -> bool {
    match a {
        Argument::Register(c) => is_register(c),
        Argument::Value(_) => true,
    }
}

/// Truncated division of `i32` values through 64-bit magnitudes.
fn i32_tdiv(a: i32, b: i32) -> (r: i32)
    requires
        b != 0,
        !(a == i32::MIN && b == -1),
    ensures
        r as int == tdiv(a as int, b as int),
{
    let neg = (a < 0) != (b < 0);
    let ma: u64 = if a < 0 {
        (-(a as i64)) as u64
    } else {
        a as u64
    };
    let mb: u64 = if b < 0 {
        (-(b as i64)) as u64
    } else {
        b as u64
    };
    let q = ma / mb;
    proof {
        assert(q <= ma) by (nonlinear_arith)
            requires
                mb >= 1,
                q == ma / mb,
        ;
        if !neg && a == i32::MIN {
            assert(mb >= 2);
            assert(q <= ma / 2) by (nonlinear_arith)
                requires
                    mb >= 2,
                    q == ma / mb,
            ;
        }
    }
    if neg {
        -(q as i64) as i32
    } else {
        q as i32
    }
}

/// Truncated remainder of `i32` values through 64-bit magnitudes.
fn i32_trem(a: i32, b: i32) -> (r: i32)
    requires
        b != 0,
        !(a == i32::MIN && b == -1),
    ensures
        r as int == trem(a as int, b as int),
{
    let ma: u64 = if a < 0 {
        (-(a as i64)) as u64
    } else {
        a as u64
    };
    let mb: u64 = if b < 0 {
        (-(b as i64)) as u64
    } else {
        b as u64
    };
    let m = ma % mb;
    if a < 0 {
        -(m as i64) as i32
    } else {
        m as i32
    }
}

impl Monad {
    /// A machine with every register zero and the given input tape.
    pub fn new(nums: Vec<i32>) -> (r: Monad)
        ensures
            r.w == 0 && r.x == 0 && r.y == 0 && r.z == 0,
            r.input_nums == nums,
            r.i == 0,
    {
        Monad { w: 0, x: 0, y: 0, z: 0, input_nums: nums, i: 0 }
    }

    /// Read a register by name.
    pub fn register_value(&self, c: char) -> (r: i32)
        requires
            is_register(c),
        ensures
            r as int == reg_val(*self, c),
    {
        if c == 'w' {
            self.w
        } else if c == 'x' {
            self.x
        } else if c == 'y' {
            self.y
        } else {
            self.z
        }
    }

    /// The value an argument denotes on this machine.
    pub fn get_value(&self, argument: &Argument) -> (r: i32)
        requires
            arg_register_ok(*argument),
        ensures
            r as int == arg_val(*self, *argument),
    {
        match argument {
            Argument::Value(value) => *value,
            Argument::Register(c) => self.register_value(*c),
        }
    }

    /// Run one instruction: the named register takes the operation's value;
    /// the other registers keep theirs; `Inp` consumes one input.
    pub fn execute(&mut self, instruction: Instruction)
        requires
            instruction_ok(*old(self), instruction),
        ensures
            final(self).input_nums == old(self).input_nums,
            final(self).i == old(self).i + (if instruction.op is Inp {
                1int
            } else {
                0int
            }),
            reg_val(*final(self), instruction.reg) == exec_value(*old(self), instruction),
            forall|c: char|
                is_register(c) && c != instruction.reg ==> reg_val(*final(self), c) == reg_val(
                    *old(self),
                    c,
                ),
    {
        let current = self.register_value(instruction.reg);
        let val: i32 = match &instruction.op {
            Operation::Inp() => {
                let n = self.input_nums.len();
                let v = self.input_nums[self.i];
                self.i = self.i + 1;
                v
            },
            Operation::Add(arg) => {
                let a = self.get_value(arg);
                current + a
            },
            Operation::Mul(arg) => {
                let a = self.get_value(arg);
                proof {
                    assert(in_i32(current as int * a as int));
                }
                (current as i64 * a as i64) as i32
            },
            Operation::Div(arg) => {
                let a = self.get_value(arg);
                i32_tdiv(current, a)
            },
            Operation::Mod(arg) => {
                let a = self.get_value(arg);
                i32_trem(current, a)
            },
            Operation::Eql(arg) => {
                let a = self.get_value(arg);
                if current == a {
                    1
                } else {
                    0
                }
            },
        };
        if instruction.reg == 'w' {
            self.w = val;
        } else if instruction.reg == 'x' {
            self.x = val;
        } else if instruction.reg == 'y' {
            self.y = val;
        } else {
            self.z = val;
        }
    }
}

} // verus!
