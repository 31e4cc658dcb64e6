use lox_interpreter::monad::{Argument, Instruction, Monad, Operation};

#[test]
fn test_inp_instruction() {
    let mut vm = Monad::new(vec![1, 2, 3]);
    vm.execute(Instruction::new('z', Operation::Inp()));
    assert_eq!(vm.register_value('z'), 1)
}

#[test]
fn test_inp_instruction_many_times() {
    let mut vm = Monad::new(vec![1, 2, 3]);
    vm.execute(Instruction::new('z', Operation::Inp()));
    vm.execute(Instruction::new('z', Operation::Inp()));
    vm.execute(Instruction::new('w', Operation::Inp()));
    assert_eq!(vm.register_value('w'), 3);
    assert_eq!(vm.register_value('z'), 2);
}

#[test]
fn test_arithmetic_instructions() {
    let mut vm = Monad::new(vec![10]);
    vm.execute(Instruction::new('x', Operation::Inp()));
    vm.execute(Instruction::new('x', Operation::Add(Argument::Value(5))));
    assert_eq!(vm.register_value('x'), 15);
    vm.execute(Instruction::new('x', Operation::Mul(Argument::Value(-2))));
    assert_eq!(vm.register_value('x'), -30);
    vm.execute(Instruction::new('x', Operation::Div(Argument::Value(7))));
    assert_eq!(vm.register_value('x'), -4);
    vm.execute(Instruction::new('x', Operation::Mod(Argument::Value(3))));
    assert_eq!(vm.register_value('x'), -1);
    vm.execute(Instruction::new('y', Operation::Add(Argument::Register('x'))));
    assert_eq!(vm.register_value('y'), -1);
    vm.execute(Instruction::new('y', Operation::Eql(Argument::Register('x'))));
    assert_eq!(vm.register_value('y'), 1);
    vm.execute(Instruction::new('y', Operation::Eql(Argument::Value(5))));
    assert_eq!(vm.register_value('y'), 0);
}
