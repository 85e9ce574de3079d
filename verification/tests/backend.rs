use rustiny::back::machine::assembly::{Argument, Assembly, Block, Instruction, Register};
use rustiny::back::machine::MachineRegister;
use rustiny::back::regalloc::allocate_regs;
use rustiny::back::regalloc::lifetime_intervals::{
    inputs, merge_or_create_interval, outputs, shorten_interval, LifetimeIntervals,
};
use rustiny::driver::interner::{Ident, Interner};

fn reg(id: Ident) -> Argument {
    Argument::Register(Register::Virtual(id))
}

fn intervals(l: &LifetimeIntervals, label: Ident, id: Ident) -> Option<Vec<(usize, usize)>> {
    l.entries
        .iter()
        .find(|(k, _)| k.0 == label && k.1 == Register::Virtual(id))
        .map(|(_, v)| v.clone())
}

#[test]
fn intervals_run_from_definition_to_last_use() {
    let mut interner = Interner::new();
    let f = interner.intern_str("main");
    let label = interner.intern_str("entry");
    let a = interner.intern_str("a");
    let b = interner.intern_str("b");
    let mut block = Block::new(label);
    block.emit_instruction(Instruction::new("mov", vec![reg(a), Argument::Immediate(5)]));
    block.emit_instruction(Instruction::new("mov", vec![reg(b), reg(a)]));
    block.emit_instruction(Instruction::new("push", vec![reg(b)]));
    let mut code = Assembly::new();
    code.emit_block(f, block);

    let (code, lifetimes) = allocate_regs(code).unwrap();
    assert_eq!(code.fns.len(), 1);
    assert_eq!(lifetimes.entries.len(), 2);
    assert_eq!(intervals(&lifetimes, label, a), Some(vec![(0, 1)]));
    assert_eq!(intervals(&lifetimes, label, b), Some(vec![(1, 2)]));
}

#[test]
fn registers_live_out_span_the_block() {
    let mut interner = Interner::new();
    let f = interner.intern_str("main");
    let first = interner.intern_str("first");
    let second = interner.intern_str("second");
    let a = interner.intern_str("a");
    let mut b1 = Block::new(first);
    b1.emit_instruction(Instruction::new("mov", vec![reg(a), Argument::Immediate(1)]));
    b1.emit_instruction(Instruction::new("nop", vec![]));
    b1.successors.push(second);
    let mut b2 = Block::new(second);
    b2.emit_instruction(Instruction::new("push", vec![reg(a)]));
    let mut code = Assembly::new();
    code.emit_block(f, b1);
    code.emit_block(f, b2);

    let (_, lifetimes) = allocate_regs(code).unwrap();
    assert_eq!(intervals(&lifetimes, second, a), Some(vec![(0, 0)]));
    assert_eq!(intervals(&lifetimes, first, a), Some(vec![(0, 1)]));
}

#[test]
fn dead_writes_are_rejected() {
    let mut interner = Interner::new();
    let f = interner.intern_str("main");
    let label = interner.intern_str("entry");
    let a = interner.intern_str("a");
    let c = interner.intern_str("c");
    let mut block = Block::new(label);
    block.emit_instruction(Instruction::new("mov", vec![reg(c), reg(a)]));
    let mut code = Assembly::new();
    code.emit_block(f, block);
    assert!(allocate_regs(code).is_err());

    let mut empty = Assembly::new();
    empty.emit_block(f, Block::new(label));
    assert!(allocate_regs(empty).is_err());
}

#[test]
fn machine_registers_are_not_tracked() {
    let mut interner = Interner::new();
    let f = interner.intern_str("main");
    let label = interner.intern_str("entry");
    let mut block = Block::new(label);
    block.emit_instruction(Instruction::new("mov", vec![Argument::Register(Register::Machine(MachineRegister::RAX)), Argument::Immediate(0)]));
    block.emit_instruction(Instruction::new("ret", vec![]));
    let mut code = Assembly::new();
    code.emit_block(f, block);
    let (_, lifetimes) = allocate_regs(code).unwrap();
    assert!(lifetimes.entries.is_empty());
}

#[test]
fn operands_read_and_written() {
    let mut interner = Interner::new();
    let a = interner.intern_str("a");
    let b = interner.intern_str("b");
    let add = Instruction::new("add", vec![reg(a), reg(b)]);
    assert_eq!(outputs(&add), vec![Register::Virtual(a)]);
    assert_eq!(inputs(&add), vec![Register::Virtual(a), Register::Virtual(b)]);
    let store = Instruction::new(
        "mov",
        vec![Argument::Indirect { size: None, base: Some(Register::Virtual(a)), index: None, disp: Some(-8) }, reg(b)],
    );
    assert_eq!(outputs(&store), vec![]);
    assert_eq!(inputs(&store), vec![Register::Virtual(a), Register::Virtual(b)]);
}

#[test]
fn intervals_merge_and_shorten() {
    let mut interner = Interner::new();
    let l = interner.intern_str("l");
    let a = interner.intern_str("a");
    let key = (l, Register::Virtual(a));
    let mut lifetimes = LifetimeIntervals::new();
    assert!(shorten_interval(&mut lifetimes, key, 0).is_err());
    merge_or_create_interval(&mut lifetimes, key, 2, 4);
    merge_or_create_interval(&mut lifetimes, key, 3, 3);
    assert_eq!(lifetimes.entries[0].1, vec![(2, 4)]);
    merge_or_create_interval(&mut lifetimes, key, 0, 1);
    assert_eq!(lifetimes.entries[0].1, vec![(0, 4)]);
    shorten_interval(&mut lifetimes, key, 3).unwrap();
    assert_eq!(lifetimes.entries[0].1, vec![(3, 4)]);
}
