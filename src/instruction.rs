use vstd::prelude::*;

verus! {

/// One instruction of the matching machine; its operands are addresses.
#[derive(Debug, Clone, Copy, PartialEq, Eq, Structural)]
pub enum Instruction {
    Char(char),
    Match,
    Jump(usize),
    Split(usize, usize),
}

/// Every jump or split target of `inst` is at most `bound`.
pub open spec fn targets_at_most(inst: Instruction, bound: int) -> bool {
    match inst {
        Instruction::Jump(t) => t <= bound,
        Instruction::Split(a, b) => a <= bound && b <= bound,
        _ => true,
    }
}

/// Every jump or split target of `inst` is at least `bound`.
pub open spec fn targets_at_least(inst: Instruction, bound: int) -> bool {
    match inst {
        Instruction::Jump(t) => bound <= t,
        Instruction::Split(a, b) => bound <= a && bound <= b,
        _ => true,
    }
}

/// A program whose targets are all addresses of it or the one just past its end.
pub open spec fn valid_program(prog: Seq<Instruction>) -> bool {
    forall|k: int| 0 <= k < prog.len() ==> targets_at_most(#[trigger] prog[k], prog.len() as int)
}

} // verus!
