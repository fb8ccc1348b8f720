//! The primitive opcodes, their static stack effects, and the static check of
//! a program that is to become a skill.
use crate::number::{cell_of, decode_cell, decoded};
use vstd::prelude::*;

verus! {

/// Opcodes from this one up invoke skills.
pub const SKILL_OPCODE_BASE: i64 = 1000;

#[derive(Clone, Copy, Debug, PartialEq, Eq, Hash, Structural)]
pub enum Op {
    Literal,
    Add,
    Sub,
    Mul,
    Eq,
    Store,
    Load,
    Halt,
    Gt,
    Not,
    Jmp,
    JmpIf,
    Call,
    Ret,
    Intuition,
    Reward,
    Evolve,
    Swap,
    Dup,
    Over,
    Drop,
    And,
    Or,
    Xor,
    IsZero,
    Mod,
    Inc,
    Dec,
    Parse,
}

/// The number of each opcode in a program.
pub open spec fn code_of(op: Op) -> i64 {
    match op {
        Op::Literal => 0,
        Op::Add => 1,
        Op::Sub => 2,
        Op::Mul => 3,
        Op::Eq => 5,
        Op::Store => 6,
        Op::Load => 7,
        Op::Halt => 8,
        Op::Gt => 9,
        Op::Not => 10,
        Op::Jmp => 11,
        Op::JmpIf => 12,
        Op::Call => 13,
        Op::Ret => 14,
        Op::Intuition => 15,
        Op::Reward => 16,
        Op::Evolve => 17,
        Op::Swap => 18,
        Op::Dup => 19,
        Op::Over => 20,
        Op::Drop => 21,
        Op::And => 22,
        Op::Or => 23,
        Op::Xor => 24,
        Op::IsZero => 25,
        Op::Mod => 26,
        Op::Inc => 27,
        Op::Dec => 28,
        Op::Parse => 29,
    }
}

pub open spec fn op_of(code: i64) -> Option<Op> {
    if exists|op: Op| code_of(op) == code {
        Some(choose|op: Op| code_of(op) == code)
    } else {
        None
    }
}

/// Net change of the stack depth, assuming the inputs are there.
pub open spec fn delta_of(op: Op) -> int {
    match op {
        Op::Literal | Op::Dup | Op::Over => 1,
        Op::Add | Op::Sub | Op::Mul | Op::Mod | Op::Eq | Op::Gt | Op::And | Op::Or | Op::Xor
        | Op::JmpIf | Op::Evolve | Op::Drop => -1,
        Op::Store => -2,
        _ => 0,
    }
}

/// How many stack values the opcode reads.
pub open spec fn inputs_of(op: Op) -> nat {
    match op {
        Op::Add | Op::Sub | Op::Mul | Op::Mod | Op::Eq | Op::Gt | Op::And | Op::Or | Op::Xor
        | Op::Store | Op::Swap | Op::Over => 2,
        Op::Inc | Op::Dec | Op::Not | Op::IsZero | Op::Load | Op::JmpIf | Op::Evolve | Op::Dup
        | Op::Drop | Op::Parse => 1,
        _ => 0,
    }
}

/// Whether the opcode may move the instruction pointer elsewhere than past
/// its own cells.
pub open spec fn branches(op: Op) -> bool {
    match op {
        Op::Halt | Op::Jmp | Op::JmpIf | Op::Call | Op::Ret | Op::Intuition => true,
        _ => false,
    }
}

/// How many cells after the opcode it consumes as an immediate operand.
pub open spec fn immediates_of(op: Op) -> nat {
    match op {
        Op::Literal | Op::Jmp | Op::JmpIf | Op::Call => 1,
        _ => 0,
    }
}

/// How many values must be on the stack before the opcode is dispatched:
/// what its stack delta takes away.
pub open spec fn required_of(op: Op) -> nat {
    if delta_of(op) < 0 {
        (-delta_of(op)) as nat
    } else {
        0
    }
}

/// The static facts of an opcode.
#[derive(Clone, Copy, Debug, PartialEq, Eq, Structural)]
pub struct OpInfo {
    pub stack_delta: i64,
    pub inputs: usize,
    pub may_branch: bool,
    pub immediates: usize,
}

impl Op {
    pub fn from_i64(value: i64) -> (r: Option<Op>)
        ensures
            r == op_of(value),
            r matches Some(op) ==> code_of(op) == value,
    {
        let r = match value {
            0 => Some(Op::Literal),
            1 => Some(Op::Add),
            2 => Some(Op::Sub),
            3 => Some(Op::Mul),
            5 => Some(Op::Eq),
            6 => Some(Op::Store),
            7 => Some(Op::Load),
            8 => Some(Op::Halt),
            9 => Some(Op::Gt),
            10 => Some(Op::Not),
            11 => Some(Op::Jmp),
            12 => Some(Op::JmpIf),
            13 => Some(Op::Call),
            14 => Some(Op::Ret),
            15 => Some(Op::Intuition),
            16 => Some(Op::Reward),
            17 => Some(Op::Evolve),
            18 => Some(Op::Swap),
            19 => Some(Op::Dup),
            20 => Some(Op::Over),
            21 => Some(Op::Drop),
            22 => Some(Op::And),
            23 => Some(Op::Or),
            24 => Some(Op::Xor),
            25 => Some(Op::IsZero),
            26 => Some(Op::Mod),
            27 => Some(Op::Inc),
            28 => Some(Op::Dec),
            29 => Some(Op::Parse),
            _ => None,
        };
        proof {
            lemma_code_of_injective();
        }
        r
    }

    /// The program cell that holds this opcode.
    pub fn as_cell(self) -> (r: u64)
        ensures
            decoded(r) == Some(code_of(self)),
    {
        let code = self.as_i64();
        cell_of(code as u64)
    }

    pub fn as_i64(self) -> (r: i64)
        ensures
            r == code_of(self),
    {
        match self {
            Op::Literal => 0,
            Op::Add => 1,
            Op::Sub => 2,
            Op::Mul => 3,
            Op::Eq => 5,
            Op::Store => 6,
            Op::Load => 7,
            Op::Halt => 8,
            Op::Gt => 9,
            Op::Not => 10,
            Op::Jmp => 11,
            Op::JmpIf => 12,
            Op::Call => 13,
            Op::Ret => 14,
            Op::Intuition => 15,
            Op::Reward => 16,
            Op::Evolve => 17,
            Op::Swap => 18,
            Op::Dup => 19,
            Op::Over => 20,
            Op::Drop => 21,
            Op::And => 22,
            Op::Or => 23,
            Op::Xor => 24,
            Op::IsZero => 25,
            Op::Mod => 26,
            Op::Inc => 27,
            Op::Dec => 28,
            Op::Parse => 29,
        }
    }
}

/// Distinct opcodes have distinct numbers.
pub proof fn lemma_code_of_injective()
    ensures
        forall|a: Op, b: Op| code_of(a) == code_of(b) ==> a == b,
{
}

/// The static facts of an opcode.
pub fn logic_of(op: Op) -> (r: OpInfo)
    ensures
        r.stack_delta as int == delta_of(op),
        r.inputs as nat == inputs_of(op),
        r.may_branch == branches(op),
        r.immediates as nat == immediates_of(op),
{
    let stack_delta: i64 = match op {
        Op::Literal | Op::Dup | Op::Over => 1,
        Op::Add | Op::Sub | Op::Mul | Op::Mod | Op::Eq | Op::Gt | Op::And | Op::Or | Op::Xor
        | Op::JmpIf | Op::Evolve | Op::Drop => -1,
        Op::Store => -2,
        _ => 0,
    };
    let inputs: usize = match op {
        Op::Add | Op::Sub | Op::Mul | Op::Mod | Op::Eq | Op::Gt | Op::And | Op::Or | Op::Xor
        | Op::Store | Op::Swap | Op::Over => 2,
        Op::Inc | Op::Dec | Op::Not | Op::IsZero | Op::Load | Op::JmpIf | Op::Evolve | Op::Dup
        | Op::Drop | Op::Parse => 1,
        _ => 0,
    };
    let may_branch = match op {
        Op::Halt | Op::Jmp | Op::JmpIf | Op::Call | Op::Ret | Op::Intuition => true,
        _ => false,
    };
    let immediates: usize = match op {
        Op::Literal | Op::Jmp | Op::JmpIf | Op::Call => 1,
        _ => 0,
    };
    OpInfo { stack_delta, inputs, may_branch, immediates }
}

/// The opcodes of a program, in order, with immediate operands skipped:
/// `None` when a cell does not decode, names no opcode, or an immediate is
/// missing. Skill invocations are kept as they are.
pub open spec fn program_ops(cells: Seq<u64>) -> Option<Seq<i64>>
    decreases cells.len(),
{
    if cells.len() == 0 {
        Some(Seq::empty())
    } else {
        match decoded(cells[0]) {
            None => None,
            Some(code) => {
                if code < SKILL_OPCODE_BASE && op_of(code) is None {
                    None
                } else {
                    let skip: int = if code < SKILL_OPCODE_BASE {
                        1 + immediates_of(op_of(code)->0) as int
                    } else {
                        1
                    };
                    if skip > cells.len() {
                        None
                    } else {
                        match program_ops(cells.subrange(skip, cells.len() as int)) {
                            None => None,
                            Some(rest) => Some(seq![code].add(rest)),
                        }
                    }
                }
            },
        }
    }
}

/// Decodes every opcode of a program, skipping immediates.
pub fn decode_ops_for_validation(cells: &Vec<u64>) -> (r: Option<Vec<i64>>)
    ensures
        r matches Some(v) ==> program_ops(cells@) == Some(v@),
        r is None ==> program_ops(cells@) is None,
{
    let mut out: Vec<i64> = Vec::new();
    let mut i: usize = 0;
    assert(cells@.subrange(0, cells.len() as int) =~= cells@);
    proof {
        match program_ops(cells@) {
            None => {},
            Some(all) => {
                assert(out@.add(all) =~= all);
            },
        }
    }
    while i < cells.len()
        invariant
            i <= cells.len(),
            program_ops(cells@) == (match program_ops(cells@.subrange(i as int, cells.len() as int)) {
                None => None,
                Some(rest) => Some(out@.add(rest)),
            }),
        decreases cells.len() - i,
    {
        let ghost tail = cells@.subrange(i as int, cells.len() as int);
        assert(tail[0] == cells@[i as int]);
        let code = match decode_cell(cells[i]) {
            None => {
                return None;
            },
            Some(c) => c,
        };
        let skip: usize = if code < SKILL_OPCODE_BASE {
            match Op::from_i64(code) {
                None => {
                    return None;
                },
                Some(op) => 1 + logic_of(op).immediates,
            }
        } else {
            1
        };
        if skip > cells.len() - i {
            return None;
        }
        assert(tail.subrange(skip as int, tail.len() as int) =~= cells@.subrange(
            i + skip,
            cells.len() as int,
        ));
        proof {
            match program_ops(cells@.subrange(i + skip, cells.len() as int)) {
                None => {},
                Some(rest) => {
                    assert(out@.push(code).add(rest) =~= out@.add(seq![code].add(rest)));
                },
            }
        }
        out.push(code);
        i = i + skip;
    }
    assert(cells@.subrange(i as int, cells.len() as int) =~= Seq::<u64>::empty());
    assert(out@.add(Seq::<i64>::empty()) =~= out@);
    Some(out)
}

/// Stack depth after each of `ops` runs from an empty stack, or `None` when
/// one of them finds fewer values than it reads. Skills count as neutral.
pub open spec fn depth_after(ops: Seq<i64>) -> Option<int>
    decreases ops.len(),
{
    if ops.len() == 0 {
        Some(0)
    } else {
        match depth_after(ops.drop_last()) {
            None => None,
            Some(d) => {
                let code = ops.last();
                if code >= SKILL_OPCODE_BASE || op_of(code) is None {
                    Some(d)
                } else {
                    let op = op_of(code)->0;
                    if d < inputs_of(op) {
                        None
                    } else {
                        Some(d + delta_of(op))
                    }
                }
            },
        }
    }
}

/// A body that may become a skill: it never reads below an empty stack and it
/// holds a `Halt`.
pub open spec fn valid_body(ops: Seq<i64>) -> bool {
    depth_after(ops) is Some && exists|i: int| 0 <= i < ops.len() && ops[i] == 8
}

/// Checks that a decoded body never underflows from an empty stack and holds
/// a `Halt`.
pub fn validate_ops(ops: &Vec<i64>) -> (r: bool)
    ensures
        r == valid_body(ops@),
{
    let mut depth: usize = 0;
    let mut has_halt = false;
    let mut i: usize = 0;
    while i < ops.len()
        invariant
            i <= ops.len(),
            depth_after(ops@.subrange(0, i as int)) == Some(depth as int),
            depth <= i,
            has_halt == exists|j: int| 0 <= j < i && ops@[j] == 8,
        decreases ops.len() - i,
    {
        let code = ops[i];
        assert(ops@.subrange(0, i + 1).drop_last() =~= ops@.subrange(0, i as int));
        if code < SKILL_OPCODE_BASE {
            match Op::from_i64(code) {
                Some(op) => {
                    let info = logic_of(op);
                    if depth < info.inputs {
                        proof {
                            lemma_depth_none_extends(ops@, i as int + 1);
                        }
                        return false;
                    }
                    if info.stack_delta >= 0 {
                        depth = depth + info.stack_delta as usize;
                    } else {
                        depth = depth - (-info.stack_delta) as usize;
                    }
                },
                None => {},
            }
        }
        if code == 8 {
            has_halt = true;
        }
        i = i + 1;
    }
    assert(ops@.subrange(0, i as int) =~= ops@);
    has_halt
}

proof fn lemma_depth_none_extends(ops: Seq<i64>, k: int)
    requires
        0 <= k <= ops.len(),
        depth_after(ops.subrange(0, k)) is None,
    ensures
        depth_after(ops) is None,
    decreases ops.len() - k,
{
    if k < ops.len() {
        assert(ops.subrange(0, k + 1).drop_last() =~= ops.subrange(0, k));
        lemma_depth_none_extends(ops, k + 1);
    } else {
        assert(ops.subrange(0, k) =~= ops);
    }
}

} // verus!
